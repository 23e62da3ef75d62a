//! What holds of the engine's side as a whole.

use vstd::prelude::*;
use super::analysis_cfg::{
    self,
    COMMENT_FIRST,
    COMMENT_SECOND,
    COMMENT_THIRD,
    LEGACY_FIRST,
    LEGACY_SECOND,
};
use super::config::{self, Difficulty, Rules};
use super::files;
use super::json::{self, JsonView};
use super::protocol::{self, QueryId};
use super::record;
use super::report::{self, IncomingView, RawView};
use super::session::{self, EngineView};
use super::settings::{self, ConfigView, PrefsView};
use crate::board::coord::{self, CoordError};
use crate::board::{Action, Coord, Size, Stone};
use crate::number;
use crate::play::timer::TimeSystem;
use crate::text;

verus! {

/// Whether a name is one that the engine knows.
pub open spec fn known_rules(s: Seq<char>) -> bool {
    s == Rules::Chinese.wire_spec() || s == Rules::Japanese.wire_spec() || s
        == Rules::Korean.wire_spec() || s == Rules::Aga.wire_spec() || s
        == Rules::NewZealand.wire_spec() || s == Rules::TrompTaylor.wire_spec()
}

/// Whatever the settings and the record say, the engine is asked for rules that it knows.
pub proof fn law_rules_always_known(cfg: Option<Seq<char>>, sgf: Option<Seq<char>>, found: Option<Rules>)
    ensures
        known_rules(config::resolved(cfg, sgf, found).rules),
{
}

/// A name that the engine knows means the rules it is the name of.
pub proof fn law_wire_name_means_rules(r: Rules)
    ensures
        config::rules_of(r.wire_spec()) == Some(r),
{
    reveal_strlit("chinese");
    reveal_strlit("japanese");
    reveal_strlit("korean");
    reveal_strlit("aga");
    reveal_strlit("new-zealand");
    reveal_strlit("newzealand");
    reveal_strlit("tromp-taylor");
    reveal_strlit("tromptaylor");
    reveal_with_fuel(config::squeezed, 13);
    let w = r.wire_spec();
    text::lemma_trimmed_id(w);
    assert(text::lower_text(w) =~= w);
    match r {
        Rules::Chinese => {
            assert(config::squeezed(w) =~= "chinese"@);
        },
        Rules::Japanese => {
            assert(config::squeezed(w) =~= "japanese"@);
        },
        Rules::Korean => {
            assert(config::squeezed(w) =~= "korean"@);
        },
        Rules::Aga => {
            assert(config::squeezed(w) =~= "aga"@);
        },
        Rules::NewZealand => {
            assert(config::squeezed(w) =~= "newzealand"@);
        },
        Rules::TrompTaylor => {
            assert(config::squeezed(w) =~= "tromptaylor"@);
        },
    }
}

// ---- the configuration file ----

/// A line that reads back as it is written.
pub open spec fn plain_line(l: Seq<char>) -> bool {
    !l.contains('\n') && (l.len() > 0 ==> l.last() != '\r')
}

/// All lines read back as they are written.
pub open spec fn plain_lines(ls: Seq<Seq<char>>) -> bool {
    forall|i: int| 0 <= i < ls.len() ==> plain_line(#[trigger] ls[i])
}

/// The pieces of a text hold no separator.
proof fn lemma_pieces_hold_none(s: Seq<char>, sep: char)
    ensures
        text::pieces(s, sep).len() > 0,
        forall|i: int|
            0 <= i < text::pieces(s, sep).len() ==> !(#[trigger] text::pieces(s, sep)[i]).contains(
                sep,
            ),
    decreases s.len(),
{
    match text::find_from(s, sep, 0) {
        Some(i) => {
            lemma_found(s, sep, 0);
            let rest = text::pieces(s.skip(i + 1), sep);
            lemma_pieces_hold_none(s.skip(i + 1), sep);
            let all = text::pieces(s, sep);
            assert(all =~= seq![s.take(i)] + rest);
            assert forall|k: int| 0 <= k < all.len() implies !(#[trigger] all[k]).contains(sep) by {
                if k > 0 {
                    assert(all[k] == rest[k - 1]);
                }
            }
        },
        None => {
            text::lemma_not_found(s, sep, 0);
        },
    }
}

/// A character that is found stands there, and not before.
proof fn lemma_found(s: Seq<char>, c: char, i: int)
    requires
        0 <= i,
    ensures
        text::find_from(s, c, i) matches Some(k) ==> i <= k < s.len() && s[k] == c && forall|j: int|
            i <= j < k ==> #[trigger] s[j] != c,
    decreases s.len() - i,
{
    if i < s.len() {
        lemma_found(s, c, i + 1);
    }
}

/// A character is found at the first place where it stands.
proof fn lemma_finds(s: Seq<char>, c: char, i: int, at: int)
    requires
        0 <= i <= at < s.len(),
        s[at] == c,
        forall|j: int| i <= j < at ==> #[trigger] s[j] != c,
    ensures
        text::find_from(s, c, i) == Some(at),
    decreases at - i,
{
    if i < at {
        lemma_finds(s, c, i + 1, at);
    }
}

/// The lines that are written are the pieces of the text, and an empty one.
proof fn lemma_written_pieces(ls: Seq<Seq<char>>)
    requires
        plain_lines(ls),
    ensures
        text::pieces(analysis_cfg::text_of(ls), '\n') == ls.push(Seq::empty()),
    decreases ls.len(),
{
    let t = analysis_cfg::text_of(ls);
    if ls.len() == 0 {
        assert(text::find_from(t, '\n', 0) is None);
        assert(ls.push(Seq::empty()) =~= seq![t]);
    } else {
        let n = ls[0].len() as int;
        let rest = ls.skip(1);
        assert(plain_line(ls[0]));
        assert forall|j: int| 0 <= j < n implies #[trigger] t[j] != '\n' by {
            assert(t[j] == ls[0][j]);
        }
        lemma_finds(t, '\n', 0, n);
        assert(t.take(n) =~= ls[0]);
        assert(t.skip(n + 1) =~= analysis_cfg::text_of(rest));
        assert forall|i: int| 0 <= i < rest.len() implies plain_line(#[trigger] rest[i]) by {
            assert(rest[i] == ls[i + 1]);
        }
        lemma_written_pieces(rest);
        assert(seq![ls[0]] + rest.push(Seq::empty()) =~= ls.push(Seq::empty()));
    }
}

/// Plain lines and an empty piece are those lines.
proof fn lemma_lines_in(ls: Seq<Seq<char>>)
    requires
        plain_lines(ls),
    ensures
        analysis_cfg::lines_in(ls.push(Seq::empty())) == ls,
    decreases ls.len(),
{
    let ps = ls.push(Seq::empty());
    if ls.len() == 0 {
        assert(ps.len() == 1 && ps[0].len() == 0);
        assert(ls =~= Seq::empty());
    } else {
        let rest = ls.skip(1);
        assert(plain_line(ls[0]));
        assert(analysis_cfg::without_return(ps[0]) == ls[0]);
        assert(ps.skip(1) =~= rest.push(Seq::empty()));
        assert forall|i: int| 0 <= i < rest.len() implies plain_line(#[trigger] rest[i]) by {
            assert(rest[i] == ls[i + 1]);
        }
        lemma_lines_in(rest);
        assert(seq![ls[0]] + rest =~= ls);
    }
}

/// The lines of a text hold no line feed.
proof fn lemma_lines_hold_none(ps: Seq<Seq<char>>)
    requires
        forall|i: int| 0 <= i < ps.len() ==> !(#[trigger] ps[i]).contains('\n'),
    ensures
        forall|i: int|
            0 <= i < analysis_cfg::lines_in(ps).len() ==> !(#[trigger] analysis_cfg::lines_in(
                ps,
            )[i]).contains('\n'),
    decreases ps.len(),
{
    if ps.len() >= 2 {
        let rest = ps.skip(1);
        assert forall|i: int| 0 <= i < rest.len() implies !(#[trigger] rest[i]).contains('\n') by {
            assert(rest[i] == ps[i + 1]);
        }
        lemma_lines_hold_none(rest);
        let first = analysis_cfg::without_return(ps[0]);
        assert(!first.contains('\n')) by {
            if first.contains('\n') {
                let k = first.index_of('\n');
                assert(ps[0][k] == '\n');
            }
        }
        let all = analysis_cfg::lines_in(ps);
        assert forall|i: int| 0 <= i < all.len() implies !(#[trigger] all[i]).contains('\n') by {
            if i > 0 {
                assert(all[i] == analysis_cfg::lines_in(rest)[i - 1]);
            }
        }
    }
}

/// Every line that sets the threads sets them as they should be.
spec fn settled(ls: Seq<Seq<char>>, threads: u32) -> bool {
    forall|i: int|
        0 <= i < ls.len() && analysis_cfg::sets_threads(#[trigger] ls[i]) ==> text::trimmed_start(
            ls[i],
        ) == analysis_cfg::threads_line(threads)
}

/// The outdated comment does not stand at `i`.
spec fn no_pair_at(ls: Seq<Seq<char>>, i: int) -> bool {
    !(0 <= i < ls.len() - 1 && ls[i] == LEGACY_FIRST@ && ls[i + 1] == LEGACY_SECOND@)
}

/// The outdated comment stands nowhere.
spec fn no_pair(ls: Seq<Seq<char>>) -> bool {
    forall|i: int| #[trigger] no_pair_at(ls, i)
}

/// What the fixed lines are like.
proof fn lemma_fixed_lines(threads: u32)
    ensures
        analysis_cfg::sets_threads(analysis_cfg::threads_line(threads)),
        text::trimmed_start(analysis_cfg::threads_line(threads)) == analysis_cfg::threads_line(
            threads,
        ),
        plain_line(analysis_cfg::threads_line(threads)),
        plain_line(COMMENT_FIRST@),
        plain_line(COMMENT_SECOND@),
        plain_line(COMMENT_THIRD@),
        !analysis_cfg::sets_threads(COMMENT_FIRST@),
        !analysis_cfg::sets_threads(COMMENT_SECOND@),
        !analysis_cfg::sets_threads(COMMENT_THIRD@),
        !analysis_cfg::sets_threads(LEGACY_FIRST@),
        !analysis_cfg::sets_threads(LEGACY_SECOND@),
        COMMENT_FIRST@ != LEGACY_SECOND@,
        COMMENT_FIRST@ != LEGACY_FIRST@,
        COMMENT_SECOND@ != LEGACY_FIRST@,
        COMMENT_THIRD@ != LEGACY_FIRST@,
{
    reveal_strlit(
        "# 8 cores / 16 threads host: one search thread per physical core is the",
    );
    reveal_strlit("# efficiency sweet spot for KataGo MCTS.");
    reveal_strlit(
        "# 搜索线程：OpenCL 只做网络前向、搜索全在 CPU 线程上，线程越多越能",
    );
    reveal_strlit("# 喂满 GPU 批。实测（b18 + 680M iGPU）：16 线程比 8 快 17–21%");
    reveal_strlit(
        "# （2000 visits：23.8s vs 28.6s），界面未被饿死；若发滞可降到物理核数。",
    );
    reveal_strlit("numSearchThreads");
    reveal_strlit("numSearchThreads = ");
    let n = analysis_cfg::at_least_one(threads) as nat;
    text::lemma_decimal_digits(n);
    let w = analysis_cfg::threads_line(threads);
    let d = text::decimal(n);
    text::lemma_found(w, '=', 0, 17);
    assert(w.take(17).drop_last() =~= "numSearchThreads"@);
    assert(text::trimmed_end("numSearchThreads"@) == "numSearchThreads"@);
    assert(w.last() == d.last());
    assert forall|i: int| 0 <= i < w.len() implies #[trigger] w[i] != '\n' by {
        if i >= 19 {
            assert(w[i] == d[i - 19]);
        }
    }
    lemma_comment_line(COMMENT_FIRST@);
    lemma_comment_line(COMMENT_SECOND@);
    lemma_comment_line(COMMENT_THIRD@);
    lemma_comment_line(LEGACY_FIRST@);
    lemma_comment_line(LEGACY_SECOND@);
    assert(COMMENT_FIRST@[2] != LEGACY_SECOND@[2]);
    assert(COMMENT_FIRST@[2] != LEGACY_FIRST@[2]);
    assert(COMMENT_SECOND@[2] != LEGACY_FIRST@[2]);
    assert(COMMENT_THIRD@[2] != LEGACY_FIRST@[2]);
}

/// A comment sets no threads.
proof fn lemma_comment_line(l: Seq<char>)
    requires
        l.len() > 0,
        l[0] == '#',
    ensures
        !analysis_cfg::sets_threads(l),
{
    reveal_strlit("numSearchThreads");
    assert(text::trimmed_start(l) == l);
    if let Some(i) = text::find_from(l, '=', 0) {
        text::lemma_found_there(l, '=', 0);
        text::lemma_trimmed_end_first(l.take(i));
    }
}

/// What setting the threads comes to.
proof fn lemma_synced(ls: Seq<Seq<char>>, threads: u32)
    ensures
        settled(analysis_cfg::synced(ls, threads), threads),
        analysis_cfg::any_sets(analysis_cfg::synced(ls, threads)),
        plain_lines(ls) ==> plain_lines(analysis_cfg::synced(ls, threads)),
        settled(ls, threads) && analysis_cfg::any_sets(ls) ==> analysis_cfg::synced(ls, threads)
            == ls,
{
    lemma_fixed_lines(threads);
    let w = analysis_cfg::threads_line(threads);
    let all = analysis_cfg::synced(ls, threads);
    assert forall|i: int| 0 <= i < all.len() implies (analysis_cfg::sets_threads(#[trigger] all[i])
        ==> text::trimmed_start(all[i]) == w) && (plain_lines(ls) ==> plain_line(all[i])) by {
        if i < ls.len() {
            assert(all[i] == analysis_cfg::synced_line(ls[i], threads));
        }
    }
    if analysis_cfg::any_sets(ls) {
        let k = choose|k: int| 0 <= k < ls.len() && analysis_cfg::sets_threads(#[trigger] ls[k]);
        assert(all[k] == analysis_cfg::synced_line(ls[k], threads));
        assert(analysis_cfg::sets_threads(all[k]));
        if settled(ls, threads) {
            assert forall|i: int| 0 <= i < ls.len() implies all[i] == ls[i] by {
                assert(all[i] == analysis_cfg::synced_line(ls[i], threads));
            }
            assert(all =~= ls);
        }
    } else {
        assert(all[ls.len() as int] == w);
        assert(analysis_cfg::sets_threads(all[ls.len() as int]));
    }
}

/// What replacing the comment comes to.
proof fn lemma_upgraded(ls: Seq<Seq<char>>, threads: u32)
    ensures
        settled(ls, threads) ==> settled(analysis_cfg::upgraded(ls), threads),
        analysis_cfg::any_sets(ls) ==> analysis_cfg::any_sets(analysis_cfg::upgraded(ls)),
        plain_lines(ls) ==> plain_lines(analysis_cfg::upgraded(ls)),
        no_pair(analysis_cfg::upgraded(ls)),
        ls.len() > 0 ==> analysis_cfg::upgraded(ls).len() > 0 && (analysis_cfg::upgraded(ls)[0]
            == ls[0] || analysis_cfg::upgraded(ls)[0] == COMMENT_FIRST@),
    decreases ls.len(),
{
    lemma_fixed_lines(threads);
    let up = analysis_cfg::upgraded(ls);
    if ls.len() == 0 {
    } else {
        let pair = ls.len() >= 2 && ls[0] == LEGACY_FIRST@ && ls[1] == LEGACY_SECOND@;
        let used: int = if pair {
            2
        } else {
            1
        };
        let head = if pair {
            seq![COMMENT_FIRST@, COMMENT_SECOND@, COMMENT_THIRD@]
        } else {
            seq![ls[0]]
        };
        let rest = ls.skip(used);
        let tail = analysis_cfg::upgraded(rest);
        lemma_upgraded(rest, threads);
        assert(up =~= head + tail);
        assert(forall|i: int| 0 <= i < rest.len() ==> #[trigger] rest[i] == ls[i + used]);
        if settled(ls, threads) {
            assert(settled(rest, threads)) by {
                assert forall|i: int|
                    0 <= i < rest.len() && analysis_cfg::sets_threads(
                        #[trigger] rest[i],
                    ) implies text::trimmed_start(rest[i]) == analysis_cfg::threads_line(
                    threads,
                ) by {
                    assert(rest[i] == ls[i + used]);
                }
            }
            assert forall|i: int|
                0 <= i < up.len() && analysis_cfg::sets_threads(
                    #[trigger] up[i],
                ) implies text::trimmed_start(up[i]) == analysis_cfg::threads_line(threads) by {
                if i >= head.len() {
                    assert(up[i] == tail[i - head.len()]);
                } else {
                    assert(up[i] == head[i]);
                }
            }
        }
        if plain_lines(ls) {
            assert(plain_lines(rest)) by {
                assert forall|i: int| 0 <= i < rest.len() implies plain_line(
                    #[trigger] rest[i],
                ) by {
                    assert(rest[i] == ls[i + used]);
                }
            }
            assert forall|i: int| 0 <= i < up.len() implies plain_line(#[trigger] up[i]) by {
                if i >= head.len() {
                    assert(up[i] == tail[i - head.len()]);
                } else {
                    assert(up[i] == head[i]);
                }
            }
        }
        if analysis_cfg::any_sets(ls) {
            let k = choose|k: int| 0 <= k < ls.len() && analysis_cfg::sets_threads(#[trigger] ls[k]);
            if k >= used {
                assert(rest[k - used] == ls[k]);
                assert(analysis_cfg::any_sets(rest));
                let m = choose|m: int|
                    0 <= m < tail.len() && analysis_cfg::sets_threads(#[trigger] tail[m]);
                assert(up[m + head.len()] == tail[m]);
                assert(analysis_cfg::any_sets(up));
            } else {
                assert(up[0] == ls[0]);
                assert(analysis_cfg::any_sets(up));
            }
        }
        assert forall|i: int| #[trigger] no_pair_at(up, i) by {
            if 0 <= i < up.len() - 1 {
                if i >= head.len() {
                    assert(no_pair_at(tail, i - head.len()));
                    assert(up[i] == tail[i - head.len()]);
                    assert(up[i + 1] == tail[i + 1 - head.len()]);
                } else if i == head.len() - 1 {
                    assert(up[i] == head[i]);
                    assert(up[i + 1] == tail[0]);
                    if !pair && rest.len() > 0 {
                        assert(rest[0] == ls[1]);
                    }
                } else {
                    assert(up[i] == head[i]);
                }
            }
        }
    }
}

/// Lines without the outdated comment stay as they are.
proof fn lemma_nothing_to_upgrade(ls: Seq<Seq<char>>)
    requires
        no_pair(ls),
    ensures
        analysis_cfg::upgraded(ls) == ls,
    decreases ls.len(),
{
    if ls.len() == 0 {
        assert(ls =~= Seq::empty());
    } else {
        assert(no_pair_at(ls, 0));
        let rest = ls.skip(1);
        assert forall|i: int| #[trigger] no_pair_at(rest, i) by {
            assert(no_pair_at(ls, i + 1));
        }
        lemma_nothing_to_upgrade(rest);
        assert(seq![ls[0]] + rest =~= ls);
    }
}

/// Bringing a configuration file up to date a second time changes nothing. A line that ends in two
/// carriage returns is left out: one of them is lost when the file is written.
pub proof fn law_update_is_idempotent(current: Seq<char>, threads: u32)
    requires
        forall|i: int|
            0 <= i < analysis_cfg::lines_of(current).len() && (#[trigger] analysis_cfg::lines_of(
                current,
            )[i]).len() > 0 ==> analysis_cfg::lines_of(current)[i].last() != '\r',
    ensures
        analysis_cfg::new_text(current, threads) matches Some(next) ==> analysis_cfg::new_text(
            next,
            threads,
        ) is None,
{
    let ls = analysis_cfg::lines_of(current);
    lemma_pieces_hold_none(current, '\n');
    lemma_lines_hold_none(text::pieces(current, '\n'));
    assert(plain_lines(ls)) by {
        assert forall|i: int| 0 <= i < ls.len() implies plain_line(#[trigger] ls[i]) by {
            assert(!ls[i].contains('\n'));
        }
    }
    let mid = analysis_cfg::synced(ls, threads);
    lemma_synced(ls, threads);
    let next = analysis_cfg::upgraded(mid);
    lemma_upgraded(mid, threads);
    lemma_written_pieces(next);
    lemma_lines_in(next);
    assert(analysis_cfg::lines_of(analysis_cfg::text_of(next)) == next);
    lemma_synced(next, threads);
    lemma_nothing_to_upgrade(next);
}

// ---- the lines of the engine ----

/// The fields of a line that are known.
pub open spec fn line_field(key: Seq<char>) -> bool {
    key == "id"@
        || key == "error"@
        || key == "warning"@
        || key == "field"@
        || key == "action"@
        || key == "terminateId"@
        || key == "version"@
        || key == "turnNumber"@
        || key == "isDuringSearch"@
        || key == "noResults"@
        || key == "moveInfos"@
        || key == "rootInfo"@
        || key == "ownership"@
        || key == "policy"@
}

/// The fields of the position in a line that are known.
pub open spec fn root_field(key: Seq<char>) -> bool {
    key == "currentPlayer"@
        || key == "visits"@
        || key == "winrate"@
        || key == "scoreLead"@
        || key == "scoreStdev"@
}

/// The fields of a move in a line that are known.
pub open spec fn info_field(key: Seq<char>) -> bool {
    key == "move"@
        || key == "pv"@
        || key == "winrate"@
        || key == "scoreLead"@
        || key == "visits"@
        || key == "prior"@
        || key == "order"@
        || key == "lcb"@
        || key == "ownership"@
}

/// A field more changes nothing under other keys.
proof fn lemma_other_field(
    fields: Seq<(Seq<char>, Seq<char>)>,
    at: int,
    m: (Seq<char>, Seq<char>),
    key: Seq<char>,
)
    requires
        0 <= at <= fields.len(),
        m.0 != key,
    ensures
        json::under(fields.insert(at, m), key) == json::under(fields, key),
        json::twice(fields.insert(at, m), key) == json::twice(fields, key),
    decreases fields.len(),
{
    let more = fields.insert(at, m);
    if at == fields.len() {
        assert(more.drop_last() =~= fields);
        assert(more.last() == m);
    } else {
        assert(more.drop_last() =~= fields.drop_last().insert(at, m));
        assert(more.last() == fields.last());
        lemma_other_field(fields.drop_last(), at, m, key);
    }
    if json::twice(fields, key) {
        let (a, b) = choose|a: int, b: int|
            #![trigger fields[a], fields[b]]
            0 <= a < b < fields.len() && fields[a].0 == key && fields[b].0 == key;
        let x = if a < at { a } else { a + 1 };
        let y = if b < at { b } else { b + 1 };
        assert(more[x] == fields[a] && more[y] == fields[b]);
    }
    if json::twice(more, key) {
        let (a, b) = choose|a: int, b: int|
            #![trigger more[a], more[b]]
            0 <= a < b < more.len() && more[a].0 == key && more[b].0 == key;
        assert(more[at] == m);
        let x = if a < at { a } else { a - 1 };
        let y = if b < at { b } else { b - 1 };
        assert(fields[x] == more[a] && fields[y] == more[b]);
    }
}

/// A field of a line that is not known is ignored, wherever it stands and whatever it holds.
pub proof fn law_unknown_field_of_a_line(
    fields: Seq<(Seq<char>, Seq<char>)>,
    at: int,
    m: (Seq<char>, Seq<char>),
)
    requires
        0 <= at <= fields.len(),
        !line_field(m.0),
    ensures
        report::wire_read(JsonView::Object(fields.insert(at, m))) == report::wire_read(
            JsonView::Object(fields),
        ),
{
    lemma_other_field(fields, at, m, "id"@);
    lemma_other_field(fields, at, m, "error"@);
    lemma_other_field(fields, at, m, "warning"@);
    lemma_other_field(fields, at, m, "field"@);
    lemma_other_field(fields, at, m, "action"@);
    lemma_other_field(fields, at, m, "terminateId"@);
    lemma_other_field(fields, at, m, "version"@);
    lemma_other_field(fields, at, m, "turnNumber"@);
    lemma_other_field(fields, at, m, "isDuringSearch"@);
    lemma_other_field(fields, at, m, "noResults"@);
    lemma_other_field(fields, at, m, "moveInfos"@);
    lemma_other_field(fields, at, m, "rootInfo"@);
    lemma_other_field(fields, at, m, "ownership"@);
    lemma_other_field(fields, at, m, "policy"@);
}

/// A field of the position that is not known is ignored, wherever it stands and whatever it holds.
pub proof fn law_unknown_field_of_the_position(
    fields: Seq<(Seq<char>, Seq<char>)>,
    at: int,
    m: (Seq<char>, Seq<char>),
)
    requires
        0 <= at <= fields.len(),
        !root_field(m.0),
    ensures
        report::root_read(JsonView::Object(fields.insert(at, m))) == report::root_read(
            JsonView::Object(fields),
        ),
{
    lemma_other_field(fields, at, m, "currentPlayer"@);
    lemma_other_field(fields, at, m, "visits"@);
    lemma_other_field(fields, at, m, "winrate"@);
    lemma_other_field(fields, at, m, "scoreLead"@);
    lemma_other_field(fields, at, m, "scoreStdev"@);
}

/// A field of a move that is not known is ignored, wherever it stands and whatever it holds.
pub proof fn law_unknown_field_of_a_move(
    fields: Seq<(Seq<char>, Seq<char>)>,
    at: int,
    m: (Seq<char>, Seq<char>),
)
    requires
        0 <= at <= fields.len(),
        !info_field(m.0),
    ensures
        report::info_read(JsonView::Object(fields.insert(at, m))) == report::info_read(
            JsonView::Object(fields),
        ),
{
    lemma_other_field(fields, at, m, "move"@);
    lemma_other_field(fields, at, m, "pv"@);
    lemma_other_field(fields, at, m, "winrate"@);
    lemma_other_field(fields, at, m, "scoreLead"@);
    lemma_other_field(fields, at, m, "visits"@);
    lemma_other_field(fields, at, m, "prior"@);
    lemma_other_field(fields, at, m, "order"@);
    lemma_other_field(fields, at, m, "lcb"@);
    lemma_other_field(fields, at, m, "ownership"@);
}

/// The text under a key of an object, where there is one.
pub open spec fn text_at(j: JsonView, key: Seq<char>) -> Option<Seq<char>> {
    match json::field(j, key) {
        Some(raw) => match json::read(raw) {
            Some(JsonView::Text(s)) => Some(s),
            _ => None,
        },
        None => None,
    }
}

/// The number under a key of an object, or another where there is none.
pub open spec fn number_at(j: JsonView, key: Seq<char>, d: Seq<char>) -> Seq<char> {
    match json::field(j, key) {
        Some(raw) => match json::read(raw) {
            Some(JsonView::Number(s)) => s,
            _ => d,
        },
        None => d,
    }
}

/// The whole number under a key of an object, or another where there is none.
pub open spec fn whole_at(j: JsonView, key: Seq<char>, d: nat) -> nat {
    match json::field(j, key) {
        Some(raw) => match json::read(raw) {
            Some(JsonView::Number(s)) => text::parsed_unsigned(s, u64::MAX as nat)->0,
            _ => d,
        },
        None => d,
    }
}

/// Whether there is a true under a key of an object.
pub open spec fn true_at(j: JsonView, key: Seq<char>) -> bool {
    match json::field(j, key) {
        Some(raw) => json::read(raw) == Some(JsonView::Bool(true)),
        None => false,
    }
}

/// The list under a key of an object as it is written, where there is one.
pub open spec fn list_at(j: JsonView, key: Seq<char>) -> Option<Seq<char>> {
    match json::field(j, key) {
        Some(raw) => match json::read(raw) {
            Some(JsonView::Array(_)) => Some(raw),
            _ => None,
        },
        None => None,
    }
}

/// The values of the list under a key of an object.
pub open spec fn items_at(j: JsonView, key: Seq<char>) -> Seq<Seq<char>> {
    match json::field(j, key) {
        Some(raw) => match json::read(raw) {
            Some(JsonView::Array(items)) => items,
            _ => Seq::empty(),
        },
        None => Seq::empty(),
    }
}

/// The value that counts under a key is the last one that stands there; there is none exactly where
/// the key does not stand there.
pub proof fn law_last_field_counts(fields: Seq<(Seq<char>, Seq<char>)>, key: Seq<char>)
    ensures
        forall|i: int|
            0 <= i < fields.len() && (#[trigger] fields[i]).0 == key && (forall|k: int|
                i < k < fields.len() ==> (#[trigger] fields[k]).0 != key) ==> json::field(
                JsonView::Object(fields),
                key,
            ) == Some(fields[i].1),
        json::field(JsonView::Object(fields), key) is None <==> forall|k: int|
            0 <= k < fields.len() ==> (#[trigger] fields[k]).0 != key,
    decreases fields.len(),
{
    if fields.len() > 0 {
        let front = fields.drop_last();
        let last = fields.len() - 1;
        law_last_field_counts(front, key);
        assert(fields[last] == fields.last());
        assert forall|i: int|
            0 <= i < fields.len() && (#[trigger] fields[i]).0 == key && (forall|k: int|
                i < k < fields.len() ==> (#[trigger] fields[k]).0 != key) implies json::field(
            JsonView::Object(fields),
            key,
        ) == Some(fields[i].1) by {
            if i < last {
                assert(fields[last].0 != key);
                assert(front[i] == fields[i]);
                assert forall|k: int| i < k < front.len() implies (#[trigger] front[k]).0
                    != key by {
                    assert(fields[k].0 != key);
                }
            }
        }
        if forall|k: int| 0 <= k < fields.len() ==> (#[trigger] fields[k]).0 != key {
            assert forall|k: int| 0 <= k < front.len() implies (#[trigger] front[k]).0 != key by {
                assert(fields[k].0 != key);
            }
        }
        if json::field(JsonView::Object(fields), key) is None {
            assert forall|k: int| 0 <= k < fields.len() implies (#[trigger] fields[k]).0
                != key by {
                if k < last {
                    assert(front[k] == fields[k]);
                }
            }
        }
    }
}

/// What is known of the position is what the line says of it, key by key: who moves under
/// `currentPlayer`, the visits under `visits`, Black's chance under `winrate`, Black's lead under
/// `scoreLead` and its spread under `scoreStdev`. Nothing is known where it does not say who moves.
pub proof fn law_position_key_by_key(j: JsonView)
    requires
        j is Object,
        report::root_read(j) is Some,
    ensures
        ({
            let known = report::root_known(report::root_read(j));
            let player = text_at(j, "currentPlayer"@);
            &&& known is Some <==> player == Some("B"@) || player == Some("b"@) || player == Some(
                "W"@,
            ) || player == Some("w"@)
            &&& known matches Some(x) ==> {
                &&& x.current_player == Stone::Black <==> player == Some("B"@) || player == Some(
                    "b"@,
                )
                &&& x.visits == whole_at(j, "visits"@, 0)
                &&& x.winrate == number_at(j, "winrate"@, "0.5"@)
                &&& x.score_lead == number_at(j, "scoreLead"@, "0.0"@)
                &&& x.score_stdev == number_at(j, "scoreStdev"@, "0.0"@)
            }
        }),
{
    reveal_strlit("B");
    reveal_strlit("b");
    reveal_strlit("W");
    reveal_strlit("w");
    assert("B"@[0] == 'B' && "b"@[0] == 'b' && "W"@[0] == 'W' && "w"@[0] == 'w');
}

/// What is known of a move is what the line says of it, key by key.
pub proof fn law_move_key_by_key(j: JsonView)
    requires
        j is Object,
        report::info_read(j) is Some,
    ensures
        ({
            let x = report::info_known(report::info_read(j)->0);
            let pv = items_at(j, "pv"@);
            &&& x.mv == text_at(j, "move"@)
            &&& x.pv.len() == pv.len()
            &&& forall|k: int|
                0 <= k < pv.len() ==> json::read(pv[k]) == Some(JsonView::Text(#[trigger] x.pv[k]))
            &&& x.winrate == number_at(j, "winrate"@, "0.5"@)
            &&& x.score_lead == number_at(j, "scoreLead"@, "0.0"@)
            &&& x.visits == whole_at(j, "visits"@, 0)
            &&& x.prior == number_at(j, "prior"@, "0.0"@)
            &&& x.order == whole_at(j, "order"@, u32::MAX as nat)
            &&& x.lcb == number_at(j, "lcb"@, "0.0"@)
            &&& x.ownership == list_at(j, "ownership"@)
        }),
{
    lemma_strings_read(items_at(j, "pv"@));
    lemma_narrower(j, "order"@);
}

/// A number that fits 32 bits is the same number read for 64.
proof fn lemma_narrower(j: JsonView, key: Seq<char>)
    ensures
        json::field(j, key) matches Some(raw) ==> (json::read(raw) matches Some(
            JsonView::Number(s),
        ) ==> (text::parsed_unsigned(s, u32::MAX as nat) matches Some(n) ==> text::parsed_unsigned(
            s,
            u64::MAX as nat,
        ) == Some(n))),
{
}

proof fn lemma_strings_read(items: Seq<Seq<char>>)
    ensures
        record::all_strings(items) matches Some(s) ==> s.len() == items.len() && forall|k: int|
            0 <= k < items.len() ==> json::read(items[k]) == Some(
                JsonView::Text(#[trigger] s[k]),
            ),
    decreases items.len(),
{
    if items.len() > 0 {
        lemma_strings_read(items.drop_last());
        if let Some(s) = record::all_strings(items) {
            assert forall|k: int| 0 <= k < items.len() implies json::read(items[k]) == Some(
                JsonView::Text(#[trigger] s[k]),
            ) by {
                let done = record::all_strings(items.drop_last())->0;
                if k < done.len() {
                    assert(s[k] == done[k]);
                    assert(items.drop_last()[k] == items[k]);
                }
            }
        }
    }
}

/// Whether a text reads as a move of which a line says `x`.
spec fn info_is(raw: Seq<char>, x: report::WireInfoView) -> bool {
    json::read(raw) is Some && report::info_read(json::read(raw)->0) == Some(x)
}

proof fn lemma_infos_read(items: Seq<Seq<char>>)
    requires
        report::all_infos(items) is Some,
    ensures
        report::all_infos(items)->0.len() == items.len(),
        forall|k: int|
            0 <= k < items.len() ==> info_is(
                items[k],
                #[trigger] report::all_infos(items)->0[k],
            ),
    decreases items.len(),
{
    if items.len() > 0 {
        let front = items.drop_last();
        let done = report::all_infos(front)->0;
        let x = report::info_read(json::read(items.last())->0)->0;
        lemma_infos_read(front);
        let s = report::all_infos(items)->0;
        assert(s == done.push(x));
        assert forall|k: int| 0 <= k < items.len() implies info_is(items[k], #[trigger] s[k]) by {
            if k < done.len() {
                assert(s[k] == done[k]);
                assert(front[k] == items[k]);
            }
        }
    }
}

/// Whether `x` is what is known of the move that a text describes.
pub open spec fn said_of_move(raw: Seq<char>, x: report::RawInfoView) -> bool {
    &&& json::read(raw) is Some
    &&& report::info_read(json::read(raw)->0) is Some
    &&& x == report::info_known(report::info_read(json::read(raw)->0)->0)
}

/// A report is what its line says, key by key: the moves of `moveInfos` in their order and the
/// position of `rootInfo` among them.
pub proof fn law_report_key_by_key(j: JsonView)
    requires
        j is Object,
        report::wire_read(j) is Some,
        report::incoming(report::wire_read(j)->0) is Report,
    ensures
        ({
            let x = report::incoming(report::wire_read(j)->0)->report;
            let turn = whole_at(j, "turnNumber"@, usize::MAX as nat);
            let items = items_at(j, "moveInfos"@);
            &&& x.turn_number == if turn <= usize::MAX {
                turn
            } else {
                usize::MAX as nat
            }
            &&& x.is_during_search == true_at(j, "isDuringSearch"@)
            &&& x.no_results == true_at(j, "noResults"@)
            &&& x.ownership == list_at(j, "ownership"@)
            &&& x.policy == list_at(j, "policy"@)
            &&& x.move_infos.len() == items.len()
            &&& forall|k: int|
                0 <= k < items.len() ==> said_of_move(items[k], #[trigger] x.move_infos[k])
            &&& x.root_info == match json::field(j, "rootInfo"@) {
                Some(raw) => if json::read(raw) == Some(JsonView::Null) {
                    None
                } else {
                    report::root_known(report::root_read(json::read(raw)->0))
                },
                None => None,
            }
        }),
{
    let items = items_at(j, "moveInfos"@);
    let w = report::wire_read(j)->0;
    let x = report::incoming(w)->report;
    assert(x == report::report_known(w));
    assert(w.move_infos == report::infos_part(j)->0);
    assert(w.root_info == report::root_part(j)->0);
    assert(report::infos_part(j) is Some && report::root_part(j) is Some);
    if let Some(v) = w.move_infos {
        assert(report::all_infos(items) == Some(v));
        lemma_infos_read(items);
        assert(x.move_infos.len() == items.len());
        assert forall|k: int| 0 <= k < items.len() implies said_of_move(
            items[k],
            #[trigger] x.move_infos[k],
        ) by {
            assert(info_is(items[k], v[k]));
        }
    } else {
        assert(items.len() == 0);
    }
}

/// A line with an error is that error; one without it and with an action is the answer to a question
/// for the version, or else the echo of an end; one with neither and a warning is that warning; any
/// other is a report. Each carries the id of the request.
pub proof fn law_kind_of_a_line(j: JsonView)
    requires
        j is Object,
        report::wire_read(j) is Some,
    ensures
        ({
            let r = report::incoming(report::wire_read(j)->0);
            let id = report::id_read(text_at(j, "id"@));
            let (error, action, warning) = (
                text_at(j, "error"@),
                text_at(j, "action"@),
                text_at(j, "warning"@),
            );
            let field = text_at(j, "field"@);
            &&& error matches Some(message) ==> r == (IncomingView::Error { id, message, field })
            &&& error is None && action == Some("query_version"@) ==> r == (IncomingView::Version {
                id,
                version: match text_at(j, "version"@) {
                    Some(v) => v,
                    None => Seq::empty(),
                },
            })
            &&& error is None && action is Some && action != Some("query_version"@) ==> r == (
            IncomingView::TerminateEcho { id, terminate_id: text_at(j, "terminateId"@) })
            &&& error is None && action is None ==> (warning matches Some(message) ==> r == (
            IncomingView::Warning { id, field, message }))
            &&& error is None && action is None && warning is None ==> r is Report
                && r->Report_id == id
        }),
{
}

/// The id of a line is the number that it writes, where it writes one that fits.
pub proof fn law_id_is_the_number(s: Seq<char>)
    ensures
        report::id_read(None) is None,
        report::id_read(Some(s)) is Some <==> text::parsed_unsigned(s, u64::MAX as nat) is Some,
        report::id_read(Some(s)) matches Some(q) ==> q.number() == text::parsed_unsigned(
            s,
            u64::MAX as nat,
        )->0,
{
    if let Some(n) = text::parsed_unsigned(s, u64::MAX as nat) {
        QueryId::lemma_of(n as u64);
    }
}

/// A report for a board is the same report with the moves found on the board: a move by its
/// coordinate, and none where the text is no coordinate of the board.
pub proof fn law_points_are_found(size: Size, x: RawView, k: int)
    requires
        0 <= k < x.move_infos.len(),
    ensures
        ({
            let r = report::report_on(size, x);
            let (m, w) = (x.move_infos[k], r.move_infos[k]);
            &&& r.turn_number == x.turn_number
            &&& r.is_during_search == x.is_during_search
            &&& r.no_results == x.no_results
            &&& r.root_info == x.root_info
            &&& r.ownership == x.ownership
            &&& r.policy == x.policy
            &&& r.move_infos.len() == x.move_infos.len()
            &&& w.winrate == m.winrate
            &&& w.score_lead == m.score_lead
            &&& w.visits == m.visits
            &&& w.prior == m.prior
            &&& w.order == m.order
            &&& w.lcb == m.lcb
            &&& w.ownership == m.ownership
            &&& w.mv is Some <==> m.mv is Some && coord::parsed_gtp(size, m.mv->0) is Ok
            &&& w.mv matches Some(c) ==> coord::parsed_gtp(size, m.mv->0) == Ok::<
                Coord,
                CoordError,
            >(c)
            &&& w.pv.len() == m.pv.len()
            &&& forall|i: int|
                0 <= i < m.pv.len() ==> match #[trigger] w.pv[i] {
                    Some(c) => coord::parsed_gtp(size, m.pv[i]) == Ok::<Coord, CoordError>(c),
                    None => coord::parsed_gtp(size, m.pv[i]) is Err,
                }
        }),
{
    assert(report::report_on(size, x).move_infos[k] == report::info_on(size, x.move_infos[k]));
}

/// The models of what is known of a position and of a move show each field as it is.
pub proof fn law_models_show_the_fields(
    root: report::RootInfo,
    raw: report::RawMoveInfo,
    info: report::MoveInfo,
)
    ensures
        root@.current_player == root.current_player,
        root@.visits == root.visits,
        root@.winrate == root.winrate@,
        root@.score_lead == root.score_lead@,
        root@.score_stdev == root.score_stdev@,
        raw@.mv == record::opt_text(raw.mv),
        raw@.pv == json::texts(raw.pv@),
        raw@.winrate == raw.winrate@,
        raw@.score_lead == raw.score_lead@,
        raw@.visits == raw.visits,
        raw@.prior == raw.prior@,
        raw@.order == raw.order,
        raw@.lcb == raw.lcb@,
        raw@.ownership == record::opt_text(raw.ownership),
        info@.mv == info.mv,
        info@.pv == info.pv@,
        info@.winrate == info.winrate@,
        info@.score_lead == info.score_lead@,
        info@.visits == info.visits,
        info@.prior == info.prior@,
        info@.order == info.order,
        info@.lcb == info.lcb@,
        info@.ownership == record::opt_text(info.ownership),
{
}

/// The models of reports show each field as it is, the moves in their order.
pub proof fn law_report_models_show_the_fields(
    x: report::RawReport,
    r: report::AnalysisReport,
    k: int,
)
    ensures
        x@.turn_number == x.turn_number,
        x@.is_during_search == x.is_during_search,
        x@.no_results == x.no_results,
        x@.root_info is Some <==> x.root_info is Some,
        x.root_info matches Some(v) ==> x@.root_info == Some(v@),
        x@.move_infos.len() == x.move_infos@.len(),
        0 <= k < x.move_infos@.len() ==> x@.move_infos[k] == x.move_infos@[k]@,
        x@.ownership == record::opt_text(x.ownership),
        x@.policy == record::opt_text(x.policy),
        r@.turn_number == r.turn_number,
        r@.is_during_search == r.is_during_search,
        r@.no_results == r.no_results,
        r@.root_info is Some <==> r.root_info is Some,
        r.root_info matches Some(v) ==> r@.root_info == Some(v@),
        r@.move_infos.len() == r.move_infos@.len(),
        0 <= k < r.move_infos@.len() ==> r@.move_infos[k] == r.move_infos@[k]@,
        r@.ownership == record::opt_text(r.ownership),
        r@.policy == record::opt_text(r.policy),
{
}

// ---- the settings ----

/// A value costs its own field at most: where two files differ in one field only, all other
/// settings are the same.
pub proof fn law_bad_value_costs_its_field(
    a: JsonView,
    b: JsonView,
    key: Seq<char>,
    d: ConfigView,
    quoted: spec_fn(Seq<char>) -> Seq<char>,
)
    requires
        a is Object,
        b is Object,
        forall|k: Seq<char>| k != key ==> #[trigger] json::field(a, k) == json::field(b, k),
    ensures
        ({
            let x = settings::config_read(a, d, quoted).0;
            let y = settings::config_read(b, d, quoted).0;
            &&& key != "engine_path"@ ==> x.engine_path == y.engine_path
            &&& key != "model_path"@ ==> x.model_path == y.model_path
            &&& key != "weights_dir"@ ==> x.weights_dir == y.weights_dir
            &&& key != "visits"@ ==> x.visits == y.visits
            &&& key != "search_threads"@ ==> x.search_threads == y.search_threads
            &&& key != "analysis_cfg"@ ==> x.analysis_cfg == y.analysis_cfg
            &&& key != "play_difficulty"@ ==> x.play_difficulty == y.play_difficulty
            &&& key != "rules"@ ==> x.rules == y.rules
            &&& key != "time_system"@ ==> x.time_system == y.time_system
            &&& key != "new_game_rules"@ ==> x.new_game_rules == y.new_game_rules
            &&& key != "ui_prefs"@ ==> x.ui_prefs == y.ui_prefs
        }),
{
    assert(key != "engine_path"@ ==> json::field(a, "engine_path"@) == json::field(b, "engine_path"@));
    assert(key != "model_path"@ ==> json::field(a, "model_path"@) == json::field(b, "model_path"@));
    assert(key != "weights_dir"@ ==> json::field(a, "weights_dir"@) == json::field(b, "weights_dir"@));
    assert(key != "visits"@ ==> json::field(a, "visits"@) == json::field(b, "visits"@));
    assert(key != "search_threads"@ ==> json::field(a, "search_threads"@) == json::field(b, "search_threads"@));
    assert(key != "analysis_cfg"@ ==> json::field(a, "analysis_cfg"@) == json::field(b, "analysis_cfg"@));
    assert(key != "play_difficulty"@ ==> json::field(a, "play_difficulty"@) == json::field(b, "play_difficulty"@));
    assert(key != "rules"@ ==> json::field(a, "rules"@) == json::field(b, "rules"@));
    assert(key != "time_system"@ ==> json::field(a, "time_system"@) == json::field(b, "time_system"@));
    assert(key != "new_game_rules"@ ==> json::field(a, "new_game_rules"@) == json::field(b, "new_game_rules"@));
    assert(key != "ui_prefs"@ ==> json::field(a, "ui_prefs"@) == json::field(b, "ui_prefs"@));
}

/// Whatever a file says, an analysis has at least one visit and one thread.
pub proof fn law_settings_positive(
    j: JsonView,
    d: ConfigView,
    quoted: spec_fn(Seq<char>) -> Seq<char>,
)
    requires
        d.visits > 0,
        d.search_threads > 0,
    ensures
        settings::config_read(j, d, quoted).0.visits > 0,
        settings::config_read(j, d, quoted).0.search_threads > 0,
{
}

/// What the user interface remembers is left with choices that make sense.
pub proof fn law_prefs_make_sense(p: PrefsView, quoted: spec_fn(Seq<char>) -> Seq<char>)
    ensures
        settings::prefs_settled(p, quoted).0.gating() is Some,
        settings::prefs_settled(p, quoted).0.display() is Some,
        settings::prefs_settled(p, quoted).0.side() is Some,
{
}

// ---- queries ----

/// A query stops waiting only for its own last report or for the engine's refusal of it. A warning
/// never ends it.
pub proof fn law_only_own_answer_ends_query(e: EngineView, m: IncomingView, n: u64)
    requires
        e.pending.contains_key(n),
        !session::handled(e, m).0.contains_key(n),
    ensures
        match m {
            IncomingView::Report { id, report } => id is Some && id->0.number() == n
                && !report.is_during_search,
            IncomingView::Error { id, .. } => id is Some && id->0.number() == n,
            _ => false,
        },
{
}

/// Queries that wait are not touched by the answers to others.
pub proof fn law_other_queries_stay(e: EngineView, m: IncomingView, n: u64)
    requires
        session::handled(e, m).0.contains_key(n),
    ensures
        e.pending.contains_key(n),
        session::handled(e, m).0[n] == e.pending[n],
{
}

/// Of what the engine says only a refusal is a failure; a warning is told as one.
pub proof fn law_warning_is_no_failure(e: EngineView, m: IncomingView)
    ensures
        session::handled(e, m).1 is Failed == m is Error,
        session::handled(e, m).1 is Warning == m is Warning,
{
}

// ---- the settings, key by key ----

/// The truth value under a key of an object, or another where there is none.
pub open spec fn bool_at(j: JsonView, key: Seq<char>, d: bool) -> bool {
    match json::field(j, key) {
        Some(raw) => json::read(raw) == Some(JsonView::Bool(true)),
        None => d,
    }
}

/// The text under a key of an object, or another where there is none.
pub open spec fn text_or_at(j: JsonView, key: Seq<char>, d: Seq<char>) -> Seq<char> {
    match text_at(j, key) {
        Some(s) => s,
        None => d,
    }
}

/// The number of 32 bits under a key of an object, where there is one.
pub open spec fn small_at(j: JsonView, key: Seq<char>) -> Option<nat> {
    match json::field(j, key) {
        Some(raw) => match json::read(raw) {
            Some(JsonView::Number(s)) => text::parsed_unsigned(s, u32::MAX as nat),
            _ => None,
        },
        None => None,
    }
}

/// Whether nothing or a null stands under a key of an object.
pub open spec fn unset_at(j: JsonView, key: Seq<char>) -> bool {
    match json::field(j, key) {
        Some(raw) => json::read(raw) == Some(JsonView::Null),
        None => true,
    }
}

/// An optional text of the settings: the one under its key; what there was without one and for a
/// null; none for anything else.
pub open spec fn choice_at(j: JsonView, key: Seq<char>, d: Option<Seq<char>>) -> Option<Seq<char>> {
    if unset_at(j, key) {
        d
    } else {
        text_at(j, key)
    }
}

/// A number of the settings: the one under its key, at least one; what there was without one; a
/// fixed one for anything else.
pub open spec fn count_at(j: JsonView, key: Seq<char>, d: u32, fixed: nat) -> nat {
    let n = if json::field(j, key) is None {
        d as nat
    } else {
        match small_at(j, key) {
            Some(n) => n,
            None => fixed,
        }
    };
    if n == 0 {
        1
    } else {
        n
    }
}

/// The settings stand under keys of their own.
pub proof fn law_settings_key_by_key(
    j: JsonView,
    d: ConfigView,
    quoted: spec_fn(Seq<char>) -> Seq<char>,
)
    requires
        j is Object,
    ensures
        ({
            let x = settings::config_read(j, d, quoted).0;
            &&& x.engine_path == text_or_at(j, "engine_path"@, d.engine_path)
            &&& x.model_path == choice_at(j, "model_path"@, d.model_path)
            &&& x.weights_dir == text_or_at(j, "weights_dir"@, d.weights_dir)
            &&& x.visits == count_at(j, "visits"@, d.visits, 300)
            &&& x.search_threads == count_at(j, "search_threads"@, d.search_threads, 4)
            &&& x.analysis_cfg == choice_at(j, "analysis_cfg"@, d.analysis_cfg)
            &&& x.rules == choice_at(j, "rules"@, d.rules)
            &&& json::field(j, "play_difficulty"@) is None ==> x.play_difficulty
                == d.play_difficulty
            &&& text_at(j, "play_difficulty"@) == Some("Beginner"@) ==> x.play_difficulty
                == Difficulty::Beginner
            &&& text_at(j, "play_difficulty"@) == Some("Easy"@) ==> x.play_difficulty
                == Difficulty::Easy
            &&& text_at(j, "play_difficulty"@) == Some("Medium"@) ==> x.play_difficulty
                == Difficulty::Medium
            &&& text_at(j, "play_difficulty"@) == Some("Strong"@) ==> x.play_difficulty
                == Difficulty::Strong
            &&& text_at(j, "play_difficulty"@) == Some("Max"@) ==> x.play_difficulty
                == Difficulty::Max
            &&& json::field(j, "new_game_rules"@) is None ==> x.new_game_rules == d.new_game_rules
            &&& text_at(j, "new_game_rules"@) == Some("chinese"@) ==> x.new_game_rules
                == Rules::Chinese
            &&& text_at(j, "new_game_rules"@) == Some("japanese"@) ==> x.new_game_rules
                == Rules::Japanese
            &&& text_at(j, "new_game_rules"@) == Some("korean"@) ==> x.new_game_rules
                == Rules::Korean
            &&& text_at(j, "new_game_rules"@) == Some("aga"@) ==> x.new_game_rules == Rules::Aga
            &&& text_at(j, "new_game_rules"@) == Some("newzealand"@) ==> x.new_game_rules
                == Rules::NewZealand
            &&& text_at(j, "new_game_rules"@) == Some("tromptaylor"@) ==> x.new_game_rules
                == Rules::TrompTaylor
            &&& json::field(j, "time_system"@) is None ==> x.time_system == d.time_system
            &&& text_at(j, "time_system"@) == Some("Unlimited"@) ==> x.time_system
                == TimeSystem::Unlimited
        }),
{
    reveal_strlit("Beginner");
    reveal_strlit("Easy");
    reveal_strlit("Medium");
    reveal_strlit("Strong");
    reveal_strlit("Max");
    assert("Beginner"@[0] == 'B' && "Easy"@[0] == 'E' && "Medium"@.len() == 6 && "Strong"@[0] == 'S'
        && "Max"@.len() == 3 && "Medium"@[0] == 'M' && "Max"@[0] == 'M');
    reveal_strlit("chinese");
    reveal_strlit("japanese");
    reveal_strlit("korean");
    reveal_strlit("aga");
    reveal_strlit("newzealand");
    reveal_strlit("tromptaylor");
    assert("chinese"@[0] == 'c' && "japanese"@[0] == 'j' && "korean"@[0] == 'k' && "aga"@[0] == 'a'
        && "newzealand"@[0] == 'n' && "tromptaylor"@[0] == 't');
}

/// A time limit stands in the settings under its name, each of its parts under a key of its own.
pub proof fn law_time_limit_key_by_key(j: JsonView)
    requires
        j is Object,
    ensures
        settings::limit_read("Absolute"@, j) matches Some(t) ==> (t matches TimeSystem::Absolute {
            seconds,
        } && settings::seconds_in(number_at(j, "seconds"@, Seq::empty())) == Some(seconds)),
        settings::limit_read("Byoyomi"@, j) matches Some(t) ==> (t matches TimeSystem::Byoyomi {
            main_seconds,
            period_seconds,
            periods,
        } && settings::seconds_in(number_at(j, "main_seconds"@, Seq::empty())) == Some(main_seconds)
            && settings::seconds_in(number_at(j, "period_seconds"@, Seq::empty())) == Some(
            period_seconds,
        ) && small_at(j, "periods"@) == Some(periods as nat)),
{
    reveal_strlit("Absolute");
    reveal_strlit("Byoyomi");
    assert("Absolute"@[0] == 'A' && "Byoyomi"@[0] == 'B');
}

/// What the user interface remembers stands under keys of its own.
pub proof fn law_prefs_key_by_key(j: JsonView)
    requires
        j is Object,
        settings::prefs_read(j) is Some,
    ensures
        ({
            let p = settings::prefs_read(j)->0;
            &&& p.show_candidates == bool_at(j, "show_candidates"@, true)
            &&& p.show_heat == bool_at(j, "show_heat"@, true)
            &&& p.show_policy == bool_at(j, "show_policy"@, false)
            &&& p.show_moves_heat == bool_at(j, "show_moves_heat"@, false)
            &&& p.show_mistakes == bool_at(j, "show_mistakes"@, true)
            &&& p.show_score_lead == bool_at(j, "show_score_lead"@, true)
            &&& p.show_mini_board == bool_at(j, "show_mini_board"@, false)
            &&& p.curve_open == bool_at(j, "curve_open"@, true)
            &&& p.tree_open == bool_at(j, "tree_open"@, false)
            &&& p.batch_variations == bool_at(j, "batch_variations"@, false)
            &&& p.batch_deepen == bool_at(j, "batch_deepen"@, true)
            &&& p.candidate_gating == text_or_at(j, "candidate_gating"@, "immediate"@)
            &&& p.display_view == text_or_at(j, "display_view"@, "black"@)
            &&& p.batch_side == text_or_at(j, "batch_side"@, "all"@)
            &&& p.gating_delay_secs == whole_at(j, "gating_delay_secs"@, 3)
            &&& p.batch_visits == whole_at(j, "batch_visits"@, 40)
            &&& p.batch_deepen_top == whole_at(j, "batch_deepen_top"@, 10)
            &&& p.batch_deepen_visits == whole_at(j, "batch_deepen_visits"@, 300)
            &&& p.last_open_dir == text_at(j, "last_open_dir"@)
            &&& p.last_save_dir == text_at(j, "last_save_dir"@)
        }),
{
    lemma_narrower(j, "gating_delay_secs"@);
    lemma_narrower(j, "batch_visits"@);
    lemma_narrower(j, "batch_deepen_top"@);
    lemma_narrower(j, "batch_deepen_visits"@);
    lemma_narrow_size(j, "batch_deepen_top"@);
}

proof fn lemma_narrow_size(j: JsonView, key: Seq<char>)
    ensures
        json::field(j, key) matches Some(raw) ==> (json::read(raw) matches Some(
            JsonView::Number(s),
        ) ==> (text::parsed_unsigned(s, usize::MAX as nat) matches Some(n)
            ==> text::parsed_unsigned(s, u64::MAX as nat) == Some(n))),
{
}

/// The models of the settings show each field as it is.
pub proof fn law_settings_models(c: settings::EngineConfig, p: settings::UiPrefs)
    ensures
        c@.engine_path == c.engine_path@,
        c@.model_path == record::opt_text(c.model_path),
        c@.weights_dir == c.weights_dir@,
        c@.visits == c.visits,
        c@.search_threads == c.search_threads,
        c@.analysis_cfg == record::opt_text(c.analysis_cfg),
        c@.play_difficulty == c.play_difficulty,
        c@.rules == record::opt_text(c.rules),
        c@.time_system == c.time_system,
        c@.new_game_rules == c.new_game_rules,
        c@.ui_prefs == c.ui_prefs@,
        p@.show_candidates == p.show_candidates,
        p@.show_heat == p.show_heat,
        p@.show_policy == p.show_policy,
        p@.show_moves_heat == p.show_moves_heat,
        p@.show_mistakes == p.show_mistakes,
        p@.show_score_lead == p.show_score_lead,
        p@.show_mini_board == p.show_mini_board,
        p@.curve_open == p.curve_open,
        p@.tree_open == p.tree_open,
        p@.batch_variations == p.batch_variations,
        p@.batch_deepen == p.batch_deepen,
        p@.gating_delay_secs == p.gating_delay_secs,
        p@.batch_visits == p.batch_visits,
        p@.batch_deepen_top == p.batch_deepen_top,
        p@.batch_deepen_visits == p.batch_deepen_visits,
        p@.candidate_gating == p.candidate_gating@,
        p@.display_view == p.display_view@,
        p@.batch_side == p.batch_side@,
        p@.last_open_dir == record::opt_text(p.last_open_dir),
        p@.last_save_dir == record::opt_text(p.last_save_dir),
{
}

// ---- strength and rules ----

/// A stronger engine is given more visits: 30, 100, 300, 800 and 2000.
pub proof fn law_difficulty_visits(d: Difficulty)
    ensures
        d.visits_spec() == match d {
            Difficulty::Beginner => 30u32,
            Difficulty::Easy => 100u32,
            Difficulty::Medium => 300u32,
            Difficulty::Strong => 800u32,
            Difficulty::Max => 2000u32,
        },
{
}

/// Each set of rules has the name by which the engine knows it.
pub proof fn law_rules_names(r: Rules)
    ensures
        r.wire_spec() == match r {
            Rules::Chinese => "chinese"@,
            Rules::Japanese => "japanese"@,
            Rules::Korean => "korean"@,
            Rules::Aga => "aga"@,
            Rules::NewZealand => "new-zealand"@,
            Rules::TrompTaylor => "tromp-taylor"@,
        },
        Rules::DEFAULT@ == "chinese"@,
{
}

/// Squeezing a name leaves out exactly its hyphens, underscores and spaces.
pub proof fn law_squeezed(s: Seq<char>)
    ensures
        config::squeezed(s) == s.filter(|c: char| c != '-' && c != '_' && c != ' '),
    decreases s.len(),
{
    let keep = |c: char| c != '-' && c != '_' && c != ' ';
    reveal(Seq::filter);
    if s.len() > 0 {
        law_squeezed(s.drop_last());
    }
    assert(config::squeezed(s) =~= s.filter(keep));
}

/// A name means rules only where, in small letters and without hyphens, underscores and spaces, it
/// is the name of those rules.
pub proof fn law_rules_by_name(s: Seq<char>)
    ensures
        config::rules_of(s) matches Some(r) ==> config::squeezed(
            text::lower_text(text::trimmed(s)),
        ) == config::squeezed(r.wire_spec()),
{
    reveal_strlit("chinese");
    reveal_strlit("japanese");
    reveal_strlit("korean");
    reveal_strlit("aga");
    reveal_strlit("new-zealand");
    reveal_strlit("newzealand");
    reveal_strlit("tromp-taylor");
    reveal_strlit("tromptaylor");
    reveal_with_fuel(config::squeezed, 13);
    assert(config::squeezed("chinese"@) =~= "chinese"@);
    assert(config::squeezed("japanese"@) =~= "japanese"@);
    assert(config::squeezed("korean"@) =~= "korean"@);
    assert(config::squeezed("aga"@) =~= "aga"@);
    assert(config::squeezed("new-zealand"@) =~= "newzealand"@);
    assert(config::squeezed("tromp-taylor"@) =~= "tromptaylor"@);
}

/// The rules of the setting come first, those that the record speaks of second, and the default
/// last; a notice is given exactly where the record's rules are asked for and not known.
pub proof fn law_rules_order(
    cfg: Option<Seq<char>>,
    sgf: Option<Seq<char>>,
    found: Option<Rules>,
)
    ensures
        ({
            let r = config::resolved(cfg, sgf, found);
            let set = if cfg is Some && text::trimmed(cfg->0).len() > 0 {
                config::rules_of(text::trimmed(cfg->0))
            } else {
                None
            };
            let asked = sgf is Some && text::trimmed(sgf->0).len() > 0;
            &&& set matches Some(x) ==> r.rules == x.wire_spec() && r.notice is None
            &&& set is None && asked && found is Some ==> r.rules == found->0.wire_spec()
                && r.notice is None
            &&& set is None && asked && found is None ==> r.rules == "chinese"@ && r.notice is Some
            &&& set is None && !asked ==> r.rules == "chinese"@ && r.notice is None
        }),
{
}

/// What a record speaks of is found by the countries and short names in it, Japan before Korea,
/// Korea before China.
pub proof fn law_spoken_rules(s: Seq<char>)
    ensures
        ({
            let japan = text::holds(s, "japan"@) || text::holds(s, "日本"@) || text::holds(s, "jpn"@)
                || text::holds(s, "日韩"@);
            let korea = text::holds(s, "korea"@) || text::holds(s, "韩国"@) || text::holds(s, "kor"@);
            let china = text::holds(s, "china"@) || text::holds(s, "中国"@) || text::holds(
                s,
                "数子"@,
            ) || text::holds(s, "chn"@);
            let aga = text::holds(s, "aga"@);
            let zealand = text::holds(s, "new zealand"@) || text::holds(s, "new-zealand"@)
                || text::holds(s, "新西兰"@) || text::holds(s, "newzealand"@);
            let tromp = text::holds(s, "tromp"@) || text::holds(s, "tt"@);
            let r = config::spoken_rules(s);
            &&& japan ==> r == Some(Rules::Japanese)
            &&& !japan && korea ==> r == Some(Rules::Korean)
            &&& !japan && !korea && china ==> r == Some(Rules::Chinese)
            &&& !japan && !korea && !china && aga ==> r == Some(Rules::Aga)
            &&& !japan && !korea && !china && !aga && zealand ==> r == Some(Rules::NewZealand)
            &&& !japan && !korea && !china && !aga && !zealand && tromp ==> r == Some(
                Rules::TrompTaylor,
            )
            &&& !japan && !korea && !china && !aga && !zealand && !tromp ==> r == config::rules_of(s)
        }),
{
}

// ---- requests ----

/// Whether a text holds a part that a comma or a closing bracket ends.
pub open spec fn says(line: Seq<char>, part: Seq<char>) -> bool {
    exists|i: int|
        #![trigger line.subrange(i, i + part.len())]
        0 <= i && i + part.len() < line.len() && line.subrange(i, i + part.len()) == part && (
        line[i + part.len()] == ',' || line[i + part.len()] == '}')
}

proof fn lemma_says(a: Seq<char>, part: Seq<char>, b: Seq<char>)
    requires
        b.len() > 0,
        b[0] == ',' || b[0] == '}',
    ensures
        says(a + part + b, part),
{
    let line = a + part + b;
    let i = a.len() as int;
    assert(line.subrange(i, i + part.len()) =~= part);
    assert(line[i + part.len()] == b[0]);
}

spec fn starts_well(s: Seq<char>) -> bool {
    s.len() > 0 && (s[0] == ',' || s[0] == '}')
}

proof fn lemma_start(a: Seq<char>, b: Seq<char>)
    requires
        a.len() > 0 ==> a[0] == ',',
        starts_well(b),
    ensures
        starts_well(a + b),
{
    if a.len() > 0 {
        assert((a + b)[0] == a[0]);
    } else {
        assert(a + b =~= b);
    }
}

/// In a row of parts that begin with commas each part is ended by the next one or by the end.
proof fn lemma_row(
    h: Seq<char>,
    v: Seq<char>,
    o: Seq<char>,
    y: Seq<char>,
    w: Seq<char>,
    e: Seq<char>,
    t: Seq<char>,
    p: Seq<char>,
    m: Seq<char>,
    end: Seq<char>,
)
    requires
        v.len() > 0 ==> v[0] == ',',
        o.len() > 0 ==> o[0] == ',',
        y.len() > 0 ==> y[0] == ',',
        w.len() > 0 ==> w[0] == ',',
        e.len() > 0 ==> e[0] == ',',
        t.len() > 0 ==> t[0] == ',',
        p.len() > 0 ==> p[0] == ',',
        m.len() > 0 ==> m[0] == ',',
        starts_well(end),
    ensures
        ({
            let line = h + (v + o + y + w) + (e + t + p) + m + end;
            &&& says(line, h)
            &&& says(line, v)
            &&& says(line, o)
            &&& says(line, y)
            &&& says(line, w)
            &&& says(line, e)
            &&& says(line, t)
            &&& says(line, p)
            &&& says(line, m)
        }),
{
    let r7 = m + end;
    let r6 = p + r7;
    let r5 = t + r6;
    let r4 = e + r5;
    let r3 = w + r4;
    let r2 = y + r3;
    let r1 = o + r2;
    let r0 = v + r1;
    lemma_start(m, end);
    lemma_start(p, r7);
    lemma_start(t, r6);
    lemma_start(e, r5);
    lemma_start(w, r4);
    lemma_start(y, r3);
    lemma_start(o, r2);
    lemma_start(v, r1);
    lemma_says_on(m, end);
    lemma_says_on(p, r7);
    lemma_says_on(t, r6);
    lemma_says_on(e, r5);
    lemma_says_on(w, r4);
    lemma_says_on(y, r3);
    lemma_says_on(o, r2);
    lemma_says_on(v, r1);
    lemma_says_on(h, r0);
    lemma_regroup(h, v, o, y, w, e, t, p, m, end);
}

proof fn lemma_regroup(
    h: Seq<char>,
    v: Seq<char>,
    o: Seq<char>,
    y: Seq<char>,
    w: Seq<char>,
    e: Seq<char>,
    t: Seq<char>,
    p: Seq<char>,
    m: Seq<char>,
    end: Seq<char>,
)
    ensures
        h + (v + o + y + w) + (e + t + p) + m + end == h + (v + (o + (y + (w + (e + (t + (p + (m
            + end)))))))),
{
    let r7 = m + end;
    let x = e + (t + (p + r7));
    assert(e + t + p + r7 =~= x);
    let z = v + (o + (y + (w + x)));
    assert(v + o + y + w + x =~= z);
    let a = v + o + y + w;
    let b = e + t + p;
    assert(h + a + b + m + end =~= h + (a + (b + r7)));
}

/// A part in front is said, and so is all that was said behind it.
proof fn lemma_says_on(part: Seq<char>, rest: Seq<char>)
    requires
        starts_well(rest),
    ensures
        says(part + rest, part),
        forall|q: Seq<char>| #[trigger] says(rest, q) ==> says(part + rest, q),
{
    let none = Seq::<char>::empty();
    lemma_says(none, part, rest);
    assert(none + part + rest =~= part + rest);
    assert forall|q: Seq<char>| #[trigger] says(rest, q) implies says(part + rest, q) by {
        let i = choose|i: int|
            #![trigger rest.subrange(i, i + q.len())]
            0 <= i && i + q.len() < rest.len() && rest.subrange(i, i + q.len()) == q && (rest[i
                + q.len()] == ',' || rest[i + q.len()] == '}');
        let line = part + rest;
        let k = part.len() + i;
        assert(line.subrange(k, k + q.len()) =~= rest.subrange(i, i + q.len()));
        assert(line[k + q.len()] == rest[i + q.len()]);
    }
}

/// What a part is that comes with a value, and what it is without one.
proof fn lemma_query_parts(q: protocol::QueryView, quoted: spec_fn(Seq<char>) -> Seq<char>)
    ensures
        ({
            let e = protocol::every_text(q.report_during_search_every);
            let t = protocol::turns_text(q.analyze_turns);
            let p = protocol::priority_text(q.priority);
            let m = protocol::query_moves(q, quoted);
            &&& e.len() > 0 ==> e[0] == ','
            &&& t.len() > 0 ==> t[0] == ','
            &&& p.len() > 0 ==> p[0] == ','
            &&& m.len() > 0 ==> m[0] == ','
        }),
{
    reveal_strlit(",\"allowMoves\":");
    reveal_strlit(",\"avoidMoves\":");
    reveal_strlit(",\"priority\":");
    reveal_strlit(",\"analyzeTurns\":[");
    reveal_strlit(",\"reportDuringSearchEvery\":");
}

/// A request says what was asked for, each thing under its own name: the id, the moves in their
/// order, the rules, the komi, the size, the visits, what the reports shall hold, how often they
/// come, the positions, the urgency and the moves that may or may not be looked at.
pub proof fn law_request_name_by_name(
    q: protocol::QueryView,
    id: u64,
    quoted: spec_fn(Seq<char>) -> Seq<char>,
)
    ensures
        ({
            let line = protocol::query_line(q, id, quoted);
            let n = q.moves.len() as int;
            &&& says(
                line,
                "{\"id\":\""@ + text::decimal(id as nat) + "\",\"moves\":["@ + protocol::moves_text(
                    q.moves,
                    q.board_size,
                    n,
                ) + "],\"rules\":"@ + quoted(q.rules) + ",\"komi\":"@ + number::in_json(q.komi)
                    + ",\"boardXSize\":"@ + text::decimal(q.board_size.side()) + ",\"boardYSize\":"@
                    + text::decimal(q.board_size.side()),
            )
            &&& q.max_visits matches Some(v) ==> says(
                line,
                ",\"maxVisits\":"@ + text::decimal(v as nat),
            )
            &&& q.include_ownership ==> says(line, ",\"includeOwnership\":true"@)
            &&& q.include_policy ==> says(line, ",\"includePolicy\":true"@)
            &&& q.include_moves_ownership ==> says(line, ",\"includeMovesOwnership\":true"@)
            &&& q.report_during_search_every matches Some(e) ==> says(
                line,
                ",\"reportDuringSearchEvery\":"@ + number::in_json(e),
            )
            &&& q.analyze_turns matches Some(v) ==> says(
                line,
                ",\"analyzeTurns\":["@ + protocol::numbers_text(v, v.len() as int) + "]"@,
            )
            &&& q.priority > 0 ==> says(line, ",\"priority\":"@ + text::decimal(q.priority as nat))
            &&& q.priority < 0 ==> says(
                line,
                ",\"priority\":"@ + ("-"@ + text::decimal((-q.priority) as nat)),
            )
            &&& q.allow matches Some(r) ==> says(
                line,
                ",\"allowMoves\":"@ + protocol::rule_text(r, quoted),
            )
            &&& q.allow is None ==> (q.avoid matches Some(r) ==> says(
                line,
                ",\"avoidMoves\":"@ + protocol::rule_text(r, quoted),
            ))
        }),
{
    reveal_strlit("}");
    reveal_strlit(",\"maxVisits\":");
    reveal_strlit(",\"includeOwnership\":true");
    reveal_strlit(",\"includePolicy\":true");
    reveal_strlit(",\"includeMovesOwnership\":true");
    lemma_query_parts(q, quoted);
    let v = match q.max_visits {
        Some(n) => ",\"maxVisits\":"@ + text::decimal(n as nat),
        None => Seq::empty(),
    };
    lemma_row(
        protocol::query_head(q, id, quoted),
        v,
        protocol::flag_text(",\"includeOwnership\":true"@, q.include_ownership),
        protocol::flag_text(",\"includePolicy\":true"@, q.include_policy),
        protocol::flag_text(",\"includeMovesOwnership\":true"@, q.include_moves_ownership),
        protocol::every_text(q.report_during_search_every),
        protocol::turns_text(q.analyze_turns),
        protocol::priority_text(q.priority),
        protocol::query_moves(q, quoted),
        "}"@,
    );
}

/// Moves are listed in their order, each with the letter of its side and its point as the engine
/// writes it, a pass as `pass`.
pub proof fn law_moves_one_by_one(moves: Seq<(Stone, Action)>, size: Size, n: int)
    requires
        n > 0,
    ensures
        protocol::moves_text(moves, size, 0).len() == 0,
        protocol::moves_text(moves, size, n) == protocol::moves_text(moves, size, n - 1) + (if n > 1 {
            ","@
        } else {
            Seq::empty()
        }) + "[\""@ + (if moves[n - 1].0 == Stone::Black {
            "B"@
        } else {
            "W"@
        }) + "\",\""@ + (match moves[n - 1].1 {
            Action::Place(c) => coord::gtp_text(c, size),
            Action::Pass => "pass"@,
        }) + "\"]"@,
{
}

/// A request to end names the request to end; the other requests name what they ask for.
pub proof fn law_control_lines(target: QueryId, id: u64)
    ensures
        protocol::ControlRequest::Terminate(target).line(id) == "{\"action\":\"terminate\",\"id\":\""@
            + text::decimal(id as nat) + "\",\"terminateId\":\""@ + text::decimal(
            target.number() as nat,
        ) + "\"}"@,
        protocol::ControlRequest::TerminateAll.line(id)
            == "{\"action\":\"terminate_all\",\"id\":\""@ + text::decimal(id as nat) + "\"}"@,
        protocol::ControlRequest::QueryVersion.line(id)
            == "{\"action\":\"query_version\",\"id\":\""@ + text::decimal(id as nat) + "\"}"@,
{
}

// ---- how long a query may take ----

/// A query gets a second for each 30 visits and 15 more, never less than 30 or more than 600
/// seconds, and a larger query no less than a smaller one; one without a limit gets 30.
pub proof fn law_time_for_a_query(v: u32, w: u32)
    ensures
        30 <= session::timeout_secs(v) <= 600,
        v <= w < u32::MAX ==> session::timeout_secs(v) <= session::timeout_secs(w),
        450 <= v <= 17550 ==> session::timeout_secs(v) == 15 + v / 30,
        v < 450 ==> session::timeout_secs(v) == 30,
        17550 <= v < u32::MAX ==> session::timeout_secs(v) == 600,
        session::timeout_secs(u32::MAX) == 30,
{
}

/// A query has waited long enough from its deadline on, and stays so.
pub proof fn law_overdue_from_the_deadline(
    pending: Map<u64, session::Pending>,
    id: u64,
    now: u64,
    later: u64,
)
    requires
        pending.contains_key(id),
        now <= later,
    ensures
        session::overdue(pending, id, pending[id].deadline),
        now < pending[id].deadline ==> !session::overdue(pending, id, now),
        session::overdue(pending, id, now) ==> session::overdue(pending, id, later)
            && session::any_overdue(pending, now),
        forall|k: u64| !pending.contains_key(k) ==> !#[trigger] session::overdue(pending, k, now),
{
}

/// A report is about the board of its query; where that is gone, about the last board that was
/// asked about, and where none was, about the usual one.
pub proof fn law_board_of_a_report(e: EngineView, id: u64, usual: Size, s: Size)
    ensures
        e.pending.contains_key(id) ==> session::report_size(e, id, usual) == e.pending[id].size,
        !e.pending.contains_key(id) && e.last_size == Some(s) ==> session::report_size(e, id, usual)
            == s,
        !e.pending.contains_key(id) && e.last_size is None ==> session::report_size(e, id, usual)
            == usual,
{
}

/// A report during the search leaves the queries as they are; any other is the last of its query.
pub proof fn law_last_report_of_a_query(e: EngineView, id: QueryId, report: RawView)
    ensures
        ({
            let (pending, event) = session::handled(
                e,
                IncomingView::Report { id: Some(id), report },
            );
            &&& report.is_during_search ==> pending == e.pending
            &&& !report.is_during_search ==> !pending.contains_key(id.number())
            &&& event matches session::EventView::Report { id: own, is_final, .. } && own == id
                && is_final != report.is_during_search
        }),
{
}

/// Of the lines that the engine writes, the last eight are kept, in their order.
pub proof fn law_last_lines_are_kept(tail: Seq<Seq<char>>, line: Seq<char>, k: int)
    requires
        tail.len() <= 8,
    ensures
        ({
            let next = session::tail_with(tail, line);
            &&& next.len() == if tail.len() < 8 { tail.len() + 1 } else { 8 }
            &&& next.last() == line
            &&& 0 <= k < next.len() - 1 ==> next[k] == tail[k + (tail.len() + 1 - next.len())]
        }),
{
}

// ---- files ----

/// A path below a directory begins with the directory and ends with the name, with one slash
/// between.
pub proof fn law_path_below(dir: Seq<char>, name: Seq<char>)
    ensures
        files::below(Seq::empty(), name) == name,
        dir.len() > 0 && dir.last() != '/' ==> files::below(dir, name) == dir.push('/') + name,
        files::below(dir.push('/'), name) == dir.push('/') + name,
{
    reveal_strlit("/");
    if dir.len() > 0 && dir.last() != '/' {
        assert(dir + "/"@ + name =~= dir.push('/') + name);
    }
    assert(dir.push('/').last() == '/');
}

/// The settings are below the directory that is set for them, else in the home directory.
pub proof fn law_where_the_settings_are(dir: Seq<char>, home: Option<Seq<char>>)
    ensures
        dir.len() > 0 ==> files::settings_dir(Some(dir), home) == files::below(dir, "guanqi"@),
        dir.len() > 0 ==> files::settings_dir(None, Some(dir)) == files::below(
            dir,
            ".config/guanqi"@,
        ),
        files::settings_dir(Some(Seq::empty()), home) == files::settings_dir(None, home),
{
}

proof fn lemma_run_of_digits(s: Seq<char>, d: Seq<char>, p: int)
    requires
        text::all_digits(d),
        0 <= p <= d.len() <= s.len(),
        s.take(d.len() as int) == d,
        s.len() > d.len() ==> !text::is_digit(s[d.len() as int]),
    ensures
        text::digits_end(s, p) == d.len(),
    decreases d.len() - p,
{
    if p < d.len() {
        assert(s.take(d.len() as int)[p] == s[p]);
        lemma_run_of_digits(s, d, p + 1);
    }
}

/// The steps in the name of a network are its digits, times a thousand, a million or a thousand
/// million where `K`, `M` or `G` follows.
pub proof fn law_steps_by_letter(d: Seq<char>, rest: Seq<char>)
    requires
        d.len() > 0,
        text::all_digits(d),
        text::digits_value(d) * 1_000_000_000 <= u64::MAX,
        rest.len() > 0 ==> !text::is_digit(rest[0]),
    ensures
        files::leading_steps(d + rest) == Some(
            text::digits_value(d) * (if rest.len() == 0 {
                1nat
            } else if rest[0] == 'K' {
                1_000
            } else if rest[0] == 'M' {
                1_000_000
            } else if rest[0] == 'G' {
                1_000_000_000
            } else {
                1
            }),
        ),
{
    let s = d + rest;
    assert(s.take(d.len() as int) =~= d);
    if rest.len() > 0 {
        assert(s[d.len() as int] == rest[0]);
    }
    lemma_run_of_digits(s, d, 0);
    text::law_unsigned_is_read(d, u64::MAX as nat);
    assert(d[0] != '+');
}

/// The steps stand behind the first `-s` of a name; without one, a name tells none.
pub proof fn law_steps_behind_the_mark(before: Seq<char>, rest: Seq<char>)
    requires
        forall|k: int|
            0 <= k < before.len() ==> !text::stands_at(
                #[trigger] (before + "-s"@ + rest),
                "-s"@,
                k,
            ),
    ensures
        files::steps_in(before + "-s"@ + rest) == files::leading_steps(rest),
{
    reveal_strlit("-s");
    let s = before + "-s"@ + rest;
    let at = before.len() as int;
    assert(s.subrange(at, at + 2) =~= "-s"@);
    assert(text::stands_at(s, "-s"@, at));
    assert forall|k: int| 0 <= k < at implies !#[trigger] text::stands_at(s, "-s"@, k) by {
        let t = before + "-s"@ + rest;
        assert(!text::stands_at(t, "-s"@, k));
    }
    text::lemma_first_place(s, "-s"@, at, 0);
    assert(s.skip(at + 2) =~= rest);
}

proof fn lemma_code_points(x: char, y: char)
    ensures
        x == y || (x as u32) < (y as u32) || (y as u32) < (x as u32),
{
}

proof fn lemma_texts_ordered(a: Seq<char>, b: Seq<char>)
    ensures
        a == b || text::text_less(a, b) || text::text_less(b, a),
    decreases a.len(),
{
    if a.len() == 0 && b.len() == 0 {
        assert(a =~= b);
    } else if a.len() > 0 && b.len() > 0 && a[0] == b[0] {
        lemma_texts_ordered(a.skip(1), b.skip(1));
        if a.skip(1) == b.skip(1) {
            assert(a =~= seq![a[0]] + a.skip(1));
            assert(b =~= seq![b[0]] + b.skip(1));
        }
    } else if a.len() > 0 && b.len() > 0 {
        lemma_code_points(a[0], b[0]);
    } else if a.len() == 0 {
        assert(text::text_less(a, b));
    } else {
        assert(text::text_less(b, a));
    }
}

/// The network with more steps is the newer one, one without a number the oldest; of two networks
/// with different names exactly one comes first.
pub proof fn law_newest_network_first(a: Seq<char>, b: Seq<char>)
    ensures
        files::steps_in(a) matches Some(x) && files::steps_in(b) matches Some(y) && x > y
            ==> files::ranked_before(a, b),
        files::steps_in(a) is Some && files::steps_in(b) is None ==> files::ranked_before(a, b),
        a != b ==> files::ranked_before(a, b) != files::ranked_before(b, a),
        !files::ranked_before(a, a),
{
    text::lemma_less_irreflexive(a);
    lemma_texts_ordered(a, b);
    if text::text_less(a, b) && text::text_less(b, a) {
        text::lemma_less_trans(a, b, a);
    }
}

// ---- the configuration file of the engine ----

/// After the number of threads was brought up to date, some line sets it, each line that does says
/// that number, and every other line is the one that was there.
pub proof fn law_threads_are_set(ls: Seq<Seq<char>>, threads: u32, i: int)
    requires
        0 <= i < analysis_cfg::synced(ls, threads).len(),
    ensures
        ({
            let next = analysis_cfg::synced(ls, threads);
            &&& next.len() == ls.len() || next.len() == ls.len() + 1
            &&& analysis_cfg::any_sets(next)
            &&& analysis_cfg::sets_threads(next[i]) ==> text::trimmed_start(next[i])
                == "numSearchThreads = "@ + text::decimal(
                if threads == 0 {
                    1
                } else {
                    threads as nat
                },
            )
            &&& i < ls.len() && !analysis_cfg::sets_threads(ls[i]) ==> next[i] == ls[i]
            &&& i < ls.len() && analysis_cfg::sets_threads(ls[i]) ==> analysis_cfg::sets_threads(
                next[i],
            )
        }),
{
    lemma_fixed_lines(threads);
    lemma_synced(ls, threads);
    let next = analysis_cfg::synced(ls, threads);
    let line = analysis_cfg::threads_line(threads);
    reveal_strlit("numSearchThreads = ");
    assert(!text::white(line[0]));
    if i < ls.len() {
        assert(next[i] == analysis_cfg::synced_line(ls[i], threads));
    }
}

/// The engine evaluates as many positions at once as it searches in parallel, from 16 to 64.
pub proof fn law_batch_follows_threads(a: u32, b: u32)
    ensures
        16 <= analysis_cfg::batch_for(a) <= 64,
        a <= b ==> analysis_cfg::batch_for(a) <= analysis_cfg::batch_for(b),
        16 <= a <= 64 ==> analysis_cfg::batch_for(a) == a,
{
}

/// A side is named by its first letter, in either case.
pub proof fn law_side_by_letter(s: Seq<char>)
    ensures
        report::side_named(s) == Some(Stone::Black) <==> text::lower_text(s) == "b"@,
        report::side_named(s) == Some(Stone::White) <==> text::lower_text(s) == "w"@,
{
    reveal_strlit("b");
    reveal_strlit("B");
    reveal_strlit("w");
    reveal_strlit("W");
    let l = text::lower_text(s);
    if s.len() == 1 {
        assert(l.len() == 1 && l[0] == text::lower(s[0]));
        assert(s[0] == 'b' ==> s =~= "b"@);
        assert(s[0] == 'B' ==> s =~= "B"@);
        assert(s[0] == 'w' ==> s =~= "w"@);
        assert(s[0] == 'W' ==> s =~= "W"@);
        assert(l[0] == 'b' ==> l =~= "b"@);
        assert(l[0] == 'w' ==> l =~= "w"@);
    } else {
        assert(l.len() == s.len());
    }
}

/// How long a part of a request is, where it is asked for.
pub open spec fn when_asked(asked: bool, part: Seq<char>) -> nat {
    if asked {
        part.len()
    } else {
        0
    }
}

/// A request says no more than what was asked for: behind its position, rules and size stand the
/// limits, the turns and the moves to choose from, each only where it is asked for, and the brace
/// that ends it.
pub proof fn law_request_says_no_more(
    q: protocol::QueryView,
    id: u64,
    quoted: spec_fn(Seq<char>) -> Seq<char>,
)
    ensures
        protocol::query_line(q, id, quoted).len() == protocol::query_head(q, id, quoted).len()
            + protocol::query_limits(q).len() + protocol::query_turns(q).len()
            + protocol::query_moves(q, quoted).len() + 1,
{
    reveal_strlit("}");
}

/// Of the limits a request gives only those that are set.
pub proof fn law_limits_that_are_set(q: protocol::QueryView)
    ensures
        protocol::query_limits(q).len() == when_asked(
            q.max_visits is Some,
            ",\"maxVisits\":"@ + text::decimal(q.max_visits->0 as nat),
        ) + when_asked(q.include_ownership, ",\"includeOwnership\":true"@) + when_asked(
            q.include_policy,
            ",\"includePolicy\":true"@,
        ) + when_asked(q.include_moves_ownership, ",\"includeMovesOwnership\":true"@),
{
}

/// Without a wish for turns, for reports during the search or for a priority, none is given.
pub proof fn law_turns_that_are_asked_for(q: protocol::QueryView)
    ensures
        protocol::query_turns(q).len() == when_asked(
            q.report_during_search_every is Some,
            protocol::every_text(q.report_during_search_every),
        ) + when_asked(q.analyze_turns is Some, protocol::turns_text(q.analyze_turns)) + when_asked(
            q.priority != 0,
            protocol::priority_text(q.priority),
        ),
{
}

/// Moves are either allowed or avoided, and neither where there is no wish.
pub proof fn law_moves_to_choose_from(
    q: protocol::QueryView,
    quoted: spec_fn(Seq<char>) -> Seq<char>,
)
    ensures
        q.allow is None && q.avoid is None ==> protocol::query_moves(q, quoted).len() == 0,
        q.allow matches Some(r) ==> protocol::query_moves(q, quoted) == ",\"allowMoves\":"@
            + protocol::rule_text(r, quoted),
{
}

} // verus!
