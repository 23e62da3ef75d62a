//! Where the engine's files are, which network is the newest, and what its configuration file
//! says. Paths are text; the caller reads the environment and the disk.

use vstd::prelude::*;
use crate::text::{self, chars_of, has_suffix, slice_chars, string_of};

verus! {

// ---- paths ----

/// A path below a directory.
pub open spec fn below(dir: Seq<char>, name: Seq<char>) -> Seq<char> {
    if dir.len() == 0 {
        name
    } else if dir.last() == '/' {
        dir + name
    } else {
        dir + "/"@ + name
    }
}

/// The home directory, or the current one where it is not known.
pub open spec fn home_of(home: Option<Seq<char>>) -> Seq<char> {
    match home {
        Some(h) => h,
        None => "."@,
    }
}

/// The directory of the settings.
pub open spec fn settings_dir(xdg: Option<Seq<char>>, home: Option<Seq<char>>) -> Seq<char> {
    match xdg {
        Some(d) if d.len() > 0 => below(d, "guanqi"@),
        _ => below(home_of(home), ".config/guanqi"@),
    }
}

/// The text of an optional string slice.
pub open spec fn opt_str(s: Option<&str>) -> Option<Seq<char>> {
    match s {
        Some(x) => Some(x@),
        None => None,
    }
}

/// A path below a directory.
pub fn join_path(dir: &str, name: &str) -> (r: String)
    ensures
        r@ == below(dir@, name@),
{
    let d = chars_of(dir);
    let mut out = dir.to_owned();
    if d.len() > 0 && d[d.len() - 1] != '/' {
        out.append("/");
    }
    out.append(name);
    assert(out@ =~= below(dir@, name@));
    out
}

fn home_text(home: Option<&str>) -> (r: String)
    ensures
        r@ == home_of(opt_str(home)),
{
    match home {
        Some(h) => h.to_owned(),
        None => ".".to_owned(),
    }
}

/// The directory of the settings, by `XDG_CONFIG_HOME` and `HOME`.
pub fn config_dir(xdg: Option<&str>, home: Option<&str>) -> (r: String)
    ensures
        r@ == settings_dir(opt_str(xdg), opt_str(home)),
{
    if let Some(d) = xdg {
        if !d.is_empty() {
            return join_path(d, "guanqi");
        }
    }
    join_path(home_text(home).as_str(), ".config/guanqi")
}

/// The file of the settings.
pub fn settings_path(config_dir: &str) -> (r: String)
    ensures
        r@ == below(config_dir@, "settings.json"@),
{
    join_path(config_dir, "settings.json")
}

/// The engine's configuration file, where the settings name no other.
pub fn default_analysis_cfg_path(config_dir: &str) -> (r: String)
    ensures
        r@ == below(config_dir@, "analysis.cfg"@),
{
    join_path(config_dir, "analysis.cfg")
}

/// The engine's configuration file.
pub fn effective_analysis_cfg(set: Option<&str>, config_dir: &str) -> (r: String)
    ensures
        r@ == match set {
            Some(p) => p@,
            None => below(config_dir@, "analysis.cfg"@),
        },
{
    match set {
        Some(p) => p.to_owned(),
        None => default_analysis_cfg_path(config_dir),
    }
}

/// The directory of the networks, where the settings name no other.
pub fn default_weights_dir(home: Option<&str>) -> (r: String)
    ensures
        r@ == below(home_of(opt_str(home)), ".local/share/katago"@),
{
    join_path(home_text(home).as_str(), ".local/share/katago")
}

/// The directory of the engine's logs.
pub fn log_dir(home: Option<&str>) -> (r: String)
    ensures
        r@ == below(home_of(opt_str(home)), ".local/state/guanqi/katago"@),
{
    join_path(home_text(home).as_str(), ".local/state/guanqi/katago")
}

/// The engine, where it is not on the path.
pub fn fallback_engine_path() -> (r: String)
    ensures
        r@ == "/usr/bin/katago"@,
{
    "/usr/bin/katago".to_owned()
}

/// The texts of a list of strings.
pub open spec fn texts(v: Seq<String>) -> Seq<Seq<char>> {
    v.map_values(|s: String| s@)
}

/// The places where the engine may be, by `PATH`: in each of its directories, in order.
pub fn katago_candidates(path: &str) -> (r: Vec<String>)
    ensures
        texts(r@) == text::pieces(path@, ':').map_values(|d: Seq<char>| below(d, "katago"@)),
{
    let dirs = text::split_on(&chars_of(path), ':');
    let ghost all = text::char_lists(dirs@);
    let mut out: Vec<String> = Vec::new();
    let mut i: usize = 0;
    while i < dirs.len()
        invariant
            i <= dirs@.len(),
            all == text::char_lists(dirs@),
            texts(out@) == all.take(i as int).map_values(|d: Seq<char>| below(d, "katago"@)),
        decreases dirs@.len() - i,
    {
        let dir = string_of(&dirs[i]);
        assert(all[i as int] == dir@);
        let ghost done = out@;
        out.push(join_path(dir.as_str(), "katago"));
        i += 1;
        assert(texts(out@) =~= texts(done).push(below(dir@, "katago"@)));
        assert(texts(out@) =~= all.take(i as int).map_values(|d: Seq<char>| below(d, "katago"@)));
    }
    assert(all.take(i as int) =~= all);
    out
}

// ---- networks ----

/// Whether a file name is that of a network.
pub open spec fn is_weights(name: Seq<char>) -> bool {
    text::ends_with(name, ".bin.gz"@)
}

/// A product that stays at the largest number.
pub open spec fn capped_product(a: nat, b: nat) -> nat {
    if a * b > u64::MAX {
        u64::MAX as nat
    } else {
        a * b
    }
}

/// The training steps that stand at the start of a text: a number, and a letter for thousands,
/// millions or billions.
pub open spec fn leading_steps(s: Seq<char>) -> Option<nat> {
    let e = text::digits_end(s, 0);
    match text::parsed_unsigned(s.take(e), u64::MAX as nat) {
        None => None,
        Some(n) => Some(
            if 0 <= e < s.len() && s[e] == 'G' {
                capped_product(n, 1_000_000_000)
            } else if 0 <= e < s.len() && s[e] == 'M' {
                capped_product(n, 1_000_000)
            } else if 0 <= e < s.len() && s[e] == 'K' {
                capped_product(n, 1_000)
            } else {
                n
            },
        ),
    }
}

/// The training steps that the name of a network tells, behind its first `-s`.
pub open spec fn steps_in(name: Seq<char>) -> Option<nat> {
    match text::first_place(name, "-s"@, 0) {
        None => None,
        Some(i) => leading_steps(name.skip(i + 2)),
    }
}

/// Whether `a` has more steps than `b`; no number is fewer than any.
pub open spec fn more_steps(a: Option<nat>, b: Option<nat>) -> bool {
    match (a, b) {
        (Some(x), Some(y)) => x > y,
        (Some(_), None) => true,
        _ => false,
    }
}

/// Whether network `a` comes before network `b`: newer ones first, then by name from the end.
pub open spec fn ranked_before(a: Seq<char>, b: Seq<char>) -> bool {
    more_steps(steps_in(a), steps_in(b)) || (steps_in(a) == steps_in(b) && text::text_less(b, a))
}

fn times(a: u64, b: u64) -> (r: u64)
    ensures
        r == capped_product(a as nat, b as nat),
{
    proof {
        assert(0 <= (a as u128) * (b as u128) <= 0xffff_ffff_ffff_ffff * 0xffff_ffff_ffff_ffff)
            by (nonlinear_arith)
            requires
                0 <= a as u128 <= 0xffff_ffff_ffff_ffff,
                0 <= b as u128 <= 0xffff_ffff_ffff_ffff,
        ;
    }
    let p = a as u128 * b as u128;
    if p > u64::MAX as u128 {
        u64::MAX
    } else {
        p as u64
    }
}

/// The training steps that the name of a network tells.
pub fn network_steps(name: &str) -> (r: Option<u64>)
    ensures
        match steps_in(name@) {
            Some(n) => r matches Some(x) && x == n,
            None => r is None,
        },
{
    let s = chars_of(name);
    let start = match text::find_text(&s, "-s") {
        Some(i) => {
            proof {
                text::lemma_first_place(s@, "-s"@, i as int, 0);
            }
            i
        },
        None => {
            proof {
                text::lemma_no_place(s@, "-s"@, 0);
            }
            return None;
        },
    };
    proof {
        reveal_strlit("-s");
    }
    let n = s.len();
    assert(start + 2 <= n);
    let rest = slice_chars(&s, start + 2, n);
    assert(rest@ =~= s@.skip(start + 2));
    let e = text::run_of_digits(&rest, 0);
    let digits = slice_chars(&rest, 0, e);
    assert(digits@ =~= rest@.take(e as int));
    let base = match text::parse_unsigned(&digits, u64::MAX) {
        Some(n) => n,
        None => {
            return None;
        },
    };
    if e < rest.len() && rest[e] == 'G' {
        Some(times(base, 1_000_000_000))
    } else if e < rest.len() && rest[e] == 'M' {
        Some(times(base, 1_000_000))
    } else if e < rest.len() && rest[e] == 'K' {
        Some(times(base, 1_000))
    } else {
        Some(base)
    }
}

fn comes_before(a: &str, b: &str) -> (r: bool)
    ensures
        r == ranked_before(a@, b@),
{
    let later = text::less_text(b, a);
    match (network_steps(a), network_steps(b)) {
        (Some(x), Some(y)) => x > y || (x == y && later),
        (Some(_), None) => true,
        (None, Some(_)) => false,
        (None, None) => later,
    }
}

/// Whether no name comes before one that stands earlier.
pub open spec fn in_order(s: Seq<Seq<char>>) -> bool {
    forall|i: int, j: int| 0 <= i < j < s.len() ==> !ranked_before(#[trigger] s[j], #[trigger] s[i])
}

/// A name before another comes before all that do not come before that one.
proof fn lemma_ranked(a: Seq<char>, b: Seq<char>, c: Seq<char>)
    requires
        ranked_before(a, b),
        ranked_before(b, c),
    ensures
        ranked_before(a, c),
{
    if text::text_less(c, b) && text::text_less(b, a) {
        text::lemma_less_trans(c, b, a);
    }
}

/// The networks among the files of a directory, the newest first.
pub fn scan_weights(files: &Vec<String>) -> (r: Vec<String>)
    ensures
        in_order(texts(r@)),
        texts(r@).to_multiset() == texts(files@).filter(
            |n: Seq<char>| is_weights(n),
        ).to_multiset(),
{
    broadcast use vstd::seq_lib::group_to_multiset_ensures;

    let ghost all = texts(files@);
    let ghost keep = |n: Seq<char>| is_weights(n);
    let mut out: Vec<String> = Vec::new();
    let mut i: usize = 0;
    assert(all.take(0).filter(keep) =~= Seq::empty()) by {
        reveal(Seq::filter);
    }
    assert(texts(out@) =~= Seq::empty());
    while i < files.len()
        invariant
            i <= files@.len(),
            all == texts(files@),
            keep == (|n: Seq<char>| is_weights(n)),
            in_order(texts(out@)),
            texts(out@).to_multiset() == all.take(i as int).filter(keep).to_multiset(),
        decreases files@.len() - i,
    {
        let name = files[i].as_str();
        assert(all[i as int] == name@);
        let ghost done = all.take(i as int);
        proof {
            let next = all.take(i + 1);
            assert(next.drop_last() =~= done);
            assert(next.filter(keep) =~= if is_weights(name@) {
                done.filter(keep).push(name@)
            } else {
                done.filter(keep)
            }) by {
                reveal(Seq::filter);
            }
        }
        if has_suffix(&chars_of(name), ".bin.gz") {
            insert_ranked(&mut out, name);
            proof {
                vstd::seq_lib::to_multiset_build(done.filter(keep), name@);
            }
        }
        i += 1;
    }
    assert(all.take(i as int) =~= all);
    out
}

/// Puts a name where it belongs.
fn insert_ranked(out: &mut Vec<String>, name: &str)
    requires
        in_order(texts(old(out)@)),
    ensures
        in_order(texts(final(out)@)),
        texts(final(out)@).to_multiset() == texts(old(out)@).to_multiset().insert(name@),
{
    broadcast use vstd::seq_lib::group_to_multiset_ensures;

    let ghost old_texts = texts(out@);
    let mut k: usize = 0;
    while k < out.len() && !comes_before(name, out[k].as_str())
        invariant
            k <= out@.len(),
            old_texts == texts(out@),
            forall|i: int| 0 <= i < k ==> !ranked_before(name@, #[trigger] old_texts[i]),
        decreases out@.len() - k,
    {
        assert(old_texts[k as int] == out@[k as int]@);
        k += 1;
    }
    proof {
        if k < out@.len() {
            assert(old_texts[k as int] == out@[k as int]@);
            assert forall|j: int| k <= j < old_texts.len() implies !ranked_before(
                #[trigger] old_texts[j],
                name@,
            ) by {
                if ranked_before(old_texts[j], name@) {
                    lemma_ranked(old_texts[j], name@, old_texts[k as int]);
                    if j == k {
                        lemma_not_before_itself(old_texts[k as int]);
                    }
                }
            }
        }
    }
    out.insert(k, name.to_owned());
    proof {
        let now = texts(out@);
        assert(now =~= old_texts.insert(k as int, name@));
        assert forall|i: int, j: int| 0 <= i < j < now.len() implies !ranked_before(
            #[trigger] now[j],
            #[trigger] now[i],
        ) by {
            let a = if i < k {
                i
            } else {
                i - 1
            };
            let b = if j < k {
                j
            } else {
                j - 1
            };
            if i == k {
                assert(now[j] == old_texts[b]);
            } else if j == k {
                assert(now[i] == old_texts[a]);
            } else {
                assert(now[i] == old_texts[a]);
                assert(now[j] == old_texts[b]);
            }
        }
        assert(now.remove(k as int) =~= old_texts);
        assert(now[k as int] == name@);
        vstd::seq_lib::to_multiset_remove(now, k as int);
        assert(now.contains(name@));
        assert(now.to_multiset().count(name@) > 0);
        assert(now.to_multiset() =~= now.to_multiset().remove(name@).insert(name@));
    }
}

/// No name comes before itself.
proof fn lemma_not_before_itself(a: Seq<char>)
    ensures
        !ranked_before(a, a),
{
    text::lemma_less_irreflexive(a);
}

/// The newest network among the files of a directory.
pub fn pick_newest_weights(files: &Vec<String>) -> (r: Option<String>)
    ensures
        match r {
            Some(x) => is_weights(x@) && texts(files@).contains(x@) && forall|i: int|
                0 <= i < files@.len() && is_weights(#[trigger] texts(files@)[i]) ==> !ranked_before(
                    texts(files@)[i],
                    x@,
                ),
            None => forall|i: int|
                0 <= i < files@.len() ==> !is_weights(#[trigger] texts(files@)[i]),
        },
{
    broadcast use vstd::seq_lib::group_to_multiset_ensures;

    let mut list = scan_weights(files);
    let ghost sorted = texts(list@);
    let ghost all = texts(files@);
    let ghost keep = |n: Seq<char>| is_weights(n);
    let ghost kept = all.filter(keep);
    proof {
        assert forall|i: int| 0 <= i < all.len() && is_weights(#[trigger] all[i]) implies sorted.contains(
            all[i],
        ) by {
            all.lemma_filter_contains(keep, i);
            assert(kept.contains(all[i]));
            assert(kept.to_multiset().count(all[i]) > 0);
        }
        if sorted.len() > 0 {
            assert(sorted.contains(sorted[0]));
            assert(sorted.to_multiset().count(sorted[0]) > 0);
            assert(kept.contains(sorted[0]));
            all.lemma_filter_contains_rev(keep, sorted[0]);
        }
    }
    if list.len() == 0 {
        return None;
    }
    let first = list.swap_remove(0);
    proof {
        assert(first@ == sorted[0]);
        lemma_not_before_itself(first@);
    }
    Some(first)
}

} // verus!
