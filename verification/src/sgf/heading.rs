//! What the root of a saved record reads as.

use vstd::prelude::*;
use super::error::ErrorView;
use super::info::{self, InfoView};
use super::keeping;
use super::laws;
use super::load::{self, MetaView, SIG_INIT};
use super::model::{self, PropView};
use super::save;
use super::tree;
use crate::board::{self, coord, BoardView, Coord, Size, Stone};
use crate::text;

verus! {

// ---- names ----

/// The letters of the names that saving writes.
proof fn lemma_names()
    ensures
        "C"@.len() == 1 && "C"@[0] == 'C',
        "GM"@.len() == 2 && "GM"@[0] == 'G' && "GM"@[1] == 'M',
        "FF"@.len() == 2 && "FF"@[0] == 'F' && "FF"@[1] == 'F',
        "CA"@.len() == 2 && "CA"@[0] == 'C' && "CA"@[1] == 'A',
        "AP"@.len() == 2 && "AP"@[0] == 'A' && "AP"@[1] == 'P',
        "SZ"@.len() == 2 && "SZ"@[0] == 'S' && "SZ"@[1] == 'Z',
        "KM"@.len() == 2 && "KM"@[0] == 'K' && "KM"@[1] == 'M',
        "HA"@.len() == 2 && "HA"@[0] == 'H' && "HA"@[1] == 'A',
        "PL"@.len() == 2 && "PL"@[0] == 'P' && "PL"@[1] == 'L',
        "PB"@.len() == 2 && "PB"@[0] == 'P' && "PB"@[1] == 'B',
        "PW"@.len() == 2 && "PW"@[0] == 'P' && "PW"@[1] == 'W',
        "BR"@.len() == 2 && "BR"@[0] == 'B' && "BR"@[1] == 'R',
        "WR"@.len() == 2 && "WR"@[0] == 'W' && "WR"@[1] == 'R',
        "BT"@.len() == 2 && "BT"@[0] == 'B' && "BT"@[1] == 'T',
        "WT"@.len() == 2 && "WT"@[0] == 'W' && "WT"@[1] == 'T',
        "RE"@.len() == 2 && "RE"@[0] == 'R' && "RE"@[1] == 'E',
        "DT"@.len() == 2 && "DT"@[0] == 'D' && "DT"@[1] == 'T',
        "EV"@.len() == 2 && "EV"@[0] == 'E' && "EV"@[1] == 'V',
        "RO"@.len() == 2 && "RO"@[0] == 'R' && "RO"@[1] == 'O',
        "PC"@.len() == 2 && "PC"@[0] == 'P' && "PC"@[1] == 'C',
        "GN"@.len() == 2 && "GN"@[0] == 'G' && "GN"@[1] == 'N',
        "RU"@.len() == 2 && "RU"@[0] == 'R' && "RU"@[1] == 'U',
        "TM"@.len() == 2 && "TM"@[0] == 'T' && "TM"@[1] == 'M',
        "OT"@.len() == 2 && "OT"@[0] == 'O' && "OT"@[1] == 'T',
        "AB"@.len() == 2 && "AB"@[0] == 'A' && "AB"@[1] == 'B',
        "AW"@.len() == 2 && "AW"@[0] == 'A' && "AW"@[1] == 'W',
        "AE"@.len() == 2 && "AE"@[0] == 'A' && "AE"@[1] == 'E',
{
    reveal_strlit("C");
    reveal_strlit("GM");
    reveal_strlit("FF");
    reveal_strlit("CA");
    reveal_strlit("AP");
    reveal_strlit("SZ");
    reveal_strlit("KM");
    reveal_strlit("HA");
    reveal_strlit("PL");
    reveal_strlit("PB");
    reveal_strlit("PW");
    reveal_strlit("BR");
    reveal_strlit("WR");
    reveal_strlit("BT");
    reveal_strlit("WT");
    reveal_strlit("RE");
    reveal_strlit("DT");
    reveal_strlit("EV");
    reveal_strlit("RO");
    reveal_strlit("PC");
    reveal_strlit("GN");
    reveal_strlit("RU");
    reveal_strlit("TM");
    reveal_strlit("OT");
    reveal_strlit("AB");
    reveal_strlit("AW");
    reveal_strlit("AE");
}

/// The names that saving writes are in capitals.
proof fn lemma_names_upper()
    ensures
        model::upper_text("C"@) == "C"@,
        model::upper_text("GM"@) == "GM"@,
        model::upper_text("FF"@) == "FF"@,
        model::upper_text("CA"@) == "CA"@,
        model::upper_text("AP"@) == "AP"@,
        model::upper_text("SZ"@) == "SZ"@,
        model::upper_text("KM"@) == "KM"@,
        model::upper_text("HA"@) == "HA"@,
        model::upper_text("PL"@) == "PL"@,
        model::upper_text("PB"@) == "PB"@,
        model::upper_text("PW"@) == "PW"@,
        model::upper_text("BR"@) == "BR"@,
        model::upper_text("WR"@) == "WR"@,
        model::upper_text("BT"@) == "BT"@,
        model::upper_text("WT"@) == "WT"@,
        model::upper_text("RE"@) == "RE"@,
        model::upper_text("DT"@) == "DT"@,
        model::upper_text("EV"@) == "EV"@,
        model::upper_text("RO"@) == "RO"@,
        model::upper_text("PC"@) == "PC"@,
        model::upper_text("GN"@) == "GN"@,
        model::upper_text("RU"@) == "RU"@,
        model::upper_text("TM"@) == "TM"@,
        model::upper_text("OT"@) == "OT"@,
        model::upper_text("AB"@) == "AB"@,
        model::upper_text("AW"@) == "AW"@,
        model::upper_text("AE"@) == "AE"@,
{
    lemma_names();
    assert(model::upper_text("C"@) =~= "C"@);
    assert(model::upper_text("GM"@) =~= "GM"@);
    assert(model::upper_text("FF"@) =~= "FF"@);
    assert(model::upper_text("CA"@) =~= "CA"@);
    assert(model::upper_text("AP"@) =~= "AP"@);
    assert(model::upper_text("SZ"@) =~= "SZ"@);
    assert(model::upper_text("KM"@) =~= "KM"@);
    assert(model::upper_text("HA"@) =~= "HA"@);
    assert(model::upper_text("PL"@) =~= "PL"@);
    assert(model::upper_text("PB"@) =~= "PB"@);
    assert(model::upper_text("PW"@) =~= "PW"@);
    assert(model::upper_text("BR"@) =~= "BR"@);
    assert(model::upper_text("WR"@) =~= "WR"@);
    assert(model::upper_text("BT"@) =~= "BT"@);
    assert(model::upper_text("WT"@) =~= "WT"@);
    assert(model::upper_text("RE"@) =~= "RE"@);
    assert(model::upper_text("DT"@) =~= "DT"@);
    assert(model::upper_text("EV"@) =~= "EV"@);
    assert(model::upper_text("RO"@) =~= "RO"@);
    assert(model::upper_text("PC"@) =~= "PC"@);
    assert(model::upper_text("GN"@) =~= "GN"@);
    assert(model::upper_text("RU"@) =~= "RU"@);
    assert(model::upper_text("TM"@) =~= "TM"@);
    assert(model::upper_text("OT"@) =~= "OT"@);
    assert(model::upper_text("AB"@) =~= "AB"@);
    assert(model::upper_text("AW"@) =~= "AW"@);
    assert(model::upper_text("AE"@) =~= "AE"@);
}

// ---- finding properties ----

/// The first property of the given name.
pub open spec fn first_named(ps: Seq<PropView>, ident: Seq<char>) -> Option<PropView> {
    let i = tree::prop_index(ps, ident);
    if 0 <= i < ps.len() {
        Some(ps[i])
    } else {
        None
    }
}

spec fn or_else(a: Option<PropView>, b: Option<PropView>) -> Option<PropView> {
    if a is Some {
        a
    } else {
        b
    }
}

proof fn lemma_first_append(a: Seq<PropView>, b: Seq<PropView>, ident: Seq<char>)
    ensures
        first_named(a + b, ident) == or_else(first_named(a, ident), first_named(b, ident)),
    decreases a.len(),
{
    if a.len() == 0 {
        assert(a + b =~= b);
    } else {
        assert((a + b)[0] == a[0]);
        assert((a + b).skip(1) =~= a.skip(1) + b);
        lemma_first_append(a.skip(1), b, ident);
        lemma_index_range(a.skip(1), ident);
        lemma_index_range(a.skip(1) + b, ident);
        lemma_index_range(b, ident);
    }
}

proof fn lemma_index_range(ps: Seq<PropView>, ident: Seq<char>)
    ensures
        0 <= tree::prop_index(ps, ident) <= ps.len(),
    decreases ps.len(),
{
    if ps.len() > 0 && ps[0].ident != ident {
        lemma_index_range(ps.skip(1), ident);
    }
}

/// What a text that is written says under a name.
spec fn said(ident: Seq<char>, value: Option<Seq<char>>, name: Seq<char>) -> Option<PropView> {
    match value {
        Some(v) if v.len() > 0 && ident == name => Some(save::one_prop(ident, v)),
        _ => None,
    }
}

proof fn lemma_first_one(p: PropView, name: Seq<char>)
    ensures
        first_named(seq![p], name) == if p.ident == name {
            Some(p)
        } else {
            None
        },
{
    reveal_with_fuel(tree::prop_index, 2);
    assert(seq![p].skip(1) =~= Seq::<PropView>::empty());
}

proof fn lemma_first_empty(name: Seq<char>)
    ensures
        first_named(Seq::empty(), name) is None,
{
}

proof fn lemma_first_text(ident: Seq<char>, value: Option<Seq<char>>, name: Seq<char>)
    ensures
        first_named(save::text_prop(ident, value), name) == said(ident, value, name),
{
    lemma_first_empty(name);
    match value {
        Some(v) if v.len() > 0 => {
            lemma_first_one(save::one_prop(ident, v), name);
        },
        _ => {},
    }
}

/// What six texts in a row say under a name.
spec fn said_six(
    a: (Seq<char>, Option<Seq<char>>),
    b: (Seq<char>, Option<Seq<char>>),
    c: (Seq<char>, Option<Seq<char>>),
    d: (Seq<char>, Option<Seq<char>>),
    e: (Seq<char>, Option<Seq<char>>),
    f: (Seq<char>, Option<Seq<char>>),
    name: Seq<char>,
) -> Option<PropView> {
    or_else(
        said(a.0, a.1, name),
        or_else(
            said(b.0, b.1, name),
            or_else(
                said(c.0, c.1, name),
                or_else(
                    said(d.0, d.1, name),
                    or_else(said(e.0, e.1, name), said(f.0, f.1, name)),
                ),
            ),
        ),
    )
}

proof fn lemma_first_six(
    a: (Seq<char>, Option<Seq<char>>),
    b: (Seq<char>, Option<Seq<char>>),
    c: (Seq<char>, Option<Seq<char>>),
    d: (Seq<char>, Option<Seq<char>>),
    e: (Seq<char>, Option<Seq<char>>),
    f: (Seq<char>, Option<Seq<char>>),
    name: Seq<char>,
)
    ensures
        first_named(
            save::text_prop(a.0, a.1) + save::text_prop(b.0, b.1) + save::text_prop(c.0, c.1)
                + save::text_prop(d.0, d.1) + save::text_prop(e.0, e.1) + save::text_prop(
                f.0,
                f.1,
            ),
            name,
        ) == said_six(a, b, c, d, e, f, name),
{
    let pa = save::text_prop(a.0, a.1);
    let pb = save::text_prop(b.0, b.1);
    let pc = save::text_prop(c.0, c.1);
    let pd = save::text_prop(d.0, d.1);
    let pe = save::text_prop(e.0, e.1);
    let pf = save::text_prop(f.0, f.1);
    lemma_first_text(a.0, a.1, name);
    lemma_first_text(b.0, b.1, name);
    lemma_first_text(c.0, c.1, name);
    lemma_first_text(d.0, d.1, name);
    lemma_first_text(e.0, e.1, name);
    lemma_first_text(f.0, f.1, name);
    lemma_first_append(pa, pb, name);
    lemma_first_append(pa + pb, pc, name);
    lemma_first_append(pa + pb + pc, pd, name);
    lemma_first_append(pa + pb + pc + pd, pe, name);
    lemma_first_append(pa + pb + pc + pd + pe, pf, name);
}

/// What every record says under a name.
spec fn said_general(size: Size, name: Seq<char>) -> Option<PropView> {
    if name == "GM"@ {
        Some(save::one_prop("GM"@, "1"@))
    } else if name == "FF"@ {
        Some(save::one_prop("FF"@, "4"@))
    } else if name == "CA"@ {
        Some(save::one_prop("CA"@, "UTF-8"@))
    } else if name == "AP"@ {
        Some(save::one_prop("AP"@, "Guanqi:0.1.0"@))
    } else if name == "SZ"@ {
        Some(save::one_prop("SZ"@, text::decimal(size.side())))
    } else {
        None
    }
}

proof fn lemma_first_general(size: Size, name: Seq<char>)
    ensures
        first_named(save::general_props(size), name) == said_general(size, name),
{
    let a = seq![save::one_prop("GM"@, "1"@)];
    let b = seq![save::one_prop("FF"@, "4"@)];
    let c = seq![save::one_prop("CA"@, "UTF-8"@)];
    let d = seq![save::one_prop("AP"@, "Guanqi:0.1.0"@)];
    let e = seq![save::one_prop("SZ"@, text::decimal(size.side()))];
    assert(save::general_props(size) =~= a + b + c + d + e);
    lemma_first_one(a[0], name);
    lemma_first_one(b[0], name);
    lemma_first_one(c[0], name);
    lemma_first_one(d[0], name);
    lemma_first_one(e[0], name);
    lemma_first_append(a, b, name);
    lemma_first_append(a + b, c, name);
    lemma_first_append(a + b + c, d, name);
    lemma_first_append(a + b + c + d, e, name);
}

/// What komi, handicap and the side to begin say under a name.
spec fn said_start(what: InfoView, first: Stone, usual: Stone, name: Seq<char>) -> Option<PropView> {
    or_else(
        match what.komi {
            Some(k) if name == "KM"@ => Some(save::one_prop("KM"@, info::komi_text(k))),
            _ => None,
        },
        or_else(
            if what.handicap > 1 && name == "HA"@ {
                Some(save::one_prop("HA"@, text::decimal(what.handicap as nat)))
            } else {
                None
            },
            if first != usual && name == "PL"@ {
                Some(save::one_prop("PL"@, save::side_ident(first)))
            } else {
                None
            },
        ),
    )
}

proof fn lemma_first_start(what: InfoView, first: Stone, usual: Stone, name: Seq<char>)
    ensures
        first_named(save::start_props(what, first, usual), name) == said_start(
            what,
            first,
            usual,
            name,
        ),
{
    lemma_first_empty(name);
    let a = match what.komi {
        Some(k) => seq![save::one_prop("KM"@, info::komi_text(k))],
        None => Seq::empty(),
    };
    let b = if what.handicap > 1 {
        seq![save::one_prop("HA"@, text::decimal(what.handicap as nat))]
    } else {
        Seq::empty()
    };
    let c = if first != usual {
        seq![save::one_prop("PL"@, save::side_ident(first))]
    } else {
        Seq::empty()
    };
    if what.komi is Some {
        lemma_first_one(save::one_prop("KM"@, info::komi_text(what.komi->0)), name);
    }
    lemma_first_one(save::one_prop("HA"@, text::decimal(what.handicap as nat)), name);
    lemma_first_one(save::one_prop("PL"@, save::side_ident(first)), name);
    lemma_first_append(a, b, name);
    lemma_first_append(a + b, c, name);
    assert(save::start_props(what, first, usual) == a + b + c);
}

/// What the terms of play and the root comment say under a name.
spec fn said_terms(what: InfoView, name: Seq<char>) -> Option<PropView> {
    or_else(
        said("RU"@, what.rules, name),
        or_else(
            said("TM"@, what.time_limit, name),
            or_else(said("OT"@, what.overtime, name), said("C"@, what.root_comment, name)),
        ),
    )
}

proof fn lemma_first_terms(what: InfoView, name: Seq<char>)
    ensures
        first_named(save::terms_props(what), name) == said_terms(what, name),
{
    let a = save::text_prop("RU"@, what.rules);
    let b = save::text_prop("TM"@, what.time_limit);
    let c = save::text_prop("OT"@, what.overtime);
    let d = save::text_prop("C"@, what.root_comment);
    lemma_first_text("RU"@, what.rules, name);
    lemma_first_text("TM"@, what.time_limit, name);
    lemma_first_text("OT"@, what.overtime, name);
    lemma_first_text("C"@, what.root_comment, name);
    lemma_first_append(a, b, name);
    lemma_first_append(a + b, c, name);
    lemma_first_append(a + b + c, d, name);
}

/// What the players say under a name.
spec fn said_people(what: InfoView, name: Seq<char>) -> Option<PropView> {
    said_six(
        ("PB"@, what.player_black),
        ("PW"@, what.player_white),
        ("BR"@, what.rank_black),
        ("WR"@, what.rank_white),
        ("BT"@, what.team_black),
        ("WT"@, what.team_white),
        name,
    )
}

/// What the event says under a name.
spec fn said_event(what: InfoView, name: Seq<char>) -> Option<PropView> {
    said_six(
        ("RE"@, what.result),
        ("DT"@, what.date),
        ("EV"@, what.event),
        ("RO"@, what.round),
        ("PC"@, what.place),
        ("GN"@, what.game_name),
        name,
    )
}

/// What the information on the game says under a name.
spec fn said_info(b: BoardView, meta: Option<MetaView>, name: Seq<char>) -> Option<PropView> {
    match meta {
        None => None,
        Some(m) => or_else(
            said_start(m.info, save::first_player(b, meta), save::usual_first(b), name),
            or_else(
                said_people(m.info, name),
                or_else(said_event(m.info, name), said_terms(m.info, name)),
            ),
        ),
    }
}

proof fn lemma_first_info(b: BoardView, m: MetaView, name: Seq<char>)
    ensures
        first_named(save::info_props(b, m), name) == said_info(b, Some(m), name),
{
    let w = m.info;
    let s = save::start_props(w, save::first_player(b, Some(m)), save::usual_first(b));
    let p = save::people_props(w);
    let e = save::event_props(w);
    let t = save::terms_props(w);
    lemma_first_start(w, save::first_player(b, Some(m)), save::usual_first(b), name);
    lemma_first_six(
        ("PB"@, w.player_black),
        ("PW"@, w.player_white),
        ("BR"@, w.rank_black),
        ("WR"@, w.rank_white),
        ("BT"@, w.team_black),
        ("WT"@, w.team_white),
        name,
    );
    lemma_first_six(
        ("RE"@, w.result),
        ("DT"@, w.date),
        ("EV"@, w.event),
        ("RO"@, w.round),
        ("PC"@, w.place),
        ("GN"@, w.game_name),
        name,
    );
    lemma_first_terms(w, name);
    lemma_first_append(s, p, name);
    lemma_first_append(s + p, e, name);
    lemma_first_append(s + p + e, t, name);
}

/// What a list of points says under a name.
spec fn said_points(ident: Seq<char>, points: Seq<Coord>, name: Seq<char>) -> Option<PropView> {
    if points.len() > 0 && ident == name {
        Some(PropView { ident, values: points.map_values(|c: Coord| coord::sgf_text(c)) })
    } else {
        None
    }
}

proof fn lemma_first_points(ident: Seq<char>, points: Seq<Coord>, name: Seq<char>)
    ensures
        first_named(save::points_prop(ident, points), name) == said_points(ident, points, name),
{
    lemma_first_empty(name);
    lemma_first_one(
        PropView { ident, values: points.map_values(|c: Coord| coord::sgf_text(c)) },
        name,
    );
}

/// What the root says under one of the names that saving writes.
spec fn said_root(b: BoardView, meta: Option<MetaView>, name: Seq<char>) -> Option<PropView> {
    or_else(
        said_general(b.size, name),
        or_else(
            said_info(b, meta, name),
            or_else(
                said_points("AB"@, save::setup_stones(b, Stone::Black), name),
                said_points("AW"@, save::setup_stones(b, Stone::White), name),
            ),
        ),
    )
}

proof fn lemma_first_root(b: BoardView, meta: Option<MetaView>, name: Seq<char>)
    requires
        keeping::extras_clean(meta),
        load::owned_by_save(name),
    ensures
        first_named(save::root_node(b, meta).props, name) == said_root(b, meta, name),
{
    let g = save::general_props(b.size);
    let i = match meta {
        Some(m) => save::info_props(b, m),
        None => Seq::empty(),
    };
    let k = save::points_prop("AB"@, save::setup_stones(b, Stone::Black));
    let w = save::points_prop("AW"@, save::setup_stones(b, Stone::White));
    let x = save::extras_for(meta, SIG_INIT);
    lemma_first_general(b.size, name);
    lemma_first_empty(name);
    if meta is Some {
        lemma_first_info(b, meta->0, name);
    }
    lemma_first_points("AB"@, save::setup_stones(b, Stone::Black), name);
    lemma_first_points("AW"@, save::setup_stones(b, Stone::White), name);
    keeping::lemma_extras_other(meta, SIG_INIT, name);
    lemma_first_append(g, i, name);
    lemma_first_append(g + i, k, name);
    lemma_first_append(g + i + k, w, name);
    lemma_first_append(g + i + k + w, x, name);
    assert(save::root_node(b, meta).props == g + i + k + w + x);
}

// ---- what is read ----

/// What is known of the game that a board is saved for.
pub open spec fn known(b: BoardView, meta: Option<MetaView>) -> InfoView {
    match meta {
        Some(m) => m.info,
        None => info::GameInfo::blank_spec(b.size),
    }
}

/// What loading reads of the information on a game that was saved: the texts without white space
/// around them, and what saving itself writes.
pub open spec fn told(b: BoardView, meta: Option<MetaView>) -> InfoView {
    let what = known(b, meta);
    InfoView {
        size: b.size,
        komi: match what.komi {
            Some(k) => Some(info::komi_text(k)),
            None => None,
        },
        handicap: if what.handicap > 1 {
            what.handicap
        } else {
            0
        },
        initial_player: if meta is Some && save::first_player(b, meta) != save::usual_first(b) {
            Some(save::first_player(b, meta))
        } else {
            None
        },
        player_black: keeping::read_comment(what.player_black),
        player_white: keeping::read_comment(what.player_white),
        rank_black: keeping::read_comment(what.rank_black),
        rank_white: keeping::read_comment(what.rank_white),
        team_black: keeping::read_comment(what.team_black),
        team_white: keeping::read_comment(what.team_white),
        result: keeping::read_comment(what.result),
        date: keeping::read_comment(what.date),
        event: keeping::read_comment(what.event),
        round: keeping::read_comment(what.round),
        place: keeping::read_comment(what.place),
        game_name: keeping::read_comment(what.game_name),
        rules: keeping::read_comment(what.rules),
        time_limit: keeping::read_comment(what.time_limit),
        overtime: keeping::read_comment(what.overtime),
        application: Some("Guanqi:0.1.0"@),
        charset: Some("UTF-8"@),
        format: Some(4),
        root_comment: keeping::read_comment(what.root_comment),
        result_block: None,
    }
}

/// The text that the root says under a name.
proof fn lemma_text(b: BoardView, meta: Option<MetaView>, name: Seq<char>, value: Option<Seq<char>>)
    requires
        keeping::extras_clean(meta),
        load::owned_by_save(name),
        model::upper_text(name) == name,
        said_root(b, meta, name) == said(name, value, name),
    ensures
        info::text_in(save::root_node(b, meta), name) == keeping::read_comment(value),
{
    lemma_first_root(b, meta, name);
    let root = save::root_node(b, meta);
    assert(root.get(name) == first_named(root.props, name));
    match value {
        Some(v) if v.len() > 0 => {
            assert(root.text(name) == Some(v));
        },
        Some(v) => {
            text::lemma_trimmed_id(v);
        },
        None => {},
    }
}

proof fn lemma_people_read(b: BoardView, meta: Option<MetaView>)
    requires
        keeping::extras_clean(meta),
    ensures
        info::text_in(save::root_node(b, meta), "PB"@) == keeping::read_comment(known(b, meta).player_black),
        info::text_in(save::root_node(b, meta), "PW"@) == keeping::read_comment(known(b, meta).player_white),
        info::text_in(save::root_node(b, meta), "BR"@) == keeping::read_comment(known(b, meta).rank_black),
        info::text_in(save::root_node(b, meta), "WR"@) == keeping::read_comment(known(b, meta).rank_white),
        info::text_in(save::root_node(b, meta), "BT"@) == keeping::read_comment(known(b, meta).team_black),
        info::text_in(save::root_node(b, meta), "WT"@) == keeping::read_comment(known(b, meta).team_white),
{
    lemma_names();
    lemma_names_upper();
    lemma_text(b, meta, "PB"@, known(b, meta).player_black);
    lemma_text(b, meta, "PW"@, known(b, meta).player_white);
    lemma_text(b, meta, "BR"@, known(b, meta).rank_black);
    lemma_text(b, meta, "WR"@, known(b, meta).rank_white);
    lemma_text(b, meta, "BT"@, known(b, meta).team_black);
    lemma_text(b, meta, "WT"@, known(b, meta).team_white);
}

proof fn lemma_event_read(b: BoardView, meta: Option<MetaView>)
    requires
        keeping::extras_clean(meta),
    ensures
        info::text_in(save::root_node(b, meta), "RE"@) == keeping::read_comment(known(b, meta).result),
        info::text_in(save::root_node(b, meta), "DT"@) == keeping::read_comment(known(b, meta).date),
        info::text_in(save::root_node(b, meta), "EV"@) == keeping::read_comment(known(b, meta).event),
        info::text_in(save::root_node(b, meta), "RO"@) == keeping::read_comment(known(b, meta).round),
        info::text_in(save::root_node(b, meta), "PC"@) == keeping::read_comment(known(b, meta).place),
        info::text_in(save::root_node(b, meta), "GN"@) == keeping::read_comment(known(b, meta).game_name),
{
    lemma_names();
    lemma_names_upper();
    lemma_text(b, meta, "RE"@, known(b, meta).result);
    lemma_text(b, meta, "DT"@, known(b, meta).date);
    lemma_text(b, meta, "EV"@, known(b, meta).event);
    lemma_text(b, meta, "RO"@, known(b, meta).round);
    lemma_text(b, meta, "PC"@, known(b, meta).place);
    lemma_text(b, meta, "GN"@, known(b, meta).game_name);
}

proof fn lemma_terms_read(b: BoardView, meta: Option<MetaView>)
    requires
        keeping::extras_clean(meta),
    ensures
        info::text_in(save::root_node(b, meta), "RU"@) == keeping::read_comment(known(b, meta).rules),
        info::text_in(save::root_node(b, meta), "TM"@) == keeping::read_comment(known(b, meta).time_limit),
        info::text_in(save::root_node(b, meta), "OT"@) == keeping::read_comment(known(b, meta).overtime),
        info::text_in(save::root_node(b, meta), "C"@) == keeping::read_comment(known(b, meta).root_comment),
{
    lemma_names();
    lemma_names_upper();
    lemma_text(b, meta, "RU"@, known(b, meta).rules);
    lemma_text(b, meta, "TM"@, known(b, meta).time_limit);
    lemma_text(b, meta, "OT"@, known(b, meta).overtime);
    lemma_text(b, meta, "C"@, known(b, meta).root_comment);
}

/// What the root says under a name that holds one value.
proof fn lemma_value(b: BoardView, meta: Option<MetaView>, name: Seq<char>, value: Seq<char>)
    requires
        keeping::extras_clean(meta),
        load::owned_by_save(name),
        model::upper_text(name) == name,
        said_root(b, meta, name) == Some(save::one_prop(name, value)),
    ensures
        save::root_node(b, meta).trimmed(name) == Some(text::trimmed(value)),
{
    lemma_first_root(b, meta, name);
    let root = save::root_node(b, meta);
    assert(root.get(name) == first_named(root.props, name));
    assert(root.text(name) == Some(value));
}

/// What the root does not say.
proof fn lemma_unsaid(b: BoardView, meta: Option<MetaView>, name: Seq<char>)
    requires
        keeping::extras_clean(meta),
        load::owned_by_save(name),
        model::upper_text(name) == name,
        said_root(b, meta, name) is None,
    ensures
        save::root_node(b, meta).get(name) is None,
        save::root_node(b, meta).trimmed(name) is None,
{
    lemma_first_root(b, meta, name);
    let root = save::root_node(b, meta);
    assert(root.get(name) == first_named(root.props, name));
}

/// A number that was written reads back.
proof fn lemma_decimal_back(n: nat)
    requires
        n <= 255,
    ensures
        text::trimmed(text::decimal(n)) == text::decimal(n),
        text::parsed_unsigned(text::decimal(n), 255) == Some(n),
        info::size_parts(text::decimal(n)) == (text::decimal(n), text::decimal(n)),
{
    let s = text::decimal(n);
    text::lemma_decimal_digits(n);
    text::lemma_decimal_round_trip(n, 255);
    assert(text::is_digit(s[0]) && text::is_digit(s[s.len() - 1]));
    text::lemma_trimmed_id(s);
    lemma_no_colon(s, 0);
}

proof fn lemma_no_colon(s: Seq<char>, i: int)
    requires
        0 <= i,
        forall|k: int| 0 <= k < s.len() ==> text::is_digit(#[trigger] s[k]),
    ensures
        text::find_from(s, ':', i) is None,
    decreases s.len() - i,
{
    if i < s.len() {
        assert(text::is_digit(s[i]));
        lemma_no_colon(s, i + 1);
    }
}

/// What every record says reads back.
proof fn lemma_general_read(b: BoardView, meta: Option<MetaView>)
    requires
        b.size.wf(),
        keeping::extras_clean(meta),
    ensures
        ({
            let root = save::root_node(b, meta);
            &&& info::number_in(root, "GM"@) == Ok::<Option<u8>, Seq<char>>(Some(1))
            &&& info::number_in(root, "FF"@) == Ok::<Option<u8>, Seq<char>>(Some(4))
            &&& info::size_in(root) == Ok::<nat, ErrorView>(b.size.side())
            &&& info::text_in(root, "CA"@) == Some("UTF-8"@)
            &&& info::text_in(root, "AP"@) == Some("Guanqi:0.1.0"@)
        }),
{
    lemma_names();
    lemma_names_upper();
    lemma_value(b, meta, "GM"@, "1"@);
    lemma_value(b, meta, "FF"@, "4"@);
    lemma_value(b, meta, "SZ"@, text::decimal(b.size.side()));
    lemma_value(b, meta, "CA"@, "UTF-8"@);
    lemma_value(b, meta, "AP"@, "Guanqi:0.1.0"@);
    reveal_strlit("1");
    reveal_strlit("4");
    reveal_strlit("UTF-8");
    reveal_strlit("Guanqi:0.1.0");
    assert("1"@ =~= text::decimal(1)) by {
        reveal_with_fuel(text::decimal, 2);
    }
    assert("4"@ =~= text::decimal(4)) by {
        reveal_with_fuel(text::decimal, 2);
    }
    lemma_decimal_back(1);
    lemma_decimal_back(4);
    lemma_decimal_back(b.size.side());
    text::lemma_trimmed_id("UTF-8"@);
    text::lemma_trimmed_id("Guanqi:0.1.0"@);
}

/// Komi, handicap and the side to begin read back.
proof fn lemma_start_read(b: BoardView, meta: Option<MetaView>)
    requires
        keeping::extras_clean(meta),
    ensures
        ({
            let root = save::root_node(b, meta);
            &&& root.trimmed("KM"@) == told(b, meta).komi
            &&& info::number_in(root, "HA"@) == Ok::<Option<u8>, Seq<char>>(
                if known(b, meta).handicap > 1 {
                    Some(known(b, meta).handicap)
                } else {
                    None
                },
            )
            &&& info::player_in(root) == told(b, meta).initial_player
        }),
{
    lemma_names();
    lemma_names_upper();
    let what = known(b, meta);
    match what.komi {
        Some(k) => {
            lemma_value(b, meta, "KM"@, info::komi_text(k));
            info::lemma_komi_text(k);
        },
        None => {
            lemma_unsaid(b, meta, "KM"@);
        },
    }
    if what.handicap > 1 {
        lemma_value(b, meta, "HA"@, text::decimal(what.handicap as nat));
        lemma_decimal_back(what.handicap as nat);
    } else {
        lemma_unsaid(b, meta, "HA"@);
    }
    let first = save::first_player(b, meta);
    if meta is Some && first != save::usual_first(b) {
        lemma_value(b, meta, "PL"@, save::side_ident(first));
        reveal_strlit("B");
        reveal_strlit("W");
        let v = save::side_ident(first);
        text::lemma_trimmed_id(v);
        match first {
            Stone::Black => {
                assert(text::lower_text(v) =~= seq!['b']);
            },
            Stone::White => {
                assert(text::lower_text(v) =~= seq!['w']);
                assert(seq!['w'][0] != seq!['b'][0]);
            },
        }
    } else {
        lemma_unsaid(b, meta, "PL"@);
    }
}

/// The information on a game that was saved reads back.
pub(crate) proof fn lemma_info_read(b: BoardView, meta: Option<MetaView>)
    requires
        b.size.wf(),
        keeping::extras_clean(meta),
    ensures
        info::info_in(save::root_node(b, meta)) == told(b, meta),
{
    lemma_people_read(b, meta);
    lemma_event_read(b, meta);
    lemma_terms_read(b, meta);
    lemma_general_read(b, meta);
    lemma_start_read(b, meta);
    if let Some(k) = known(b, meta).komi {
        info::lemma_komi_text(k);
    }
    coord::lemma_size_of(b.size);
}

/// The information on a game that was saved can be read.
pub(crate) proof fn lemma_info_fine(b: BoardView, meta: Option<MetaView>)
    requires
        b.size.wf(),
        keeping::extras_clean(meta),
        known(b, meta).komi matches Some(k) ==> text::is_float(text::trimmed(k)),
    ensures
        info::info_error(save::saved_tree(b, meta)) is None,
{
    lemma_general_read(b, meta);
    lemma_start_read(b, meta);
    if let Some(k) = known(b, meta).komi {
        info::lemma_komi_text(k);
    }
    let t = save::saved_tree(b, meta);
    assert(t.nodes[0] == save::root_node(b, meta));
}

// ---- the starting position ----

/// Points that were written read back.
proof fn lemma_points_back(size: Size, ident: Seq<char>, points: Seq<Coord>)
    requires
        size.wf(),
        forall|i: int| 0 <= i < points.len() ==> (#[trigger] points[i]).on(size),
    ensures
        tree::points_in(size, ident, points.map_values(|c: Coord| coord::sgf_text(c))) == Ok::<
            Seq<Coord>,
            ErrorView,
        >(points),
    decreases points.len(),
{
    let vs = points.map_values(|c: Coord| coord::sgf_text(c));
    if points.len() > 0 {
        assert(points[0].on(size));
        coord::law_sgf_round_trip(points[0], size);
        let rest = points.skip(1);
        assert forall|i: int| 0 <= i < rest.len() implies (#[trigger] rest[i]).on(size) by {
            assert(rest[i] == points[i + 1]);
        }
        lemma_points_back(size, ident, rest);
        assert(vs.skip(1) =~= rest.map_values(|c: Coord| coord::sgf_text(c)));
        assert(seq![points[0]] + rest =~= points);
    } else {
        assert(points =~= Seq::empty());
    }
}

/// The stones of a colour are the points that hold one.
proof fn lemma_stones(size: Size, grid: Seq<Option<Stone>>, color: Stone, n: int)
    requires
        size.wf(),
        0 <= n <= size.points(),
    ensures
        ({
            let s = save::stones_of(size, grid, color, n);
            &&& forall|i: int|
                0 <= i < s.len() ==> (#[trigger] s[i]).on(size) && 0 <= s[i].idx(size) < n
                    && grid[s[i].idx(size)] == Some(color)
            &&& forall|j: int|
                0 <= j < n ==> (#[trigger] board::at_index(size, s, j) <==> grid[j] == Some(color))
        }),
    decreases n,
{
    if n > 0 {
        lemma_stones(size, grid, color, n - 1);
        let before = save::stones_of(size, grid, color, n - 1);
        let s = save::stones_of(size, grid, color, n);
        coord::lemma_point_at(size, n - 1);
        assert forall|i: int| 0 <= i < s.len() implies (#[trigger] s[i]).on(size) && 0
            <= s[i].idx(size) < n && grid[s[i].idx(size)] == Some(color) by {
            if i < before.len() {
                assert(s[i] == before[i]);
            }
        }
        assert forall|j: int| 0 <= j < n implies (#[trigger] board::at_index(size, s, j)
            <==> grid[j] == Some(color)) by {
            if j < n - 1 {
                assert(board::at_index(size, before, j) <==> grid[j] == Some(color));
                if board::at_index(size, before, j) {
                    let k = choose|k: int| 0 <= k < before.len() && (#[trigger] before[k]).idx(size) == j;
                    assert(s[k] == before[k]);
                }
                if board::at_index(size, s, j) {
                    let k = choose|k: int| 0 <= k < s.len() && (#[trigger] s[k]).idx(size) == j;
                    assert(k < before.len() ==> s[k] == before[k]);
                }
            } else {
                if grid[j] == Some(color) {
                    assert(s[before.len() as int].idx(size) == j);
                } else {
                    assert(s == before);
                }
            }
        }
    }
}

proof fn lemma_none_off(size: Size, s: Seq<Coord>)
    requires
        forall|i: int| 0 <= i < s.len() ==> (#[trigger] s[i]).on(size),
    ensures
        board::first_off(size, s) is None,
    decreases s.len(),
{
    if s.len() > 0 {
        assert(s[0].on(size));
        assert forall|i: int| 0 <= i < s.skip(1).len() implies (#[trigger] s.skip(1)[i]).on(size) by {
            assert(s.skip(1)[i] == s[i + 1]);
        }
        lemma_none_off(size, s.skip(1));
    }
}

proof fn lemma_none_shared(a: Seq<Coord>, b: Seq<Coord>)
    requires
        forall|i: int| 0 <= i < a.len() ==> !b.contains(#[trigger] a[i]),
    ensures
        board::first_shared(a, b) is None,
    decreases a.len(),
{
    if a.len() > 0 {
        assert(!b.contains(a[0]));
        assert forall|i: int| 0 <= i < a.skip(1).len() implies !b.contains(#[trigger] a.skip(1)[i]) by {
            assert(a.skip(1)[i] == a[i + 1]);
        }
        lemma_none_shared(a.skip(1), b);
    }
}

/// Setting up the stones of a position gives the position.
proof fn lemma_setup_back(b: BoardView, first: Stone)
    requires
        b.wf(),
    ensures
        board::setup_result(
            b.size,
            save::setup_stones(b, Stone::Black),
            save::setup_stones(b, Stone::White),
            Seq::empty(),
            first,
        ) == Ok::<BoardView, board::SetupError>(
            board::fresh_board(b.size, first, b.nodes[0].grid),
        ),
{
    let grid = b.nodes[0].grid;
    let n = b.size.points() as int;
    let black = save::setup_stones(b, Stone::Black);
    let white = save::setup_stones(b, Stone::White);
    lemma_stones(b.size, grid, Stone::Black, n);
    lemma_stones(b.size, grid, Stone::White, n);
    let all = black + white + Seq::<Coord>::empty();
    assert forall|i: int| 0 <= i < all.len() implies (#[trigger] all[i]).on(b.size) by {
        if i < black.len() {
            assert(all[i] == black[i]);
        } else {
            assert(all[i] == white[i - black.len()]);
        }
    }
    lemma_none_off(b.size, all);
    assert forall|i: int| 0 <= i < black.len() implies !white.contains(#[trigger] black[i]) by {
        if white.contains(black[i]) {
            let k = choose|k: int| 0 <= k < white.len() && white[k] == black[i];
            assert(grid[white[k].idx(b.size)] == Some(Stone::White));
        }
    }
    lemma_none_shared(black, white);
    let made = board::setup_grid(b.size, black, white, Seq::empty());
    assert forall|i: int| 0 <= i < made.len() implies made[i] == grid[i] by {
        assert(board::at_index(b.size, black, i) <==> grid[i] == Some(Stone::Black));
        assert(board::at_index(b.size, white, i) <==> grid[i] == Some(Stone::White));
        assert(!board::at_index(b.size, Seq::empty(), i));
        match grid[i] {
            None => {},
            Some(Stone::Black) => {},
            Some(Stone::White) => {},
        }
    }
    assert(made =~= grid);
}

/// Whether a board starts with stones, where it was set up and nothing removed.
pub(crate) proof fn lemma_setup_seen(
    b: BoardView,
    black: Seq<Coord>,
    white: Seq<Coord>,
    removed: Seq<Coord>,
)
    requires
        b.size.wf(),
        board::first_off(b.size, black + white + removed) is None,
        removed.len() == 0,
        b.nodes[0].grid == board::setup_grid(b.size, black, white, removed),
    ensures
        save::has_setup(b) == (black.len() > 0 || white.len() > 0),
{
    let grid = b.nodes[0].grid;
    let n = b.size.points() as int;
    lemma_stones(b.size, grid, Stone::Black, n);
    lemma_stones(b.size, grid, Stone::White, n);
    let all = black + white + removed;
    if all.len() > 0 {
        let c = all[0];
        lemma_none_off_at(b.size, all, 0);
        coord::lemma_idx_range(c, b.size);
        let i = c.idx(b.size);
        if black.len() > 0 {
            assert(black[0] == c);
            assert(board::at_index(b.size, black, i));
        } else {
            assert(white[0] == c);
            assert(board::at_index(b.size, white, i));
        }
        assert(grid[i] is Some);
        assert(board::at_index(b.size, save::setup_stones(b, grid[i]->0), i));
    } else {
        assert forall|i: int| 0 <= i < n implies (#[trigger] grid[i]) is None by {}
        if save::has_setup(b) {
            if save::setup_stones(b, Stone::Black).len() > 0 {
                let c = save::setup_stones(b, Stone::Black)[0];
                assert(grid[c.idx(b.size)] is Some);
            } else {
                let c = save::setup_stones(b, Stone::White)[0];
                assert(grid[c.idx(b.size)] is Some);
            }
        }
    }
}

proof fn lemma_none_off_at(size: Size, s: Seq<Coord>, i: int)
    requires
        board::first_off(size, s) is None,
        0 <= i < s.len(),
    ensures
        s[i].on(size),
    decreases s.len(),
{
    if i > 0 {
        lemma_none_off_at(size, s.skip(1), i - 1);
    }
}

/// Who begins after a board was saved and loaded.
pub open spec fn told_first(b: BoardView, meta: Option<MetaView>) -> Stone {
    match meta {
        Some(_) => save::first_player(b, meta),
        None => save::usual_first(b),
    }
}

/// The starting position of a board that was saved reads back.
pub(crate) proof fn lemma_start_board(b: BoardView, meta: Option<MetaView>)
    requires
        b.wf(),
        keeping::extras_clean(meta),
    ensures
        load::start_board(save::saved_tree(b, meta)) == Ok::<BoardView, load::LoadErrorView>(
            board::fresh_board(b.size, told_first(b, meta), b.nodes[0].grid),
        ),
{
    lemma_names();
    lemma_names_upper();
    let t = save::saved_tree(b, meta);
    let root = save::root_node(b, meta);
    assert(t.nodes[0] == root);
    lemma_info_read(b, meta);
    let n = b.size.points() as int;
    let black = save::setup_stones(b, Stone::Black);
    let white = save::setup_stones(b, Stone::White);
    lemma_stones(b.size, b.nodes[0].grid, Stone::Black, n);
    lemma_stones(b.size, b.nodes[0].grid, Stone::White, n);
    lemma_points_back(b.size, "AB"@, black);
    lemma_points_back(b.size, "AW"@, white);
    lemma_first_root(b, meta, "AB"@);
    lemma_first_root(b, meta, "AW"@);
    lemma_unsaid(b, meta, "AE"@);
    assert(root.get("AB"@) == first_named(root.props, "AB"@));
    assert(root.get("AW"@) == first_named(root.props, "AW"@));
    assert(tree::node_points(b.size, root, "AB"@) == Ok::<Seq<Coord>, ErrorView>(black)) by {
        if black.len() == 0 {
            assert(black =~= Seq::empty());
        }
    }
    assert(tree::node_points(b.size, root, "AW"@) == Ok::<Seq<Coord>, ErrorView>(white)) by {
        if white.len() == 0 {
            assert(white =~= Seq::empty());
        }
    }
    lemma_setup_back(b, told_first(b, meta));
}

/// Everything of one of the given names.
spec fn all_owned(ps: Seq<PropView>) -> bool {
    forall|i: int| 0 <= i < ps.len() ==> load::owned_by_save((#[trigger] ps[i]).ident)
}

proof fn lemma_owned_append(a: Seq<PropView>, b: Seq<PropView>)
    requires
        all_owned(a),
        all_owned(b),
    ensures
        all_owned(a + b),
{
    assert forall|i: int| 0 <= i < (a + b).len() implies load::owned_by_save(
        (#[trigger] (a + b)[i]).ident,
    ) by {
        if i < a.len() {
            assert((a + b)[i] == a[i]);
        } else {
            assert((a + b)[i] == b[i - a.len()]);
        }
    }
}

proof fn lemma_owned_six(
    a: Seq<PropView>,
    b: Seq<PropView>,
    c: Seq<PropView>,
    d: Seq<PropView>,
    e: Seq<PropView>,
    f: Seq<PropView>,
)
    requires
        all_owned(a),
        all_owned(b),
        all_owned(c),
        all_owned(d),
        all_owned(e),
        all_owned(f),
    ensures
        all_owned(a + b + c + d + e + f),
        all_owned(a + b + c + d),
        all_owned(a + b + c),
{
    lemma_owned_append(a, b);
    lemma_owned_append(a + b, c);
    lemma_owned_append(a + b + c, d);
    lemma_owned_append(a + b + c + d, e);
    lemma_owned_append(a + b + c + d + e, f);
}

/// What is written of a game is written under names of its own.
proof fn lemma_info_owned(b: BoardView, m: MetaView)
    ensures
        all_owned(save::info_props(b, m)),
{
    let what = m.info;
    let none = Seq::<PropView>::empty();
    assert(all_owned(none));
    lemma_owned_six(
        save::text_prop("PB"@, what.player_black),
        save::text_prop("PW"@, what.player_white),
        save::text_prop("BR"@, what.rank_black),
        save::text_prop("WR"@, what.rank_white),
        save::text_prop("BT"@, what.team_black),
        save::text_prop("WT"@, what.team_white),
    );
    lemma_owned_six(
        save::text_prop("RE"@, what.result),
        save::text_prop("DT"@, what.date),
        save::text_prop("EV"@, what.event),
        save::text_prop("RO"@, what.round),
        save::text_prop("PC"@, what.place),
        save::text_prop("GN"@, what.game_name),
    );
    lemma_owned_six(
        save::text_prop("RU"@, what.rules),
        save::text_prop("TM"@, what.time_limit),
        save::text_prop("OT"@, what.overtime),
        save::text_prop("C"@, what.root_comment),
        none,
        none,
    );
    let s = save::start_props(what, save::first_player(b, Some(m)), save::usual_first(b));
    assert(all_owned(s));
    lemma_owned_six(
        s,
        save::people_props(what),
        save::event_props(what),
        save::terms_props(what),
        none,
        none,
    );
}

/// What is kept of the root is what was kept for the starting position.
pub(crate) proof fn lemma_root_kept(b: BoardView, meta: Option<MetaView>)
    requires
        keeping::extras_clean(meta),
    ensures
        load::kept_props(save::root_node(b, meta).props) == save::extras_for(meta, SIG_INIT),
        info::text_in(save::root_node(b, meta), "C"@) == keeping::read_comment(
            known(b, meta).root_comment,
        ),
{
    lemma_terms_read(b, meta);
    let g = save::general_props(b.size);
    let i = match meta {
        Some(m) => save::info_props(b, m),
        None => Seq::empty(),
    };
    let k = save::points_prop("AB"@, save::setup_stones(b, Stone::Black));
    let w = save::points_prop("AW"@, save::setup_stones(b, Stone::White));
    let x = save::extras_for(meta, SIG_INIT);
    assert(all_owned(g));
    assert(all_owned(k));
    assert(all_owned(w));
    let none = Seq::<PropView>::empty();
    if meta is Some {
        lemma_info_owned(b, meta->0);
    }
    lemma_owned_six(g, i, k, w, none, none);
    keeping::lemma_kept_none(g + i + k + w);
    keeping::lemma_kept_append(g + i + k + w, x);
    lemma_names();
    keeping::lemma_extras_other(meta, SIG_INIT, "C"@);
    assert(none + x =~= x);
    assert(save::root_node(b, meta).props == g + i + k + w + x);
}

/// Properties that reading can give.
spec fn all_canonical(ps: Seq<PropView>) -> bool {
    forall|i: int| 0 <= i < ps.len() ==> laws::prop_canonical(#[trigger] ps[i])
}

proof fn lemma_canonical_append(a: Seq<PropView>, b: Seq<PropView>)
    requires
        all_canonical(a),
        all_canonical(b),
    ensures
        all_canonical(a + b),
{
    assert forall|i: int| 0 <= i < (a + b).len() implies laws::prop_canonical(
        #[trigger] (a + b)[i],
    ) by {
        if i < a.len() {
            assert((a + b)[i] == a[i]);
        } else {
            assert((a + b)[i] == b[i - a.len()]);
        }
    }
}

proof fn lemma_canonical_six(
    a: Seq<PropView>,
    b: Seq<PropView>,
    c: Seq<PropView>,
    d: Seq<PropView>,
    e: Seq<PropView>,
    f: Seq<PropView>,
)
    requires
        all_canonical(a),
        all_canonical(b),
        all_canonical(c),
        all_canonical(d),
        all_canonical(e),
        all_canonical(f),
    ensures
        all_canonical(a + b + c + d + e + f),
        all_canonical(a + b + c + d),
        all_canonical(a + b + c),
{
    lemma_canonical_append(a, b);
    lemma_canonical_append(a + b, c);
    lemma_canonical_append(a + b + c, d);
    lemma_canonical_append(a + b + c + d, e);
    lemma_canonical_append(a + b + c + d + e, f);
}

/// A name of two capitals that names no stones.
spec fn plain_name(ident: Seq<char>) -> bool {
    &&& 0 < ident.len() <= 2
    &&& forall|i: int| 0 <= i < ident.len() ==> 'A' <= #[trigger] ident[i] <= 'Z'
    &&& !model::takes_rects(ident)
}

proof fn lemma_plain_names()
    ensures
        plain_name("C"@),
        plain_name("GM"@),
        plain_name("FF"@),
        plain_name("CA"@),
        plain_name("AP"@),
        plain_name("SZ"@),
        plain_name("KM"@),
        plain_name("HA"@),
        plain_name("PL"@),
        plain_name("PB"@),
        plain_name("PW"@),
        plain_name("BR"@),
        plain_name("WR"@),
        plain_name("BT"@),
        plain_name("WT"@),
        plain_name("RE"@),
        plain_name("DT"@),
        plain_name("EV"@),
        plain_name("RO"@),
        plain_name("PC"@),
        plain_name("GN"@),
        plain_name("RU"@),
        plain_name("TM"@),
        plain_name("OT"@),
{
    lemma_names();
    let (ab, aw, ae) = (seq!['A', 'B'], seq!['A', 'W'], seq!['A', 'E']);
    assert(ab[0] == 'A' && ab[1] == 'B');
    assert(aw[0] == 'A' && aw[1] == 'W');
    assert(ae[0] == 'A' && ae[1] == 'E');
}

proof fn lemma_canonical_text(ident: Seq<char>, value: Option<Seq<char>>)
    requires
        plain_name(ident),
    ensures
        all_canonical(save::text_prop(ident, value)),
        forall|v: Seq<char>| all_canonical(seq![#[trigger] save::one_prop(ident, v)]),
{
}

proof fn lemma_canonical_points(ident: Seq<char>, points: Seq<Coord>)
    requires
        ident.len() == 2,
        forall|i: int| 0 <= i < ident.len() ==> 'A' <= #[trigger] ident[i] <= 'Z',
    ensures
        all_canonical(save::points_prop(ident, points)),
{
    if points.len() > 0 {
        let vs = points.map_values(|c: Coord| coord::sgf_text(c));
        assert forall|i: int| 0 <= i < vs.len() implies !model::is_rect(#[trigger] vs[i]) by {
            assert(vs[i] == coord::sgf_text(points[i]));
        }
    }
}

proof fn lemma_canonical_info(b: BoardView, m: MetaView)
    ensures
        all_canonical(save::info_props(b, m)),
{
    lemma_plain_names();
    let what = m.info;
    let none = Seq::<PropView>::empty();
    lemma_canonical_text("PB"@, what.player_black);
    lemma_canonical_text("PW"@, what.player_white);
    lemma_canonical_text("BR"@, what.rank_black);
    lemma_canonical_text("WR"@, what.rank_white);
    lemma_canonical_text("BT"@, what.team_black);
    lemma_canonical_text("WT"@, what.team_white);
    lemma_canonical_text("RE"@, what.result);
    lemma_canonical_text("DT"@, what.date);
    lemma_canonical_text("EV"@, what.event);
    lemma_canonical_text("RO"@, what.round);
    lemma_canonical_text("PC"@, what.place);
    lemma_canonical_text("GN"@, what.game_name);
    lemma_canonical_text("RU"@, what.rules);
    lemma_canonical_text("TM"@, what.time_limit);
    lemma_canonical_text("OT"@, what.overtime);
    lemma_canonical_text("C"@, what.root_comment);
    lemma_canonical_six(
        save::text_prop("PB"@, what.player_black),
        save::text_prop("PW"@, what.player_white),
        save::text_prop("BR"@, what.rank_black),
        save::text_prop("WR"@, what.rank_white),
        save::text_prop("BT"@, what.team_black),
        save::text_prop("WT"@, what.team_white),
    );
    lemma_canonical_six(
        save::text_prop("RE"@, what.result),
        save::text_prop("DT"@, what.date),
        save::text_prop("EV"@, what.event),
        save::text_prop("RO"@, what.round),
        save::text_prop("PC"@, what.place),
        save::text_prop("GN"@, what.game_name),
    );
    lemma_canonical_six(
        save::text_prop("RU"@, what.rules),
        save::text_prop("TM"@, what.time_limit),
        save::text_prop("OT"@, what.overtime),
        save::text_prop("C"@, what.root_comment),
        none,
        none,
    );
    let s = save::start_props(what, save::first_player(b, Some(m)), save::usual_first(b));
    assert(all_canonical(s));
    lemma_canonical_six(
        s,
        save::people_props(what),
        save::event_props(what),
        save::terms_props(what),
        none,
        none,
    );
}

/// The root of a saved record is one that reading can give.
pub(crate) proof fn lemma_root_canonical(b: BoardView, meta: Option<MetaView>)
    requires
        keeping::extras_clean(meta),
    ensures
        laws::node_canonical(save::root_node(b, meta)),
{
    lemma_names();
    lemma_plain_names();
    let g = save::general_props(b.size);
    let i = match meta {
        Some(m) => save::info_props(b, m),
        None => Seq::empty(),
    };
    let k = save::points_prop("AB"@, save::setup_stones(b, Stone::Black));
    let w = save::points_prop("AW"@, save::setup_stones(b, Stone::White));
    let x = save::extras_for(meta, SIG_INIT);
    if meta is Some {
        lemma_canonical_info(b, meta->0);
    }
    lemma_canonical_points("AB"@, save::setup_stones(b, Stone::Black));
    lemma_canonical_points("AW"@, save::setup_stones(b, Stone::White));
    assert(all_canonical(x)) by {
        assert forall|j: int| 0 <= j < x.len() implies laws::prop_canonical(#[trigger] x[j]) by {
            assert(keeping::can_keep(save::extras_for(meta, SIG_INIT)[j]));
        }
    }
    lemma_canonical_six(g, i, k, w, x, Seq::empty());
    let props = save::root_node(b, meta).props;
    assert(props =~= g + i + k + w + x + Seq::<PropView>::empty());
    assert forall|j: int| 0 <= j < props.len() implies laws::prop_canonical(#[trigger] props[j]) by {}
}

} // verus!
