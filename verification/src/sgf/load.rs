//! Loading a record into a board.
//!
//! The whole tree is loaded: the first variation of every tree is the main one, the others follow
//! in order. The `AB`, `AW` and `AE` of the root make the starting position; without a `PL`, White
//! moves first where there is one and Black where there is none. The moves of the nodes after the
//! root are then replayed.
//!
//! A move that cannot be played ends its line but not the load: on the main line the game counts
//! as loaded in part, in a variation the variation is dropped. Both, and stones that are put down
//! in mid-game, are reported.
//!
//! Comments and properties that nothing here writes are kept with the position that they belong
//! to. The key is a hash of the moves that lead there, so it survives saving and loading.

use vstd::prelude::*;
use std::collections::HashMap;
use super::error::{ErrorView, SgfError};
use super::info::{self, GameInfo, InfoView};
use super::model::{self, NodeView, PropView, TreeView};
use super::tree::{self, GameTree, Node, Property};
use crate::board::{self, Action, Board, BoardView, MoveRecord, RecordView, SetupError, Size, Stone};
use crate::text::{self, push_decimal, same_text};

verus! {

broadcast use vstd::std_specs::hash::group_hash_axioms;

// ---- position signatures ----

/// The signature of the starting position.
pub const SIG_INIT: u64 = 0xcbf2_9ce4_8422_2325;

/// A signature with one more byte hashed in (FNV-1a).
pub open spec fn mixed(h: u64, b: u8) -> u64 {
    (h ^ (b as u64)).wrapping_mul(0x0000_0100_0000_01b3)
}

/// A signature with one more move hashed in: the side, then the point or the pass.
pub open spec fn mixed_move(h: u64, r: RecordView) -> u64 {
    let h1 = mixed(
        h,
        if r.player == Stone::Black {
            1
        } else {
            0
        },
    );
    match r.action {
        Action::Place(c) => mixed(mixed(mixed(h1, 1), c.col() as u8), c.row() as u8),
        Action::Pass => mixed(h1, 0),
    }
}

/// The signature of the position that a row of moves leads to.
pub open spec fn sig_of(records: Seq<RecordView>) -> u64
    decreases records.len(),
{
    if records.len() == 0 {
        SIG_INIT
    } else {
        mixed_move(sig_of(records.drop_last()), records.last())
    }
}

/// The signature of the position at the cursor.
pub open spec fn sig_here(b: BoardView) -> u64 {
    sig_of(board::model::path_records(b.nodes, b.current))
}

fn mix(h: u64, b: u8) -> (r: u64)
    ensures
        r == mixed(h, b),
{
    (h ^ (b as u64)).wrapping_mul(0x0000_0100_0000_01b3)
}

/// Hashes one more move into a signature.
pub(crate) fn sig_with_record(sig: u64, record: &MoveRecord) -> (r: u64)
    ensures
        r == mixed_move(sig, record@),
{
    let side: u8 = match record.player {
        Stone::Black => 1,
        Stone::White => 0,
    };
    let h = mix(sig, side);
    match record.action {
        Action::Place(c) => mix(mix(mix(h, 1), c.x()), c.y()),
        Action::Pass => mix(h, 0),
    }
}

/// The signature of the position that a row of moves leads to.
pub fn position_sig(records: &[MoveRecord]) -> (r: u64)
    ensures
        r == sig_of(board::record_views(records@)),
{
    let mut h: u64 = SIG_INIT;
    let ghost views = board::record_views(records@);
    let mut i: usize = 0;
    while i < records.len()
        invariant
            i <= records@.len(),
            views == board::record_views(records@),
            h == sig_of(views.take(i as int)),
        decreases records@.len() - i,
    {
        h = sig_with_record(h, &records[i]);
        proof {
            assert(views.take(i + 1).drop_last() =~= views.take(i as int));
            assert(views.take(i + 1).last() == records@[i as int]@);
        }
        i += 1;
    }
    assert(views.take(i as int) =~= views);
    h
}

// ---- what is kept beside the board ----

/// What is kept of a record beside the board.
pub struct GameMeta {
    /// Where the record came from.
    pub source: String,
    /// What the root says of the game.
    pub info: GameInfo,
    pub(crate) comments: HashMap<u64, String>,
    pub(crate) extras: HashMap<u64, Vec<Property>>,
}

/// The model of [`GameMeta`].
#[verifier::ext_equal]
pub struct MetaView {
    pub source: Seq<char>,
    pub info: InfoView,
    /// The comment of each position, by signature.
    pub comments: Map<u64, Seq<char>>,
    /// The other properties kept for each position, by signature.
    pub extras: Map<u64, Seq<PropView>>,
}

/// The texts of a map of strings.
pub open spec fn comment_view(m: Map<u64, String>) -> Map<u64, Seq<char>> {
    m.map_values(|s: String| s@)
}

/// The views of a map of properties.
pub open spec fn extra_view(m: Map<u64, Vec<Property>>) -> Map<u64, Seq<PropView>> {
    m.map_values(|v: Vec<Property>| tree::prop_views(v@))
}

impl View for GameMeta {
    type V = MetaView;

    closed spec fn view(&self) -> MetaView {
        MetaView {
            source: self.source@,
            info: self.info@,
            comments: comment_view(self.comments@),
            extras: extra_view(self.extras@),
        }
    }
}

/// How many properties a map holds in all.
pub open spec fn total_props(m: Map<u64, Seq<PropView>>) -> nat
    decreases m.dom().len(),
    when m.dom().finite()
{
    if m.dom().len() == 0 {
        0
    } else {
        let k = m.dom().choose();
        m[k].len() + total_props(m.remove(k))
    }
}

proof fn lemma_total_remove(m: Map<u64, Seq<PropView>>, k: u64)
    requires
        m.dom().finite(),
        m.contains_key(k),
    ensures
        total_props(m) == m[k].len() + total_props(m.remove(k)),
    decreases m.dom().len(),
{
    let c = m.dom().choose();
    assert(m.dom().contains(c)) by {
        assert(m.dom().contains(k));
    }
    assert(m.dom().len() > 0) by {
        if m.dom().len() == 0 {
            m.dom().lemma_len0_is_empty();
        }
    }
    assert(m.remove(k).dom() =~= m.dom().remove(k));
    assert(m.remove(c).dom() =~= m.dom().remove(c));
    if c != k {
        lemma_total_remove(m.remove(c), k);
        lemma_total_remove(m.remove(k), c);
        assert(m.remove(c).remove(k) =~= m.remove(k).remove(c));
    }
}

impl GameMeta {
    /// What is known of a game that has not been loaded from a record.
    pub fn for_path(source: &str, size: Size) -> (r: Self)
        ensures
            r@ == (MetaView {
                source: source@,
                info: GameInfo::blank_spec(size),
                comments: Map::empty(),
                extras: Map::empty(),
            }),
    {
        let r = Self {
            source: source.to_owned(),
            info: GameInfo::blank(size),
            comments: HashMap::new(),
            extras: HashMap::new(),
        };
        assert(r@.comments =~= Map::empty());
        assert(r@.extras =~= Map::empty());
        r
    }

    /// The comment of the position at the cursor.
    pub fn comment_at(&self, board: &Board) -> (r: Option<&str>)
        requires
            board.wf(),
        ensures
            match r {
                Some(s) => self@.comments.contains_pair(sig_here(board@), s@),
                None => !self@.comments.contains_key(sig_here(board@)),
            },
    {
        self.comment_by_sig(position_sig(board.records()))
    }

    /// The comment of the position with the given signature.
    pub fn comment_by_sig(&self, sig: u64) -> (r: Option<&str>)
        ensures
            match r {
                Some(s) => self@.comments.contains_pair(sig, s@),
                None => !self@.comments.contains_key(sig),
            },
    {
        match self.comments.get(&sig) {
            Some(s) => Some(s.as_str()),
            None => None,
        }
    }

    /// The other properties kept for the position with the given signature.
    pub fn extras_by_sig(&self, sig: u64) -> (r: &[Property])
        ensures
            tree::prop_views(r@) == if self@.extras.contains_key(sig) {
                self@.extras[sig]
            } else {
                Seq::empty()
            },
    {
        match self.extras.get(&sig) {
            Some(v) => v.as_slice(),
            None => {
                let none: &[Property] = &[];
                assert(tree::prop_views(none@) =~= Seq::<PropView>::empty());
                none
            },
        }
    }

    /// How many properties are kept beside the ones that saving writes itself (the largest machine
    /// number, should there be more).
    pub fn extras_count(&self) -> (r: usize)
        ensures
            r == model::clipped(total_props(self@.extras)),
    {
        let mut n: usize = 0;
        let ghost all = self@.extras;
        let ghost mut left = all;
        let ghost mut i: int = 0;
        let keys = self.extras.keys();
        let ghost ks = vstd::std_specs::iter::IteratorSpec::remaining(&keys).unref();
        proof {
            assert(all.dom() =~= self.extras@.dom());
            assert(ks.take(0) =~= Seq::<u64>::empty());
        }
        for k in it: keys
            invariant
                all == extra_view(self.extras@),
                all.dom().finite(),
                it.seq().unref() == ks,
                it.seq().no_duplicates(),
                ks.to_set() == all.dom(),
                i == it.index(),
                left.dom().finite(),
                forall|x: u64| #[trigger]
                    left.contains_key(x) <==> all.contains_key(x) && !ks.take(i).contains(x),
                forall|x: u64| left.contains_key(x) ==> #[trigger] left[x] == all[x],
                n == model::clipped((total_props(all) - total_props(left)) as nat),
                total_props(left) <= total_props(all),
        {
            proof {
                assert(ks[i] == *k);
                assert(ks.to_set().contains(*k)) by {
                    assert(ks.contains(ks[i]));
                }
                assert(!ks.take(i).contains(*k)) by {
                    if ks.take(i).contains(*k) {
                        let j = choose|j: int| 0 <= j < i && ks.take(i)[j] == *k;
                        assert(it.seq()[j] == it.seq()[i]);
                    }
                }
                assert(left.contains_key(*k));
                lemma_total_remove(left, *k);
            }
            match self.extras.get(k) {
                Some(v) => {
                    assert(left[*k].len() == v@.len());
                    n = n.saturating_add(v.len());
                },
                None => {
                    assert(false);
                },
            }
            proof {
                left = left.remove(*k);
                let more = ks.take(i + 1);
                assert(more =~= ks.take(i).push(*k));
                assert forall|x: u64| #[trigger] left.contains_key(x) <==> all.contains_key(x)
                    && !more.contains(x) by {
                    if ks.take(i).contains(x) {
                        let j = choose|j: int| 0 <= j < i && ks.take(i)[j] == x;
                        assert(more[j] == x);
                    }
                    if x == *k {
                        assert(more[i] == x);
                    }
                    if more.contains(x) && x != *k {
                        let j = choose|j: int| 0 <= j < more.len() && more[j] == x;
                        assert(ks.take(i)[j] == x);
                    }
                }
                i = i + 1;
            }
        }
        proof {
            assert(ks.take(i) =~= ks);
            assert(left.dom() =~= Set::empty()) by {
                assert forall|x: u64| !left.contains_key(x) by {
                    if left.contains_key(x) {
                        assert(ks.to_set().contains(x));
                    }
                }
            }
        }
        n
    }
}

impl GameMeta {
    /// Replaces what is known of the game.
    pub fn set_info(&mut self, info: GameInfo)
        ensures
            final(self)@ == (MetaView { info: info@, ..old(self)@ }),
    {
        self.info = info;
    }

    /// Replaces where the record came from.
    pub fn set_source(&mut self, source: String)
        ensures
            final(self)@ == (MetaView { source: source@, ..old(self)@ }),
    {
        self.source = source;
    }

    /// What is known of the game.
    pub fn info(&self) -> (r: &GameInfo)
        ensures
            r@ == self@.info,
    {
        &self.info
    }

    /// Where the record came from.
    pub fn source(&self) -> (r: &str)
        ensures
            r@ == self@.source,
    {
        self.source.as_str()
    }
}

impl Clone for GameMeta {
    fn clone(&self) -> (r: Self)
        ensures
            r@ == self@,
    {
        GameMeta {
            source: self.source.clone(),
            info: self.info.clone(),
            comments: self.comments.clone(),
            extras: self.extras.clone(),
        }
    }
}

// ---- properties that are kept ----

/// The properties that saving writes itself; keeping them too would write them twice.
pub open spec fn owned_by_save(ident: Seq<char>) -> bool {
    ||| ident == "B"@
    ||| ident == "W"@
    ||| ident == "C"@
    ||| ident == "KM"@
    ||| ident == "HA"@
    ||| ident == "PL"@
    ||| ident == "PB"@
    ||| ident == "PW"@
    ||| ident == "BR"@
    ||| ident == "WR"@
    ||| ident == "BT"@
    ||| ident == "WT"@
    ||| ident == "RE"@
    ||| ident == "DT"@
    ||| ident == "EV"@
    ||| ident == "RO"@
    ||| ident == "PC"@
    ||| ident == "GN"@
    ||| ident == "RU"@
    ||| ident == "TM"@
    ||| ident == "OT"@
    ||| ident == "GM"@
    ||| ident == "FF"@
    ||| ident == "CA"@
    ||| ident == "AP"@
    ||| ident == "SZ"@
    ||| ident == "AB"@
    ||| ident == "AW"@
    ||| ident == "AE"@
}

/// The properties that are kept as they are.
pub open spec fn kept_props(ps: Seq<PropView>) -> Seq<PropView>
    decreases ps.len(),
{
    if ps.len() == 0 {
        Seq::empty()
    } else if owned_by_save(ps.last().ident) {
        kept_props(ps.drop_last())
    } else {
        kept_props(ps.drop_last()).push(ps.last())
    }
}

fn is_owned_by_save(ident: &str) -> (r: bool)
    ensures
        r == owned_by_save(ident@),
{
    same_text(ident, "B") || same_text(ident, "W") || same_text(ident, "C")
        || same_text(ident, "KM") || same_text(ident, "HA") || same_text(ident, "PL")
        || same_text(ident, "PB") || same_text(ident, "PW") || same_text(ident, "BR")
        || same_text(ident, "WR") || same_text(ident, "BT") || same_text(ident, "WT")
        || same_text(ident, "RE") || same_text(ident, "DT") || same_text(ident, "EV")
        || same_text(ident, "RO") || same_text(ident, "PC") || same_text(ident, "GN")
        || same_text(ident, "RU") || same_text(ident, "TM") || same_text(ident, "OT")
        || same_text(ident, "GM") || same_text(ident, "FF") || same_text(ident, "CA")
        || same_text(ident, "AP") || same_text(ident, "SZ") || same_text(ident, "AB")
        || same_text(ident, "AW") || same_text(ident, "AE")
}

/// The properties of a node that are kept as they are.
fn collect_extras(node: &Node) -> (r: Vec<Property>)
    ensures
        tree::prop_views(r@) == kept_props(node@.props),
{
    let mut out: Vec<Property> = Vec::new();
    let ghost ps = node@.props;
    let mut i: usize = 0;
    assert(tree::prop_views(out@) =~= kept_props(ps.take(0)));
    while i < node.props.len()
        invariant
            i <= node.props@.len(),
            ps == node@.props,
            tree::prop_views(out@) == kept_props(ps.take(i as int)),
        decreases node.props@.len() - i,
    {
        proof {
            assert(ps.take(i + 1).drop_last() =~= ps.take(i as int));
            assert(ps.take(i + 1).last() == node.props@[i as int]@);
        }
        if !is_owned_by_save(node.props[i].ident.as_str()) {
            let ghost before = out@;
            let p = node.props[i].copy();
            out.push(p);
            assert(tree::prop_views(out@) =~= tree::prop_views(before).push(p@));
        }
        i += 1;
    }
    assert(ps.take(i as int) =~= ps);
    out
}

// ---- replaying ----

/// Why a record cannot be loaded at all.
#[derive(Debug)]
pub enum LoadError {
    /// The text or the root node is at fault.
    Parse(SgfError),
    /// The starting position is at fault.
    Setup(SetupError),
}

/// The model of [`LoadError`].
pub enum LoadErrorView {
    Parse(ErrorView),
    Setup(SetupError),
}

impl View for LoadError {
    type V = LoadErrorView;

    open spec fn view(&self) -> LoadErrorView {
        match *self {
            LoadError::Parse(e) => LoadErrorView::Parse(e@),
            LoadError::Setup(e) => LoadErrorView::Setup(e),
        }
    }
}

impl LoadErrorView {
    /// The message shown to the user.
    pub open spec fn message(self) -> Seq<char> {
        match self {
            LoadErrorView::Parse(e) => e.message(),
            LoadErrorView::Setup(e) => "预设摆子非法："@ + e.message_spec(),
        }
    }
}

impl LoadError {
    /// The message shown to the user.
    pub fn message(&self) -> (r: String)
        ensures
            r@ == self@.message(),
    {
        match self {
            LoadError::Parse(e) => e.message(),
            LoadError::Setup(e) => {
                let mut out = "预设摆子非法：".to_owned();
                out.append(e.message().as_str());
                out
            },
        }
    }
}

/// What comes of playing the move of a node: the board after it, `None` where the node makes no
/// move, or why the move cannot be played.
pub open spec fn played_node(b: BoardView, n: NodeView) -> Result<Option<BoardView>, Seq<char>> {
    match tree::move_in(b.size, n.props) {
        Err(e) => Err(e.message()),
        Ok(None) => Ok(None),
        Ok(Some((stone, action))) => if stone != b.to_play() {
            Err(
                "谱中行棋方为"@ + stone.name_spec() + "，实际轮到"@ + b.to_play().name_spec(),
            )
        } else {
            match action {
                Action::Pass => Ok(Some(b.passed())),
                Action::Place(at) => match b.played(at) {
                    Ok(v) => Ok(Some(v)),
                    Err(e) => Err(e.message_spec()),
                },
            }
        },
    }
}

/// Plays the move of a node. `Ok(false)` where the node makes no move; `Err` with the reason, and
/// nothing changed, where the move cannot be played.
pub fn play_node(board: &mut Board, node: &Node) -> (r: Result<bool, String>)
    requires
        old(board).wf(),
    ensures
        final(board).wf(),
        match played_node(old(board)@, node@) {
            Ok(Some(v)) => r == Ok::<bool, String>(true) && final(board)@ == v,
            Ok(None) => r == Ok::<bool, String>(false) && final(board)@ == old(board)@,
            Err(m) => (r matches Err(s) && s@ == m) && final(board)@ == old(board)@,
        },
{
    let (stone, action) = match node.move_action(board.size()) {
        Ok(Some(pair)) => pair,
        Ok(None) => {
            return Ok(false);
        },
        Err(e) => {
            return Err(e.message());
        },
    };
    if stone != board.to_play() {
        let mut out = "谱中行棋方为".to_owned();
        out.append(stone.name());
        out.append("，实际轮到");
        out.append(board.to_play().name());
        return Err(out);
    }
    match action {
        Action::Place(at) => match board.play(at) {
            Ok(_) => Ok(true),
            Err(e) => Err(e.message().to_owned()),
        },
        Action::Pass => {
            board.pass();
            Ok(true)
        },
    }
}

/// The state of a load.
#[verifier::ext_equal]
pub struct LoadView {
    pub board: BoardView,
    pub comments: Map<u64, Seq<char>>,
    pub extras: Map<u64, Seq<PropView>>,
    /// How many kept properties belong to no position.
    pub orphans: usize,
    /// How many comments belong to no position.
    pub dropped: usize,
    pub warnings: Seq<Seq<char>>,
    /// Whether the main line ended early.
    pub partial: bool,
}

/// Where a warning arose: the move number, and the variation it is in.
pub open spec fn site(turn: nat, label: Option<Seq<char>>) -> Seq<char> {
    match label {
        None => "第 "@ + text::decimal(turn) + " 手"@,
        Some(path) => "第 "@ + text::decimal(turn) + " 手（"@ + path + "内）"@,
    }
}

/// Whether a node puts down or removes stones outside of play.
pub open spec fn sets_up(n: NodeView) -> bool {
    n.get("AB"@) is Some || n.get("AW"@) is Some || n.get("AE"@) is Some
}

/// Adds up to the largest machine number.
pub open spec fn sat_sum(a: usize, b: nat) -> usize {
    model::clipped(a as nat + b)
}

/// The state after one node, and whether its line goes on.
pub open spec fn after_node(st: LoadView, n: NodeView, label: Option<Seq<char>>) -> (
    LoadView,
    bool,
) {
    let turn = (st.board.here().depth + 1) as nat;
    let kept = kept_props(n.props);
    let comment = info::text_in(n, "C"@);
    let warnings = if sets_up(n) {
        st.warnings.push(site(turn, label) + "含中途摆子（AB/AW/AE），已忽略"@)
    } else {
        st.warnings
    };
    match played_node(st.board, n) {
        Ok(Some(b)) => (
            LoadView {
                board: b,
                comments: match comment {
                    Some(c) => st.comments.insert(sig_here(b), c),
                    None => st.comments,
                },
                extras: if kept.len() > 0 {
                    st.extras.insert(sig_here(b), kept)
                } else {
                    st.extras
                },
                warnings,
                ..st
            },
            true,
        ),
        Ok(None) => (
            LoadView {
                orphans: sat_sum(st.orphans, kept.len()),
                dropped: if comment is Some {
                    sat_sum(st.dropped, 1)
                } else {
                    st.dropped
                },
                warnings,
                ..st
            },
            true,
        ),
        Err(reason) => (
            LoadView {
                orphans: sat_sum(st.orphans, kept.len()),
                partial: st.partial || label is None,
                warnings: warnings.push(
                    if label is None {
                        site(turn, label) + "无法载入："@ + reason
                    } else {
                        site(turn, label) + "无法载入："@ + reason + "，该分支已舍弃"@
                    },
                ),
                ..st
            },
            false,
        ),
    }
}

/// How many kept properties nodes hold.
pub open spec fn kept_in_nodes(ns: Seq<NodeView>) -> nat
    decreases ns.len(),
{
    if ns.len() == 0 {
        0
    } else {
        kept_props(ns[0].props).len() + kept_in_nodes(ns.skip(1))
    }
}

/// How many kept properties a game tree holds.
pub open spec fn kept_in_tree(t: TreeView) -> nat
    decreases t, 0int,
{
    kept_in_nodes(t.nodes) + kept_in_trees(t.children)
}

/// How many kept properties game trees hold.
pub open spec fn kept_in_trees(ts: Seq<TreeView>) -> nat
    decreases ts, 1int,
{
    if ts.len() == 0 {
        0
    } else {
        kept_in_tree(ts[0]) + kept_in_trees(ts.skip(1))
    }
}

/// The state with more kept properties that belong to no position.
pub open spec fn losing(st: LoadView, n: nat) -> LoadView {
    LoadView { orphans: sat_sum(st.orphans, n), ..st }
}

/// The state after a chain of nodes, and whether its line goes on; behind a move that cannot be
/// played every node is lost, with the properties it holds.
pub open spec fn after_nodes(st: LoadView, ns: Seq<NodeView>, label: Option<Seq<char>>) -> (
    LoadView,
    bool,
)
    decreases ns.len(),
{
    if ns.len() == 0 {
        (st, true)
    } else {
        let (next, on) = after_node(st, ns[0], label);
        if on {
            after_nodes(next, ns.skip(1), label)
        } else {
            (losing(next, kept_in_nodes(ns.skip(1))), false)
        }
    }
}

/// The label of variation number `i` after a move with number `n - 1`.
pub open spec fn child_label(label: Option<Seq<char>>, n: nat, i: nat) -> Option<Seq<char>> {
    if i == 0 {
        label
    } else {
        Some(
            match label {
                Some(path) => path + "的第 "@ + text::decimal(i) + " 个变着"@,
                None => "第 "@ + text::decimal(n) + " 手的第 "@ + text::decimal(i) + " 个变着"@,
            },
        )
    }
}

/// The state with the cursor back at node `fork`.
pub open spec fn back_to(st: LoadView, fork: usize) -> LoadView {
    if fork < st.board.nodes.len() {
        LoadView { board: st.board.jumped(fork), ..st }
    } else {
        st
    }
}

/// The state after a game tree; the first node of the outermost tree is the root, which makes no
/// move. Where its line ends early its variations are lost too.
pub open spec fn after_tree(
    st: LoadView,
    t: TreeView,
    label: Option<Seq<char>>,
    skip_first: bool,
) -> LoadView
    decreases t, 0int,
{
    let ns = if skip_first && t.nodes.len() > 0 {
        t.nodes.skip(1)
    } else {
        t.nodes
    };
    let (next, on) = after_nodes(st, ns, label);
    if on {
        after_children(next, t.children, 0, next.board.current, label)
    } else {
        losing(next, kept_in_trees(t.children))
    }
}

/// The state after variations `i` and following, all of which start at node `fork`.
pub open spec fn after_children(
    st: LoadView,
    ts: Seq<TreeView>,
    i: nat,
    fork: usize,
    label: Option<Seq<char>>,
) -> LoadView
    decreases ts, 1int,
{
    if ts.len() == 0 {
        st
    } else {
        let back = back_to(st, fork);
        let name = child_label(label, (back.board.here().depth + 1) as nat, i);
        after_children(after_tree(back, ts[0], name, false), ts.skip(1), i + 1, fork, label)
    }
}

/// The board after replaying nodes, as far as their moves can be played.
pub open spec fn replayed(b: BoardView, ns: Seq<NodeView>) -> BoardView
    decreases ns.len(),
{
    if ns.len() == 0 {
        b
    } else {
        match played_node(b, ns[0]) {
            Ok(Some(next)) => replayed(next, ns.skip(1)),
            Ok(None) => replayed(b, ns.skip(1)),
            Err(_) => b,
        }
    }
}

struct Loader {
    board: Board,
    comments: HashMap<u64, String>,
    extras: HashMap<u64, Vec<Property>>,
    orphans: usize,
    dropped: usize,
    warnings: Vec<String>,
    partial: bool,
}

impl View for Loader {
    type V = LoadView;

    closed spec fn view(&self) -> LoadView {
        LoadView {
            board: self.board@,
            comments: comment_view(self.comments@),
            extras: extra_view(self.extras@),
            orphans: self.orphans,
            dropped: self.dropped,
            warnings: tree::texts(self.warnings@),
            partial: self.partial,
        }
    }
}

/// The text of an optional string slice.
pub open spec fn label_view(label: Option<&str>) -> Option<Seq<char>> {
    match label {
        Some(s) => Some(s@),
        None => None,
    }
}

fn site_text(turn: usize, label: Option<&str>) -> (r: String)
    ensures
        r@ == site(turn as nat, label_view(label)),
{
    let mut out = "第 ".to_owned();
    push_decimal(&mut out, turn as u64);
    match label {
        None => {
            out.append(" 手");
        },
        Some(path) => {
            out.append(" 手（");
            out.append(path);
            out.append("内）");
        },
    }
    out
}

impl Loader {
    fn warn(&mut self, text: String)
        ensures
            final(self)@ == (LoadView { warnings: old(self)@.warnings.push(text@), ..old(self)@ }),
            final(self).board == old(self).board,
    {
        let ghost before = self.warnings@;
        self.warnings.push(text);
        assert(tree::texts(self.warnings@) =~= tree::texts(before).push(text@));
    }

    /// Loads one node; returns whether its line goes on.
    fn node(&mut self, node: &Node, label: Option<&str>) -> (r: bool)
        requires
            old(self).board.wf(),
        ensures
            final(self).board.wf(),
            (final(self)@, r) == after_node(old(self)@, node@, label_view(label)),
    {
        let turn = self.board.cursor() + 1;
        if node.get("AB").is_some() || node.get("AW").is_some() || node.get("AE").is_some() {
            let mut out = site_text(turn, label);
            out.append("含中途摆子（AB/AW/AE），已忽略");
            self.warn(out);
        }
        let comment = info::read_text(node, "C");
        let props = collect_extras(node);
        assert(tree::prop_views(props@).len() == props@.len());
        match play_node(&mut self.board, node) {
            Ok(true) => {
                let sig = position_sig(self.board.records());
                if let Some(c) = comment {
                    let ghost before = self.comments@;
                    self.comments.insert(sig, c);
                    assert(comment_view(self.comments@) =~= comment_view(before).insert(sig, c@));
                }
                if props.len() > 0 {
                    let ghost before = self.extras@;
                    self.extras.insert(sig, props);
                    assert(extra_view(self.extras@) =~= extra_view(before).insert(
                        sig,
                        tree::prop_views(props@),
                    ));
                }
                true
            },
            Ok(false) => {
                self.orphans = self.orphans.saturating_add(props.len());
                if comment.is_some() {
                    self.dropped = self.dropped.saturating_add(1);
                }
                true
            },
            Err(reason) => {
                self.orphans = self.orphans.saturating_add(props.len());
                let mut out = site_text(turn, label);
                out.append("无法载入：");
                out.append(reason.as_str());
                if label.is_none() {
                    self.partial = true;
                } else {
                    out.append("，该分支已舍弃");
                }
                self.warn(out);
                false
            },
        }
    }

    /// Counts the kept properties of nodes that are lost, from number `from` on.
    fn lose_nodes(&mut self, nodes: &Vec<Node>, from: usize)
        requires
            from <= nodes@.len(),
        ensures
            final(self)@ == losing(
                old(self)@,
                kept_in_nodes(tree::node_views(nodes@).skip(from as int)),
            ),
            final(self).board == old(self).board,
    {
        let ghost all = tree::node_views(nodes@);
        let ghost total = kept_in_nodes(all.skip(from as int));
        let ghost mut done: nat = 0;
        let mut i: usize = from;
        while i < nodes.len()
            invariant
                from <= i <= nodes@.len(),
                all == tree::node_views(nodes@),
                total == done + kept_in_nodes(all.skip(i as int)),
                self@ == losing(old(self)@, done),
                self.board == old(self).board,
            decreases nodes@.len() - i,
        {
            let props = collect_extras(&nodes[i]);
            proof {
                let rest = all.skip(i as int);
                assert(rest[0] == nodes@[i as int]@);
                assert(rest.skip(1) =~= all.skip(i + 1));
                assert(tree::prop_views(props@).len() == props@.len());
                done = done + props@.len();
            }
            self.orphans = self.orphans.saturating_add(props.len());
            i += 1;
        }
        assert(all.skip(i as int).len() == 0);
    }

    /// Counts the kept properties of game trees that are lost.
    fn lose_trees(&mut self, trees: &Vec<GameTree>)
        ensures
            final(self)@ == losing(old(self)@, kept_in_trees(tree::tree_views(trees@))),
            final(self).board == old(self).board,
        decreases trees,
    {
        let ghost all = tree::tree_views(trees@);
        let ghost total = kept_in_trees(all);
        let ghost mut done: nat = 0;
        let mut i: usize = 0;
        assert(all.skip(0) =~= all);
        while i < trees.len()
            invariant
                i <= trees@.len(),
                all == tree::tree_views(trees@),
                total == done + kept_in_trees(all.skip(i as int)),
                self@ == losing(old(self)@, done),
                self.board == old(self).board,
            decreases trees@.len() - i,
        {
            let one = &trees[i];
            proof {
                let rest = all.skip(i as int);
                assert(rest[0] == one@);
                assert(rest.skip(1) =~= all.skip(i + 1));
                assert(one@.nodes.skip(0) =~= one@.nodes);
                assert(one@.children =~= tree::tree_views(one.children@));
                done = done + kept_in_tree(one@);
            }
            self.lose_nodes(&one.nodes, 0);
            self.lose_trees(&one.children);
            i += 1;
        }
        assert(all.skip(i as int).len() == 0);
    }

    /// Loads a game tree below the cursor.
    fn walk(&mut self, tree: &GameTree, label: Option<&str>, skip_first: bool)
        requires
            old(self).board.wf(),
        ensures
            final(self).board.wf(),
            final(self)@ == after_tree(old(self)@, tree@, label_view(label), skip_first),
        decreases tree,
    {
        let ghost st0 = self@;
        let ghost t = tree@;
        let ghost lv = label_view(label);
        let start: usize = if skip_first && tree.nodes.len() > 0 { 1 } else { 0 };
        let ghost ns = if skip_first && t.nodes.len() > 0 {
            t.nodes.skip(1)
        } else {
            t.nodes
        };
        let mut i: usize = start;
        assert(ns =~= t.nodes.skip(start as int));
        while i < tree.nodes.len()
            invariant
                self.board.wf(),
                start <= i <= tree.nodes@.len(),
                t == tree@,
                lv == label_view(label),
                ns == t.nodes.skip(start as int),
                ns == if skip_first && t.nodes.len() > 0 {
                    t.nodes.skip(1)
                } else {
                    t.nodes
                },
                st0 == old(self)@,
                after_nodes(st0, ns, lv) == after_nodes(self@, t.nodes.skip(i as int), lv),
            decreases tree.nodes@.len() - i,
        {
            let ghost before = self@;
            proof {
                let rest = t.nodes.skip(i as int);
                assert(rest[0] == tree.nodes@[i as int]@);
                assert(rest.skip(1) =~= t.nodes.skip(i + 1));
            }
            if !self.node(&tree.nodes[i], label) {
                let ghost here = self@;
                self.lose_nodes(&tree.nodes, i + 1);
                self.lose_trees(&tree.children);
                proof {
                    assert(t.children =~= tree::tree_views(tree.children@));
                    let gone = kept_in_nodes(t.nodes.skip(i + 1));
                    assert(after_nodes(before, t.nodes.skip(i as int), lv) == (
                        losing(here, gone),
                        false,
                    ));
                    assert(self@ == losing(losing(here, gone), kept_in_trees(t.children)));
                }
                return;
            }
            i += 1;
        }
        let fork = self.board.current_node();
        let ghost st1 = self@;
        let mut k: usize = 0;
        assert(t.children.skip(0) =~= t.children);
        while k < tree.children.len()
            invariant
                self.board.wf(),
                k <= tree.children@.len(),
                t == tree@,
                lv == label_view(label),
                after_children(st1, t.children, 0, fork, lv) == after_children(
                    self@,
                    t.children.skip(k as int),
                    k as nat,
                    fork,
                    lv,
                ),
            decreases tree.children@.len() - k,
        {
            let ghost before = self@;
            proof {
                let rest = t.children.skip(k as int);
                assert(rest[0] == tree.children@[k as int]@);
                assert(rest.skip(1) =~= t.children.skip(k + 1));
            }
            self.board.go_to_node(fork);
            assert(self@ =~= back_to(before, fork));
            let n = self.board.cursor() + 1;
            let name: Option<String> = if k == 0 {
                match label {
                    Some(path) => Some(path.to_owned()),
                    None => None,
                }
            } else {
                let mut out = String::new();
                match label {
                    Some(path) => {
                        out.append(path);
                        out.append("的第 ");
                    },
                    None => {
                        out.append("第 ");
                        push_decimal(&mut out, n as u64);
                        out.append(" 手的第 ");
                    },
                }
                push_decimal(&mut out, k as u64);
                out.append(" 个变着");
                proof {
                    match label {
                        Some(path) => {
                            assert(out@ =~= path@ + "的第 "@ + text::decimal(k as nat)
                                + " 个变着"@);
                        },
                        None => {
                            assert(out@ =~= "第 "@ + text::decimal(n as nat) + " 手的第 "@
                                + text::decimal(k as nat) + " 个变着"@);
                        },
                    }
                }
                Some(out)
            };
            let name_ref: Option<&str> = match &name {
                Some(s) => Some(s.as_str()),
                None => None,
            };
            assert(label_view(name_ref) == child_label(lv, n as nat, k as nat));
            self.walk(&tree.children[k], name_ref, false);
            k += 1;
        }
    }
}

/// A loaded game, with the cursor before the first move.
pub struct LoadedGame {
    /// What is kept beside the board.
    pub meta: GameMeta,
    /// The board.
    pub board: Board,
    /// What went wrong, if anything.
    pub warning: Option<String>,
    /// Whether the main line ended early.
    pub partial: bool,
    /// How many kept properties belong to no position, so that saving cannot write them.
    pub unplaced_props: usize,
    /// How many comments belong to no position.
    pub dropped_comments: usize,
}

impl LoadedGame {
    /// The board and what is kept beside it.
    pub fn into_parts(self) -> (r: (Board, GameMeta))
        ensures
            r == (self.board, self.meta),
    {
        (self.board, self.meta)
    }
}

/// The model of [`LoadedGame`].
#[verifier::ext_equal]
pub struct LoadedView {
    pub meta: MetaView,
    pub board: BoardView,
    pub warning: Option<Seq<char>>,
    pub partial: bool,
    pub unplaced_props: usize,
    pub dropped_comments: usize,
}

impl View for LoadedGame {
    type V = LoadedView;

    open spec fn view(&self) -> LoadedView {
        LoadedView {
            meta: self.meta@,
            board: self.board@,
            warning: info::opt_text(self.warning),
            partial: self.partial,
            unplaced_props: self.unplaced_props,
            dropped_comments: self.dropped_comments,
        }
    }
}

/// Texts joined by `；`.
pub open spec fn joined(ts: Seq<Seq<char>>) -> Seq<char>
    decreases ts.len(),
{
    if ts.len() == 0 {
        Seq::empty()
    } else if ts.len() == 1 {
        ts[0]
    } else {
        joined(ts.drop_last()) + "；"@ + ts.last()
    }
}

/// The state in which replaying starts.
pub open spec fn start_state(b: BoardView, root: NodeView) -> LoadView {
    LoadView {
        board: b,
        comments: match info::text_in(root, "C"@) {
            Some(c) => Map::empty().insert(SIG_INIT, c),
            None => Map::empty(),
        },
        extras: if kept_props(root.props).len() > 0 {
            Map::empty().insert(SIG_INIT, kept_props(root.props))
        } else {
            Map::empty()
        },
        orphans: 0,
        dropped: 0,
        warnings: Seq::empty(),
        partial: false,
    }
}

/// The board with the cursor before the first move.
pub open spec fn rewound(b: BoardView) -> BoardView {
    b.moved(0)
}

/// What loading makes of a record whose root could be read: every move replayed, the main
/// variation selected throughout, and the cursor before the first move.
pub open spec fn loaded_state(b: BoardView, t: TreeView) -> LoadView {
    let st = after_tree(start_state(b, t.nodes[0]), t, None, true);
    let main = tree::main_nodes(t).skip(1);
    LoadView { board: rewound(replayed(rewound(st.board), main)), ..st }
}

/// The starting position of a record.
pub open spec fn start_board(t: TreeView) -> Result<BoardView, LoadErrorView> {
    let root = t.nodes[0];
    let what = info::info_in(root);
    match tree::node_points(what.size, root, "AB"@) {
        Err(e) => Err(LoadErrorView::Parse(e)),
        Ok(black) => match tree::node_points(what.size, root, "AW"@) {
            Err(e) => Err(LoadErrorView::Parse(e)),
            Ok(white) => match tree::node_points(what.size, root, "AE"@) {
                Err(e) => Err(LoadErrorView::Parse(e)),
                Ok(removed) => {
                    let first = match what.initial_player {
                        Some(p) => p,
                        None => if black.len() == 0 && white.len() == 0 {
                            Stone::Black
                        } else {
                            Stone::White
                        },
                    };
                    match board::setup_result(what.size, black, white, removed, first) {
                        Ok(b) => Ok(b),
                        Err(e) => Err(LoadErrorView::Setup(e)),
                    }
                },
            },
        },
    }
}

/// What loading makes of a game tree.
pub open spec fn loaded_tree(source: Seq<char>, t: TreeView) -> Result<LoadedView, LoadErrorView> {
    if info::info_error(t) is Some {
        Err(LoadErrorView::Parse(info::info_error(t)->0))
    } else {
        match start_board(t) {
            Err(e) => Err(e),
            Ok(b) => {
                let st = loaded_state(b, t);
                Ok(
                    LoadedView {
                        meta: MetaView {
                            source,
                            info: info::info_in(t.nodes[0]),
                            comments: st.comments,
                            extras: st.extras,
                        },
                        board: st.board,
                        warning: if st.warnings.len() > 0 {
                            Some(joined(st.warnings))
                        } else {
                            None
                        },
                        partial: st.partial,
                        unplaced_props: st.orphans,
                        dropped_comments: st.dropped,
                    },
                )
            },
        }
    }
}

/// What loading makes of the bytes of a record.
pub open spec fn loaded(source: Seq<char>, bytes: Seq<u8>) -> Result<LoadedView, LoadErrorView> {
    match super::decoded(bytes) {
        Err(e) => Err(LoadErrorView::Parse(e)),
        Ok(s) => match model::parsed(s) {
            Err(e) => Err(LoadErrorView::Parse(e)),
            Ok(t) => loaded_tree(source, t),
        },
    }
}

fn join_warnings(list: &Vec<String>) -> (r: Option<String>)
    ensures
        info::opt_text(r) == if list@.len() > 0 {
            Some(joined(tree::texts(list@)))
        } else {
            None
        },
{
    if list.len() == 0 {
        return None;
    }
    let ghost ts = tree::texts(list@);
    let mut out = list[0].clone();
    let mut i: usize = 1;
    assert(ts.take(1)[0] == ts[0]);
    while i < list.len()
        invariant
            1 <= i <= list@.len(),
            ts == tree::texts(list@),
            out@ == joined(ts.take(i as int)),
        decreases list@.len() - i,
    {
        proof {
            assert(ts.take(i + 1).drop_last() =~= ts.take(i as int));
            assert(ts.take(i + 1).last() == list@[i as int]@);
        }
        out.append("；");
        out.append(list[i].as_str());
        i += 1;
    }
    assert(ts.take(i as int) =~= ts);
    Some(out)
}

/// Replays nodes as far as their moves can be played.
fn replay(board: &mut Board, nodes: &Vec<&Node>, from: usize)
    requires
        old(board).wf(),
        from <= nodes@.len(),
    ensures
        final(board).wf(),
        final(board)@ == replayed(
            old(board)@,
            nodes@.map_values(|n: &Node| n@).skip(from as int),
        ),
{
    let ghost ns = nodes@.map_values(|n: &Node| n@);
    let ghost b0 = board@;
    let mut i: usize = from;
    while i < nodes.len()
        invariant
            board.wf(),
            from <= i <= nodes@.len(),
            ns == nodes@.map_values(|n: &Node| n@),
            b0 == old(board)@,
            replayed(b0, ns.skip(from as int)) == replayed(board@, ns.skip(i as int)),
        decreases nodes@.len() - i,
    {
        proof {
            assert(ns.skip(i as int)[0] == nodes@[i as int]@);
            assert(ns.skip(i as int).skip(1) =~= ns.skip(i + 1));
        }
        match play_node(board, nodes[i]) {
            Ok(_) => {},
            Err(_) => {
                return;
            },
        }
        i += 1;
    }
}

/// Reads a game tree into a board.
fn load_tree(source: &str, tree: &GameTree) -> (r: Result<LoadedGame, LoadError>)
    ensures
        match loaded_tree(source@, tree@) {
            Ok(v) => r matches Ok(g) && g@ == v && g.board.wf(),
            Err(e) => r matches Err(x) && x@ == e,
        },
{
    let what = match GameInfo::from_tree(tree) {
        Ok(i) => i,
        Err(e) => {
            return Err(LoadError::Parse(e));
        },
    };
    let ghost t = tree@;
    let size = what.size;
    let root = &tree.nodes[0];
    assert(root@ == t.nodes[0]);
    let black = match root.coords("AB", size) {
        Ok(v) => v,
        Err(e) => {
            return Err(LoadError::Parse(e));
        },
    };
    let white = match root.coords("AW", size) {
        Ok(v) => v,
        Err(e) => {
            return Err(LoadError::Parse(e));
        },
    };
    let removed = match root.coords("AE", size) {
        Ok(v) => v,
        Err(e) => {
            return Err(LoadError::Parse(e));
        },
    };
    let to_play = match what.initial_player {
        Some(p) => p,
        None => if black.len() == 0 && white.len() == 0 {
            Stone::Black
        } else {
            Stone::White
        },
    };
    let board = match Board::from_setup(size, &black, &white, &removed, to_play) {
        Ok(b) => b,
        Err(e) => {
            return Err(LoadError::Setup(e));
        },
    };
    let mut comments: HashMap<u64, String> = HashMap::new();
    assert(comment_view(comments@) =~= Map::empty());
    if let Some(c) = info::copy_text(&what.root_comment) {
        comments.insert(SIG_INIT, c);
        assert(comment_view(comments@) =~= Map::empty().insert(SIG_INIT, c@));
    }
    let mut extras: HashMap<u64, Vec<Property>> = HashMap::new();
    assert(extra_view(extras@) =~= Map::empty());
    let props = collect_extras(root);
    assert(tree::prop_views(props@).len() == props@.len());
    if props.len() > 0 {
        extras.insert(SIG_INIT, props);
        assert(extra_view(extras@) =~= Map::empty().insert(SIG_INIT, tree::prop_views(props@)));
    }
    let mut loader = Loader {
        board,
        comments,
        extras,
        orphans: 0,
        dropped: 0,
        warnings: Vec::new(),
        partial: false,
    };
    assert(loader@.warnings =~= Seq::empty());
    assert(loader@ =~= start_state(board@, t.nodes[0]));
    loader.walk(tree, None, true);
    loader.board.go_to(0);
    let main = tree.mainline();
    proof {
        let ns = main@.map_values(|n: &Node| n@);
        assert(ns.len() >= t.nodes.len());
    }
    replay(&mut loader.board, &main, 1);
    loader.board.go_to(0);
    let warning = join_warnings(&loader.warnings);
    let g = LoadedGame {
        meta: GameMeta {
            source: source.to_owned(),
            info: what,
            comments: loader.comments,
            extras: loader.extras,
        },
        board: loader.board,
        warning,
        partial: loader.partial,
        unplaced_props: loader.orphans,
        dropped_comments: loader.dropped,
    };
    assert(tree::texts(loader.warnings@).len() == loader.warnings@.len());
    Ok(g)
}

/// Reads the bytes of a record into a board. `source` is where they came from.
pub fn load_from_bytes(source: &str, bytes: &[u8]) -> (r: Result<LoadedGame, LoadError>)
    ensures
        match loaded(source@, bytes@) {
            Ok(v) => r matches Ok(g) && g@ == v && g.board.wf(),
            Err(e) => r matches Err(x) && x@ == e,
        },
{
    match super::parse_bytes(bytes) {
        Ok(tree) => load_tree(source, &tree),
        Err(e) => Err(LoadError::Parse(e)),
    }
}

} // verus!
