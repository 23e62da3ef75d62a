//! What the root node of a record says of the game.

use vstd::prelude::*;
use super::error::{ErrorView, KindView, SgfError, SgfErrorKind};
use super::model::{NodeView, TreeView};
use super::tree::{self, bad_number, GameTree, Node};
use crate::board::{coord, Size, Stone};
use crate::number;
use crate::text::{
    self, chars_of, find_char, is_float_text, lower_chars, parse_unsigned, slice_chars, trim,
};

verus! {

/// What the root node says of the game; `None` where it says nothing.
#[derive(PartialEq, Eq, Debug)]
pub struct GameInfo {
    /// The board size (`SZ`; 19 where it is missing).
    pub size: Size,
    /// The komi (`KM`): a number, as [`number::shown`] has it.
    pub komi: Option<String>,
    /// The number of handicap stones (`HA`).
    pub handicap: u8,
    /// Who moves first (`PL`).
    pub initial_player: Option<Stone>,
    /// Black's name (`PB`).
    pub player_black: Option<String>,
    /// White's name (`PW`).
    pub player_white: Option<String>,
    /// Black's rank (`BR`).
    pub rank_black: Option<String>,
    /// White's rank (`WR`).
    pub rank_white: Option<String>,
    /// Black's team (`BT`).
    pub team_black: Option<String>,
    /// White's team (`WT`).
    pub team_white: Option<String>,
    /// The result (`RE`).
    pub result: Option<String>,
    /// The date (`DT`).
    pub date: Option<String>,
    /// The event (`EV`).
    pub event: Option<String>,
    /// The round (`RO`).
    pub round: Option<String>,
    /// The place (`PC`).
    pub place: Option<String>,
    /// The name of the game (`GN`).
    pub game_name: Option<String>,
    /// The rules (`RU`).
    pub rules: Option<String>,
    /// The time limit (`TM`).
    pub time_limit: Option<String>,
    /// The overtime (`OT`).
    pub overtime: Option<String>,
    /// The program that wrote the record (`AP`).
    pub application: Option<String>,
    /// The character set (`CA`).
    pub charset: Option<String>,
    /// The SGF version (`FF`).
    pub format: Option<u8>,
    /// The comment of the root node (`C`).
    pub root_comment: Option<String>,
    /// A summary of the result, made by the program; records do not hold it.
    pub result_block: Option<String>,
}

/// The model of [`GameInfo`].
#[verifier::ext_equal]
pub struct InfoView {
    pub size: Size,
    pub komi: Option<Seq<char>>,
    pub handicap: u8,
    pub initial_player: Option<Stone>,
    pub player_black: Option<Seq<char>>,
    pub player_white: Option<Seq<char>>,
    pub rank_black: Option<Seq<char>>,
    pub rank_white: Option<Seq<char>>,
    pub team_black: Option<Seq<char>>,
    pub team_white: Option<Seq<char>>,
    pub result: Option<Seq<char>>,
    pub date: Option<Seq<char>>,
    pub event: Option<Seq<char>>,
    pub round: Option<Seq<char>>,
    pub place: Option<Seq<char>>,
    pub game_name: Option<Seq<char>>,
    pub rules: Option<Seq<char>>,
    pub time_limit: Option<Seq<char>>,
    pub overtime: Option<Seq<char>>,
    pub application: Option<Seq<char>>,
    pub charset: Option<Seq<char>>,
    pub format: Option<u8>,
    pub root_comment: Option<Seq<char>>,
    pub result_block: Option<Seq<char>>,
}

/// The text of an optional string.
pub open spec fn opt_text(s: Option<String>) -> Option<Seq<char>> {
    match s {
        Some(x) => Some(x@),
        None => None,
    }
}

impl View for GameInfo {
    type V = InfoView;

    open spec fn view(&self) -> InfoView {
        InfoView {
            size: self.size,
            komi: opt_text(self.komi),
            handicap: self.handicap,
            initial_player: self.initial_player,
            player_black: opt_text(self.player_black),
            player_white: opt_text(self.player_white),
            rank_black: opt_text(self.rank_black),
            rank_white: opt_text(self.rank_white),
            team_black: opt_text(self.team_black),
            team_white: opt_text(self.team_white),
            result: opt_text(self.result),
            date: opt_text(self.date),
            event: opt_text(self.event),
            round: opt_text(self.round),
            place: opt_text(self.place),
            game_name: opt_text(self.game_name),
            rules: opt_text(self.rules),
            time_limit: opt_text(self.time_limit),
            overtime: opt_text(self.overtime),
            application: opt_text(self.application),
            charset: opt_text(self.charset),
            format: self.format,
            root_comment: opt_text(self.root_comment),
            result_block: opt_text(self.result_block),
        }
    }
}

/// A copy of an optional string.
pub fn copy_text(s: &Option<String>) -> (r: Option<String>)
    ensures
        opt_text(r) == opt_text(*s),
{
    match s {
        Some(x) => Some(x.clone()),
        None => None,
    }
}

impl Clone for GameInfo {
    fn clone(&self) -> (r: Self)
        ensures
            r@ == self@,
    {
        GameInfo {
            size: self.size,
            handicap: self.handicap,
            initial_player: self.initial_player,
            format: self.format,
            komi: copy_text(&self.komi),
            player_black: copy_text(&self.player_black),
            player_white: copy_text(&self.player_white),
            rank_black: copy_text(&self.rank_black),
            rank_white: copy_text(&self.rank_white),
            team_black: copy_text(&self.team_black),
            team_white: copy_text(&self.team_white),
            result: copy_text(&self.result),
            date: copy_text(&self.date),
            event: copy_text(&self.event),
            round: copy_text(&self.round),
            place: copy_text(&self.place),
            game_name: copy_text(&self.game_name),
            rules: copy_text(&self.rules),
            time_limit: copy_text(&self.time_limit),
            overtime: copy_text(&self.overtime),
            application: copy_text(&self.application),
            charset: copy_text(&self.charset),
            root_comment: copy_text(&self.root_comment),
            result_block: copy_text(&self.result_block),
        }
    }
}

impl GameInfo {
    /// What is known of a game when nothing but its size is.
    pub open spec fn blank_spec(size: Size) -> InfoView {
        InfoView {
            size,
            handicap: 0,
            initial_player: None,
            format: None,
            komi: None,
            player_black: None,
            player_white: None,
            rank_black: None,
            rank_white: None,
            team_black: None,
            team_white: None,
            result: None,
            date: None,
            event: None,
            round: None,
            place: None,
            game_name: None,
            rules: None,
            time_limit: None,
            overtime: None,
            application: None,
            charset: None,
            root_comment: None,
            result_block: None,
        }
    }

    /// What is known of a game when nothing but its size is.
    pub fn blank(size: Size) -> (r: Self)
        ensures
            r@ == Self::blank_spec(size),
    {
        GameInfo {
            size,
            handicap: 0,
            initial_player: None,
            format: None,
            komi: None,
            player_black: None,
            player_white: None,
            rank_black: None,
            rank_white: None,
            team_black: None,
            team_white: None,
            result: None,
            date: None,
            event: None,
            round: None,
            place: None,
            game_name: None,
            rules: None,
            time_limit: None,
            overtime: None,
            application: None,
            charset: None,
            root_comment: None,
            result_block: None,
        }
    }
}

/// What an optional number reads as; `Err` holds the text that is no number.
pub open spec fn number_in(root: NodeView, ident: Seq<char>) -> Result<Option<u8>, Seq<char>> {
    match root.trimmed(ident) {
        None => Ok(None),
        Some(v) => match text::parsed_unsigned(v, 255) {
            Some(n) => Ok(Some(n as u8)),
            None => Err(v),
        },
    }
}

/// What an optional text reads as; an empty text counts as missing.
pub open spec fn text_in(root: NodeView, ident: Seq<char>) -> Option<Seq<char>> {
    match root.trimmed(ident) {
        Some(v) if v.len() > 0 => Some(v),
        _ => None,
    }
}

/// The two numbers of a size: columns and rows, the same where there is one.
pub open spec fn size_parts(raw: Seq<char>) -> (Seq<char>, Seq<char>) {
    match text::find_from(raw, ':', 0) {
        None => (raw, raw),
        Some(i) => (text::trimmed(raw.take(i)), text::trimmed(raw.skip(i + 1))),
    }
}

/// What the board size reads as; 19 lines where it is missing.
pub open spec fn size_in(root: NodeView) -> Result<nat, ErrorView> {
    match root.trimmed("SZ"@) {
        None => Ok(19),
        Some(raw) => {
            let (w, h) = size_parts(raw);
            match (text::parsed_unsigned(w, 255), text::parsed_unsigned(h, 255)) {
                (Some(a), Some(b)) => if a != b {
                    Err(
                        ErrorView {
                            kind: KindView::NonSquareBoard { width: a as u8, height: b as u8 },
                            position: None,
                        },
                    )
                } else if a == 9 || a == 13 || a == 19 {
                    Ok(a)
                } else {
                    Err(
                        ErrorView {
                            kind: KindView::UnsupportedBoardSize(a as u8),
                            position: None,
                        },
                    )
                },
                _ => Err(tree::bad_number_error("SZ"@, raw)),
            }
        },
    }
}

/// Who moves first, where the root says so.
pub open spec fn player_in(root: NodeView) -> Option<Stone> {
    match root.trimmed("PL"@) {
        None => None,
        Some(v) => if text::lower_text(v) == seq!['b'] {
            Some(Stone::Black)
        } else if text::lower_text(v) == seq!['w'] {
            Some(Stone::White)
        } else {
            None
        },
    }
}

/// Why the information of a tree cannot be read, if so: the first number at fault in the order
/// `GM`, `FF`, `SZ`, `KM`, `HA`.
pub open spec fn info_error(t: TreeView) -> Option<ErrorView> {
    let root = t.nodes[0];
    if t.nodes.len() == 0 {
        Some(ErrorView { kind: KindView::EmptyGameTree, position: None })
    } else if number_in(root, "GM"@) is Err {
        Some(tree::bad_number_error("GM"@, number_in(root, "GM"@)->Err_0))
    } else if number_in(root, "GM"@)->Ok_0 is Some && number_in(root, "GM"@)->Ok_0->0 != 1 {
        Some(
            ErrorView {
                kind: KindView::BadGameType(number_in(root, "GM"@)->Ok_0->0),
                position: None,
            },
        )
    } else if number_in(root, "FF"@) is Err {
        Some(tree::bad_number_error("FF"@, number_in(root, "FF"@)->Err_0))
    } else if size_in(root) is Err {
        Some(size_in(root)->Err_0)
    } else if root.trimmed("KM"@) is Some && !text::is_float(root.trimmed("KM"@)->0) {
        Some(tree::bad_number_error("KM"@, root.trimmed("KM"@)->0))
    } else if number_in(root, "HA"@) is Err {
        Some(tree::bad_number_error("HA"@, number_in(root, "HA"@)->Err_0))
    } else {
        None
    }
}

/// How a komi is written: as a number is shown, without white space around it, and zero without a
/// sign.
#[verifier::opaque]
pub open spec fn komi_text(k: Seq<char>) -> Seq<char> {
    let s = number::shown(text::trimmed(k));
    if s == "-0"@ {
        "0"@
    } else {
        s
    }
}

/// A komi as it is written has no white space around it and is shown as it is.
pub proof fn lemma_komi_text(k: Seq<char>)
    ensures
        text::trimmed(komi_text(k)) == komi_text(k),
        number::shown(komi_text(k)) == komi_text(k),
        text::is_float(text::trimmed(k)) ==> text::is_float(komi_text(k)),
{
    reveal(komi_text);
    let t = text::trimmed(k);
    if number::shown(t) == "-0"@ {
        number::lemma_zero_shown();
    } else if text::is_float(t) {
        number::law_shown_is_stable(t);
    } else {
        text::lemma_trimmed_ends(k);
        text::lemma_trimmed_id(t);
    }
}

/// How a komi is written.
pub fn written_komi(k: &str) -> (r: String)
    ensures
        r@ == komi_text(k@),
{
    proof {
        reveal(komi_text);
    }
    let t = text::trim(&chars_of(k));
    let s = number::show(text::string_of(&t).as_str());
    if text::same_text(s.as_str(), "-0") {
        "0".to_owned()
    } else {
        s
    }
}

/// What the root node says, where its numbers make sense.
pub open spec fn info_in(root: NodeView) -> InfoView {
    InfoView {
        size: Size::of(size_in(root)->Ok_0),
        komi: match root.trimmed("KM"@) {
            Some(k) => Some(number::shown(k)),
            None => None,
        },
        handicap: match number_in(root, "HA"@)->Ok_0 {
            Some(n) => n,
            None => 0,
        },
        initial_player: player_in(root),
        player_black: text_in(root, "PB"@),
        player_white: text_in(root, "PW"@),
        rank_black: text_in(root, "BR"@),
        rank_white: text_in(root, "WR"@),
        team_black: text_in(root, "BT"@),
        team_white: text_in(root, "WT"@),
        result: text_in(root, "RE"@),
        date: text_in(root, "DT"@),
        event: text_in(root, "EV"@),
        round: text_in(root, "RO"@),
        place: text_in(root, "PC"@),
        game_name: text_in(root, "GN"@),
        rules: text_in(root, "RU"@),
        time_limit: text_in(root, "TM"@),
        overtime: text_in(root, "OT"@),
        application: text_in(root, "AP"@),
        charset: text_in(root, "CA"@),
        format: number_in(root, "FF"@)->Ok_0,
        root_comment: text_in(root, "C"@),
        result_block: None,
    }
}

fn read_number(root: &Node, ident: &str) -> (r: Result<Option<u8>, SgfError>)
    ensures
        match number_in(root@, ident@) {
            Ok(n) => r matches Ok(x) && x == n,
            Err(v) => r matches Err(e) && e@ == tree::bad_number_error(ident@, v),
        },
{
    match root.trimmed_text(ident) {
        None => Ok(None),
        Some(v) => match parse_unsigned(&chars_of(v.as_str()), 255) {
            Some(n) => Ok(Some(n as u8)),
            None => Err(bad_number(ident, v.as_str())),
        },
    }
}

pub fn read_text(root: &Node, ident: &str) -> (r: Option<String>)
    ensures
        opt_text(r) == text_in(root@, ident@),
{
    match root.trimmed_text(ident) {
        None => None,
        Some(v) => {
            if chars_of(v.as_str()).len() > 0 {
                Some(v)
            } else {
                None
            }
        },
    }
}

fn read_player(root: &Node) -> (r: Option<Stone>)
    ensures
        r == player_in(root@),
{
    match root.trimmed_text("PL") {
        None => None,
        Some(v) => {
            let low = lower_chars(&chars_of(v.as_str()));
            assert(low@.len() == 1 ==> low@ =~= seq![low@[0]]);
            if low.len() == 1 && low[0] == 'b' {
                Some(Stone::Black)
            } else if low.len() == 1 && low[0] == 'w' {
                Some(Stone::White)
            } else {
                None
            }
        },
    }
}

/// Reads the board size: `19` or `19:19`.
fn parse_size(root: &Node) -> (r: Result<Size, SgfError>)
    ensures
        match size_in(root@) {
            Ok(n) => r matches Ok(s) && s.side() == n && s == Size::of(n),
            Err(e) => r matches Err(x) && x@ == e,
        },
{
    let n: u8 = match root.trimmed_text("SZ") {
        None => 19,
        Some(raw) => {
            let chars = chars_of(raw.as_str());
            let n = chars.len();
            let (w, h) = match find_char(&chars, ':') {
                None => (
                    slice_chars(&chars, 0, n),
                    slice_chars(&chars, 0, n),
                ),
                Some(i) => (
                    trim(&slice_chars(&chars, 0, i)),
                    trim(&slice_chars(&chars, i + 1, n)),
                ),
            };
            proof {
                match text::find_from(chars@, ':', 0) {
                    None => {
                        assert(w@ =~= chars@);
                    },
                    Some(i) => {
                        assert(chars@.subrange(0, i) =~= chars@.take(i));
                        assert(chars@.subrange(i + 1, chars@.len() as int) =~= chars@.skip(i + 1));
                    },
                }
                assert((w@, h@) == size_parts(raw@));
            }
            match (parse_unsigned(&w, 255), parse_unsigned(&h, 255)) {
                (Some(a), Some(b)) => {
                    if a != b {
                        return Err(
                            SgfError::new(
                                SgfErrorKind::NonSquareBoard { width: a as u8, height: b as u8 },
                                None,
                            ),
                        );
                    }
                    a as u8
                },
                _ => {
                    return Err(bad_number("SZ", raw.as_str()));
                },
            }
        },
    };
    match Size::new(n) {
        Ok(s) => {
            proof {
                coord::lemma_size_of(s);
            }
            Ok(s)
        },
        Err(_) => Err(SgfError::new(SgfErrorKind::UnsupportedBoardSize(n), None)),
    }
}

impl GameInfo {
    /// Reads what the root node of a tree says. `GM`, `FF`, `SZ`, `KM` and `HA` must make sense
    /// where they are given; everything else is taken as far as it goes.
    pub fn from_tree(tree: &GameTree) -> (r: Result<Self, SgfError>)
        ensures
            match info_error(tree@) {
                Some(e) => r matches Err(x) && x@ == e,
                None => r matches Ok(info) && info@ == info_in(tree@.nodes[0]),
            },
    {
        let root = match tree.root() {
            None => {
                return Err(SgfError::new(SgfErrorKind::EmptyGameTree, None));
            },
            Some(n) => n,
        };
        match read_number(root, "GM") {
            Err(e) => {
                return Err(e);
            },
            Ok(Some(gm)) => {
                if gm != 1 {
                    return Err(SgfError::new(SgfErrorKind::BadGameType(gm), None));
                }
            },
            Ok(None) => {},
        }
        let format = match read_number(root, "FF") {
            Err(e) => {
                return Err(e);
            },
            Ok(n) => n,
        };
        let size = match parse_size(root) {
            Err(e) => {
                return Err(e);
            },
            Ok(s) => s,
        };
        let komi = match root.trimmed_text("KM") {
            Some(v) => {
                if !is_float_text(&chars_of(v.as_str())) {
                    return Err(bad_number("KM", v.as_str()));
                }
                Some(number::show(v.as_str()))
            },
            None => None,
        };
        let handicap: u8 = match read_number(root, "HA") {
            Err(e) => {
                return Err(e);
            },
            Ok(Some(n)) => n,
            Ok(None) => 0,
        };
        Ok(
            Self {
                size,
                komi,
                handicap,
                initial_player: read_player(root),
                player_black: read_text(root, "PB"),
                player_white: read_text(root, "PW"),
                rank_black: read_text(root, "BR"),
                rank_white: read_text(root, "WR"),
                team_black: read_text(root, "BT"),
                team_white: read_text(root, "WT"),
                result: read_text(root, "RE"),
                date: read_text(root, "DT"),
                event: read_text(root, "EV"),
                round: read_text(root, "RO"),
                place: read_text(root, "PC"),
                game_name: read_text(root, "GN"),
                rules: read_text(root, "RU"),
                time_limit: read_text(root, "TM"),
                overtime: read_text(root, "OT"),
                application: read_text(root, "AP"),
                charset: read_text(root, "CA"),
                format,
                root_comment: read_text(root, "C"),
                result_block: None,
            },
        )
    }
}

} // verus!
