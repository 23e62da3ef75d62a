//! What can be wrong with SGF text, and where.

use vstd::prelude::*;
use crate::text::{self, push_decimal};

verus! {

/// A place in the text. Lines and columns count from 1.
#[derive(Clone, Copy, PartialEq, Eq, Structural, Debug)]
pub struct Position {
    /// The offset in bytes from the start of the text.
    pub offset: usize,
    /// The line.
    pub line: usize,
    /// The column, in characters.
    pub col: usize,
}

/// Why text cannot be read.
#[derive(Clone, PartialEq, Eq, Debug)]
pub enum SgfErrorKind {
    /// There is no game tree at all.
    EmptyInput,
    /// Something else than what was expected; `found` is `None` at the end of the text.
    UnexpectedByte { expected: &'static str, found: Option<char> },
    /// A pair of brackets without a node.
    EmptyGameTree,
    /// A property without a value.
    PropNeedsValue { ident: String },
    /// Not UTF-8, and another character set is declared.
    UnsupportedCharset(String),
    /// Not UTF-8, and no other character set is declared.
    InvalidUtf8,
    /// A board with different numbers of columns and rows.
    NonSquareBoard { width: u8, height: u8 },
    /// A square board of an unsupported size.
    UnsupportedBoardSize(u8),
    /// Another game than Go.
    BadGameType(u8),
    /// A number that cannot be read.
    BadNumber { ident: String, value: String },
    /// A coordinate that cannot be read or is off the board.
    BadCoord { ident: String, value: String },
}

/// The model of [`SgfErrorKind`].
pub enum KindView {
    EmptyInput,
    UnexpectedByte { expected: Seq<char>, found: Option<char> },
    EmptyGameTree,
    PropNeedsValue { ident: Seq<char> },
    UnsupportedCharset(Seq<char>),
    InvalidUtf8,
    NonSquareBoard { width: u8, height: u8 },
    UnsupportedBoardSize(u8),
    BadGameType(u8),
    BadNumber { ident: Seq<char>, value: Seq<char> },
    BadCoord { ident: Seq<char>, value: Seq<char> },
}

impl View for SgfErrorKind {
    type V = KindView;

    open spec fn view(&self) -> KindView {
        match *self {
            SgfErrorKind::EmptyInput => KindView::EmptyInput,
            SgfErrorKind::UnexpectedByte { expected, found } => KindView::UnexpectedByte {
                expected: expected@,
                found,
            },
            SgfErrorKind::EmptyGameTree => KindView::EmptyGameTree,
            SgfErrorKind::PropNeedsValue { ident } => KindView::PropNeedsValue { ident: ident@ },
            SgfErrorKind::UnsupportedCharset(name) => KindView::UnsupportedCharset(name@),
            SgfErrorKind::InvalidUtf8 => KindView::InvalidUtf8,
            SgfErrorKind::NonSquareBoard { width, height } => KindView::NonSquareBoard {
                width,
                height,
            },
            SgfErrorKind::UnsupportedBoardSize(n) => KindView::UnsupportedBoardSize(n),
            SgfErrorKind::BadGameType(n) => KindView::BadGameType(n),
            SgfErrorKind::BadNumber { ident, value } => KindView::BadNumber {
                ident: ident@,
                value: value@,
            },
            SgfErrorKind::BadCoord { ident, value } => KindView::BadCoord {
                ident: ident@,
                value: value@,
            },
        }
    }
}

/// What `format!("{:?}", c)` writes for a character: the character in single quotes, with escapes
/// where it is not printable.
pub uninterp spec fn quoted_char(c: char) -> Seq<char>;

/// The `Debug` notation of a character, written by `format!("{:?}", c)`. The contract only names
/// it: which characters are escaped, and how, follows Unicode tables.
#[verifier::external_body]
fn quote_char(c: char) -> (r: String)
    ensures
        r@ == quoted_char(c),
{
    format!("{:?}", c)
}

/// What is said where something else was expected: what was found, in quotes, or that the input
/// ended.
pub open spec fn unexpected(expected: Seq<char>, found: Option<Seq<char>>) -> Seq<char> {
    match found {
        None => "应为"@ + expected + "，但输入在此提前结束"@,
        Some(shown) => "应为"@ + expected + "，但遇到意外内容 "@ + shown,
    }
}

/// What is said where something else was expected; `found` is what was found, in quotes.
pub fn unexpected_text(expected: &str, found: Option<&str>) -> (r: String)
    ensures
        r@ == unexpected(
            expected@,
            match found {
                Some(s) => Some(s@),
                None => None,
            },
        ),
{
    let mut out = "应为".to_owned();
    out.append(expected);
    match found {
        None => {
            out.append("，但输入在此提前结束");
        },
        Some(shown) => {
            out.append("，但遇到意外内容 ");
            out.append(shown);
        },
    }
    out
}

impl KindView {
    /// The message shown to the user.
    pub open spec fn message(self) -> Seq<char> {
        match self {
            KindView::EmptyInput => "输入为空：未找到任何 SGF 游戏树"@,
            KindView::UnexpectedByte { expected, found } => match found {
                None => unexpected(expected, None),
                Some(c) => unexpected(expected, Some(quoted_char(c))),
            },
            KindView::EmptyGameTree => "空的 SGF 游戏树（一对括号内没有任何节点）"@,
            KindView::PropNeedsValue { ident } => "属性 "@ + ident + " 缺少属性值（[...]）"@,
            KindView::UnsupportedCharset(name) => "文件不是合法 UTF-8，且声明使用字符集 "@ + name
                + "；请转存为 UTF-8 后再打开"@,
            KindView::InvalidUtf8 =>
                "文件不是合法 UTF-8 编码，且未声明其它字符集；请转存为 UTF-8 后再打开"@,
            KindView::NonSquareBoard { width, height } => "不支持的矩形棋盘 "@ + text::decimal(
                width as nat,
            ) + "×"@ + text::decimal(height as nat)
                + "（本项目仅支持方形 9 / 13 / 19 路棋盘）"@,
            KindView::UnsupportedBoardSize(n) => "不支持的棋盘尺寸："@ + text::decimal(n as nat)
                + "（仅支持 9 / 13 / 19 路）"@,
            KindView::BadGameType(n) => "不支持的 SGF 游戏类型 GM["@ + text::decimal(n as nat)
                + "]（仅支持围棋 GM[1]）"@,
            KindView::BadNumber { ident, value } => "属性 "@ + ident + " 的值“"@ + value
                + "”不是合法数字"@,
            KindView::BadCoord { ident, value } => "属性 "@ + ident + " 的坐标“"@ + value
                + "”无法解析或超出棋盘范围"@,
        }
    }
}

impl SgfErrorKind {
    /// The message shown to the user.
    pub fn message(&self) -> (r: String)
        ensures
            r@ == self@.message(),
    {
        let mut out = String::new();
        match self {
            SgfErrorKind::EmptyInput => {
                out.append("输入为空：未找到任何 SGF 游戏树");
            },
            SgfErrorKind::UnexpectedByte { expected, found } => {
                let said = match found {
                    None => unexpected_text(expected, None),
                    Some(c) => unexpected_text(expected, Some(quote_char(*c).as_str())),
                };
                out.append(said.as_str());
            },
            SgfErrorKind::EmptyGameTree => {
                out.append("空的 SGF 游戏树（一对括号内没有任何节点）");
            },
            SgfErrorKind::PropNeedsValue { ident } => {
                out.append("属性 ");
                out.append(ident.as_str());
                out.append(" 缺少属性值（[...]）");
            },
            SgfErrorKind::UnsupportedCharset(name) => {
                out.append("文件不是合法 UTF-8，且声明使用字符集 ");
                out.append(name.as_str());
                out.append("；请转存为 UTF-8 后再打开");
            },
            SgfErrorKind::InvalidUtf8 => {
                out.append(
                    "文件不是合法 UTF-8 编码，且未声明其它字符集；请转存为 UTF-8 后再打开",
                );
            },
            SgfErrorKind::NonSquareBoard { width, height } => {
                out.append("不支持的矩形棋盘 ");
                push_decimal(&mut out, *width as u64);
                out.append("×");
                push_decimal(&mut out, *height as u64);
                out.append("（本项目仅支持方形 9 / 13 / 19 路棋盘）");
            },
            SgfErrorKind::UnsupportedBoardSize(n) => {
                out.append("不支持的棋盘尺寸：");
                push_decimal(&mut out, *n as u64);
                out.append("（仅支持 9 / 13 / 19 路）");
            },
            SgfErrorKind::BadGameType(n) => {
                out.append("不支持的 SGF 游戏类型 GM[");
                push_decimal(&mut out, *n as u64);
                out.append("]（仅支持围棋 GM[1]）");
            },
            SgfErrorKind::BadNumber { ident, value } => {
                out.append("属性 ");
                out.append(ident.as_str());
                out.append(" 的值“");
                out.append(value.as_str());
                out.append("”不是合法数字");
            },
            SgfErrorKind::BadCoord { ident, value } => {
                out.append("属性 ");
                out.append(ident.as_str());
                out.append(" 的坐标“");
                out.append(value.as_str());
                out.append("”无法解析或超出棋盘范围");
            },
        }
        assert(out@ =~= self@.message());
        out
    }
}

/// Why text cannot be read, and where; some errors have no place.
#[derive(Clone, PartialEq, Eq, Debug)]
pub struct SgfError {
    /// The reason.
    pub kind: SgfErrorKind,
    /// The place; `None` where the text as a whole is at fault.
    pub position: Option<Position>,
}

/// The model of [`SgfError`].
pub struct ErrorView {
    pub kind: KindView,
    pub position: Option<Position>,
}

impl View for SgfError {
    type V = ErrorView;

    open spec fn view(&self) -> ErrorView {
        ErrorView { kind: self.kind@, position: self.position }
    }
}

impl ErrorView {
    /// The message shown to the user, with line and column where they are known.
    pub open spec fn message(self) -> Seq<char> {
        match self.position {
            Some(pos) => self.kind.message() + "（第 "@ + text::decimal(pos.line as nat)
                + " 行第 "@ + text::decimal(pos.col as nat) + " 列）"@,
            None => self.kind.message(),
        }
    }
}

impl SgfError {
    pub(crate) fn new(kind: SgfErrorKind, position: Option<Position>) -> (r: Self)
        ensures
            r@ == (ErrorView { kind: kind@, position }),
    {
        Self { kind, position }
    }

    /// The message shown to the user, with line and column where they are known.
    pub fn message(&self) -> (r: String)
        ensures
            r@ == self@.message(),
    {
        let mut out = self.kind.message();
        if let Some(pos) = &self.position {
            out.append("（第 ");
            push_decimal(&mut out, pos.line as u64);
            out.append(" 行第 ");
            push_decimal(&mut out, pos.col as u64);
            out.append(" 列）");
        }
        assert(out@ =~= self@.message());
        out
    }
}

} // verus!
