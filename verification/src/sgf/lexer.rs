//! The characters of SGF text: a cursor over them, and how values are escaped.
//!
//! In a value, `\]` stands for `]` and `\\` for `\`; any other character behind a backslash
//! stands for itself. A backslash before a line break drops the break. Plain line breaks stay.

use vstd::prelude::*;
use super::error::{ErrorView, Position, SgfError, SgfErrorKind};
use super::model;
use crate::text::{chars_of, slice_chars, string_of};

verus! {

/// A position in a text.
pub struct Cursor {
    chars: Vec<char>,
    pos: usize,
}

/// The number of bytes of a character in UTF-8.
fn char_len(c: char) -> (r: usize)
    ensures
        r == model::char_bytes(c),
{
    let u: u32 = c as u32;
    if u < 0x80 {
        1
    } else if u < 0x800 {
        2
    } else if u < 0x10000 {
        3
    } else {
        4
    }
}

/// Whether `c` is an ASCII letter.
pub fn letter(c: char) -> (r: bool)
    ensures
        r == model::is_letter(c),
{
    ('a' <= c && c <= 'z') || ('A' <= c && c <= 'Z')
}

/// The upper-case form of an ASCII letter; other characters stay.
pub fn to_upper(c: char) -> (r: char)
    ensures
        r == model::upper(c),
{
    if 'a' <= c && c <= 'z' {
        ((c as u32 - 32) as u8) as char
    } else {
        c
    }
}

/// A text with its ASCII letters in upper case.
pub fn upper_chars(chars: &[char]) -> (r: Vec<char>)
    ensures
        r@ == model::upper_text(chars@),
{
    let mut out: Vec<char> = Vec::new();
    let mut i: usize = 0;
    while i < chars.len()
        invariant
            i <= chars@.len(),
            out@.len() == i,
            forall|k: int| 0 <= k < i ==> out@[k] == model::upper(chars@[k]),
        decreases chars@.len() - i,
    {
        out.push(to_upper(chars[i]));
        i += 1;
    }
    assert(out@ =~= model::upper_text(chars@));
    out
}

impl Cursor {
    /// The text.
    pub closed spec fn text(self) -> Seq<char> {
        self.chars@
    }

    /// The position.
    pub closed spec fn at(self) -> int {
        self.pos as int
    }

    /// The position is within the text.
    pub open spec fn wf(self) -> bool {
        0 <= self.at() <= self.text().len()
    }

    /// A cursor at the start of a text.
    pub(crate) fn new(input: &str) -> (r: Self)
        ensures
            r.wf(),
            r.text() == input@,
            r.at() == 0,
    {
        Self { chars: chars_of(input), pos: 0 }
    }

    /// The position as told to the user.
    pub(crate) fn position(&self) -> (r: Position)
        requires
            self.wf(),
        ensures
            r == model::place(self.text(), self.at()),
    {
        let mut offset: usize = 0;
        let mut line: usize = 1;
        let mut col: usize = 1;
        let mut i: usize = 0;
        while i < self.pos
            invariant
                i <= self.pos <= self.chars@.len(),
                offset == model::clipped(model::bytes_before(self.chars@, i as int)),
                line == model::clipped(1 + model::breaks_before(self.chars@, i as int)),
                0 <= model::line_start(self.chars@, i as int) <= i,
                col == model::clipped((1 + i - model::line_start(self.chars@, i as int)) as nat),
            decreases self.pos - i,
        {
            let c = self.chars[i];
            offset = offset.saturating_add(char_len(c));
            if c == '\n' {
                line = line.saturating_add(1);
                col = 1;
            } else {
                col = col.saturating_add(1);
            }
            i += 1;
        }
        Position { offset, line, col }
    }

    /// The character at the cursor.
    pub(crate) fn peek(&self) -> (r: Option<char>)
        requires
            self.wf(),
        ensures
            r == model::char_at(self.text(), self.at()),
    {
        if self.pos < self.chars.len() {
            Some(self.chars[self.pos])
        } else {
            None
        }
    }

    /// Takes the character at the cursor.
    pub(crate) fn bump(&mut self) -> (r: Option<char>)
        requires
            old(self).wf(),
        ensures
            final(self).wf(),
            final(self).text() == old(self).text(),
            r == model::char_at(old(self).text(), old(self).at()),
            final(self).at() == old(self).at() + if r is Some {
                1int
            } else {
                0
            },
    {
        if self.pos < self.chars.len() {
            let c = self.chars[self.pos];
            self.pos += 1;
            Some(c)
        } else {
            None
        }
    }

    /// Skips white space.
    pub(crate) fn skip_ws(&mut self)
        requires
            old(self).wf(),
        ensures
            final(self).wf(),
            final(self).text() == old(self).text(),
            final(self).at() == model::skip_blank(old(self).text(), old(self).at()),
            old(self).at() <= final(self).at(),
    {
        let ghost (s, p) = (self.text(), self.at());
        while self.pos < self.chars.len() && (self.chars[self.pos] == ' ' || self.chars[self.pos]
            == '\t' || self.chars[self.pos] == '\r' || self.chars[self.pos] == '\n')
            invariant
                self.chars@ == s,
                p <= self.pos <= s.len(),
                model::skip_blank(s, p) == model::skip_blank(s, self.pos as int),
            decreases s.len() - self.pos,
        {
            self.pos += 1;
        }
    }

    /// Skips white space and returns the character behind it.
    pub(crate) fn peek_after_ws(&mut self) -> (r: Option<char>)
        requires
            old(self).wf(),
        ensures
            final(self).wf(),
            final(self).text() == old(self).text(),
            final(self).at() == model::skip_blank(old(self).text(), old(self).at()),
            old(self).at() <= final(self).at(),
            r == model::char_at(final(self).text(), final(self).at()),
    {
        self.skip_ws();
        self.peek()
    }

    /// Takes the character `want`; anything else is an error.
    pub(crate) fn expect(&mut self, want: char, expected: &'static str) -> (r: Result<
        (),
        SgfError,
    >)
        requires
            old(self).wf(),
        ensures
            final(self).wf(),
            final(self).text() == old(self).text(),
            match r {
                Ok(_) => model::char_at(old(self).text(), old(self).at()) == Some(want)
                    && final(self).at() == old(self).at() + 1,
                Err(e) => model::char_at(old(self).text(), old(self).at()) != Some(want)
                    && final(self).at() == old(self).at() && e@ == model::unexpected(
                    old(self).text(),
                    old(self).at(),
                    expected@,
                ),
            },
    {
        let found = self.peek();
        match found {
            Some(c) => {
                if c == want {
                    self.bump();
                    return Ok(());
                }
            },
            None => {},
        }
        Err(SgfError::new(SgfErrorKind::UnexpectedByte { expected, found }, Some(self.position())))
    }

    /// Takes a property name, which is given back in upper case.
    pub(crate) fn read_ident(&mut self) -> (r: String)
        requires
            old(self).wf(),
        ensures
            final(self).wf(),
            final(self).text() == old(self).text(),
            final(self).at() == model::letters_end(old(self).text(), old(self).at()),
            r@ == model::upper_text(
                old(self).text().subrange(
                    old(self).at(),
                    model::letters_end(old(self).text(), old(self).at()),
                ),
            ),
    {
        let ghost (s, p) = (self.text(), self.at());
        let start = self.pos;
        while self.pos < self.chars.len() && letter(self.chars[self.pos])
            invariant
                self.chars@ == s,
                p == start,
                start <= self.pos <= s.len(),
                model::letters_end(s, p) == model::letters_end(s, self.pos as int),
            decreases s.len() - self.pos,
        {
            self.pos += 1;
        }
        string_of(&upper_chars(&slice_chars(&self.chars, start, self.pos)))
    }

    /// Takes a value with its brackets.
    pub(crate) fn read_value(&mut self) -> (r: Result<String, SgfError>)
        requires
            old(self).wf(),
        ensures
            final(self).wf(),
            final(self).text() == old(self).text(),
            model::char_at(old(self).text(), old(self).at()) != Some('[') ==> (r matches Err(e)
                && e@ == model::unexpected(
                old(self).text(),
                old(self).at(),
                "属性值开头的“[”"@,
            )),
            model::char_at(old(self).text(), old(self).at()) == Some('[') ==> match model::value_rest(
                old(self).text(),
                old(self).at() + 1,
                Seq::empty(),
            ) {
                Ok((v, p)) => (r matches Ok(out) && out@ == v) && final(self).at() == p,
                Err(e) => r matches Err(x) && x@ == e,
            },
    {
        match self.expect('[', "属性值开头的“[”") {
            Ok(_) => {},
            Err(e) => {
                return Err(e);
            },
        }
        let ghost (s, p) = (self.text(), self.at());
        let mut out = String::new();
        let mut more = true;
        while more
            invariant
                self.wf(),
                self.text() == s,
                0 < p <= s.len(),
                model::char_at(old(self).text(), old(self).at()) == Some('['),
                s == old(self).text(),
                p == old(self).at() + 1,
                more ==> model::value_rest(s, p, Seq::empty()) == model::value_rest(
                    s,
                    self.at(),
                    out@,
                ),
                !more ==> self.at() == s.len() && model::value_rest(s, p, Seq::empty())
                    == Err::<(Seq<char>, int), ErrorView>(
                    model::unexpected(s, s.len() as int, "属性值结尾的“]”"@),
                ),
            decreases s.len() - self.at(), if more { 1int } else { 0int },
        {
            match self.bump() {
                Some(']') => {
                    return Ok(out);
                },
                Some('\\') => match self.bump() {
                    Some('\n') => {},
                    Some('\r') => {
                        if self.peek() == Some('\n') {
                            self.bump();
                        }
                    },
                    Some(c) => {
                        out.push(c);
                    },
                    None => {
                        more = false;
                    },
                },
                Some(c) => {
                    out.push(c);
                },
                None => {
                    more = false;
                },
            }
        }
        Err(
            SgfError::new(
                SgfErrorKind::UnexpectedByte { expected: "属性值结尾的“]”", found: None },
                Some(self.position()),
            ),
        )
    }
}

/// Appends a value, escaped: a backslash before every `\` and `]`.
pub(crate) fn escape_value(value: &str, out: &mut String)
    ensures
        final(out)@ == old(out)@ + model::escaped(value@),
{
    let chars = chars_of(value);
    let ghost start = out@;
    let mut i: usize = 0;
    assert(chars@.skip(0) =~= chars@);
    while i < chars.len()
        invariant
            i <= chars@.len(),
            out@ + model::escaped(chars@.skip(i as int)) == start + model::escaped(chars@),
        decreases chars@.len() - i,
    {
        let c = chars[i];
        let ghost before = out@;
        if c == '\\' || c == ']' {
            out.push('\\');
        }
        out.push(c);
        proof {
            let rest = chars@.skip(i as int);
            assert(rest.skip(1) =~= chars@.skip(i + 1));
            assert(out@ =~= before + model::escaped_char(c));
            assert(out@ + model::escaped(chars@.skip(i + 1)) =~= before + (model::escaped_char(c)
                + model::escaped(chars@.skip(i + 1))));
        }
        i += 1;
    }
    assert(out@ =~= start + model::escaped(chars@));
}

} // verus!
