//! JSON, one level at a time.
//!
//! Whether a text is JSON, and what a null, a truth value, a number or a text in it says, is
//! `serde_json`'s to tell. An array or an object is cut into the values inside it: they stand in a
//! [`Json`] value as text of their own, as it was written, to be read in turn.

use vstd::prelude::*;
use serde::de::IgnoredAny;
use serde_json::Value;
use crate::text::{self, chars_of, parse_unsigned, same_text, slice_chars, string_of};

verus! {

/// A JSON value; what is inside it is text.
#[derive(Debug)]
pub enum Json {
    Null,
    Bool(bool),
    /// A number in the form in which `serde_json` displays it.
    Number(String),
    Text(String),
    Array(Vec<String>),
    Object(Vec<(String, String)>),
}

/// The model of [`Json`].
#[verifier::ext_equal]
pub enum JsonView {
    Null,
    Bool(bool),
    Number(Seq<char>),
    Text(Seq<char>),
    Array(Seq<Seq<char>>),
    Object(Seq<(Seq<char>, Seq<char>)>),
}

/// The texts of a list of strings.
pub open spec fn texts(v: Seq<String>) -> Seq<Seq<char>> {
    v.map_values(|s: String| s@)
}

/// The texts of a list of keys and values.
pub open spec fn pairs(v: Seq<(String, String)>) -> Seq<(Seq<char>, Seq<char>)> {
    v.map_values(|p: (String, String)| (p.0@, p.1@))
}

impl View for Json {
    type V = JsonView;

    open spec fn view(&self) -> JsonView {
        match *self {
            Json::Null => JsonView::Null,
            Json::Bool(b) => JsonView::Bool(b),
            Json::Number(s) => JsonView::Number(s@),
            Json::Text(s) => JsonView::Text(s@),
            Json::Array(items) => JsonView::Array(texts(items@)),
            Json::Object(fields) => JsonView::Object(pairs(fields@)),
        }
    }
}

/// What `serde_json` reads a text as: a null, a truth value, a number in the form in which
/// `serde_json` displays it, or a text; nothing for an array or an object; or the message of the
/// error.
pub uninterp spec fn json_read(source: Seq<char>) -> Result<Option<JsonView>, Seq<char>>;

/// `serde_json::from_str` into `serde_json::Value`: what the text is, where it is neither an array
/// nor an object, or the message of the error. The contract only names the result.
#[verifier::external_body]
pub(crate) fn read_json(source: &str) -> (r: Result<Option<Json>, String>)
    ensures
        match json_read(source@) {
            Ok(Some(v)) => r matches Ok(Some(x)) && x@ == v,
            Ok(None) => r matches Ok(None),
            Err(e) => r matches Err(x) && x@ == e,
        },
{
    match serde_json::from_str::<Value>(source) {
        Err(e) => Err(e.to_string()),
        Ok(Value::Null) => Ok(Some(Json::Null)),
        Ok(Value::Bool(b)) => Ok(Some(Json::Bool(b))),
        Ok(Value::Number(n)) => Ok(Some(Json::Number(n.to_string()))),
        Ok(Value::String(s)) => Ok(Some(Json::Text(s))),
        Ok(Value::Array(_)) => Ok(None),
        Ok(Value::Object(_)) => Ok(None),
    }
}

/// The compact text that `serde_json` displays what it reads a text as, where it can read it.
pub uninterp spec fn json_shown(source: Seq<char>) -> Option<Seq<char>>;

/// The display of the `serde_json::Value` that a text is read as. The contract only names the
/// result.
#[verifier::external_body]
fn show_json(source: &str) -> (r: Option<String>)
    ensures
        match json_shown(source@) {
            Some(s) => r matches Some(x) && x@ == s,
            None => r is None,
        },
{
    match serde_json::from_str::<Value>(source) {
        Ok(v) => Some(v.to_string()),
        Err(_) => None,
    }
}

/// The message of the error where a text is not JSON. The text may hold values of any depth,
/// numbers of any size and escapes of any kind.
pub uninterp spec fn json_fault(source: Seq<char>) -> Option<Seq<char>>;

/// `serde_json::from_str` into `serde::de::IgnoredAny`: the message of the error where the text is
/// not JSON. The contract only names the result.
#[verifier::external_body]
pub(crate) fn check_json(source: &str) -> (r: Option<String>)
    ensures
        match json_fault(source@) {
            Some(s) => r matches Some(x) && x@ == s,
            None => r is None,
        },
{
    match serde_json::from_str::<IgnoredAny>(source) {
        Ok(_) => None,
        Err(e) => Some(e.to_string()),
    }
}

/// A character inside a text in quotes: quotation marks, backslashes and control characters are
/// escaped, and nothing else.
pub open spec fn json_char(c: char) -> Seq<char> {
    if c == '"' || c == '\\' {
        seq!['\\', c]
    } else if c == '\u{8}' {
        seq!['\\', 'b']
    } else if c == '\t' {
        seq!['\\', 't']
    } else if c == '\n' {
        seq!['\\', 'n']
    } else if c == '\u{c}' {
        seq!['\\', 'f']
    } else if c == '\r' {
        seq!['\\', 'r']
    } else if (c as int) < 0x20 {
        seq!['\\', 'u', '0', '0'] + text::hex_byte(c as u8)
    } else {
        seq![c]
    }
}

/// The characters of a text inside quotes.
pub open spec fn json_chars(s: Seq<char>) -> Seq<char>
    decreases s.len(),
{
    if s.len() == 0 {
        Seq::empty()
    } else {
        json_chars(s.drop_last()) + json_char(s.last())
    }
}

/// A text as JSON writes it.
#[verifier::opaque]
pub open spec fn json_quoted(s: Seq<char>) -> Seq<char> {
    seq!['"'] + json_chars(s) + seq!['"']
}

/// The display of a `serde_json::Value` that holds a text: the text in quotes, with `"`, `\` and
/// the control characters below U+0020 escaped, the latter by their short escapes where they have
/// one and as `\u00` with two small hexadecimal digits where not.
#[verifier::external_body]
pub(crate) fn quote_json(s: &str) -> (r: String)
    ensures
        r@ == json_quoted(s@),
{
    Value::from(s).to_string()
}

// ---- the values inside a value ----

/// Whether the end of a text stands inside quotes, and there behind a backslash.
pub open spec fn quoting(s: Seq<char>) -> (bool, bool)
    decreases s.len(),
{
    if s.len() == 0 {
        (false, false)
    } else {
        let (quoted, escaped) = quoting(s.drop_last());
        if !quoted {
            (s.last() == '"', false)
        } else if escaped {
            (true, false)
        } else {
            (s.last() != '"', s.last() == '\\')
        }
    }
}

/// How many brackets are open at the end of a text.
pub open spec fn depth(s: Seq<char>) -> nat
    decreases s.len(),
{
    if s.len() == 0 {
        0
    } else {
        let before = depth(s.drop_last());
        let c = s.last();
        if quoting(s.drop_last()).0 {
            before
        } else if c == '[' || c == '{' {
            before + 1
        } else if (c == ']' || c == '}') && before > 0 {
            (before - 1) as nat
        } else {
            before
        }
    }
}

/// The pieces between the separators that stand outside quotes and brackets.
pub open spec fn split(s: Seq<char>, sep: char) -> Seq<Seq<char>>
    decreases s.len(),
{
    if s.len() == 0 {
        seq![Seq::empty()]
    } else {
        let before = split(s.drop_last(), sep);
        if s.last() == sep && !quoting(s.drop_last()).0 && depth(s.drop_last()) == 0 {
            before.push(Seq::empty())
        } else {
            before.drop_last().push(before.last().push(s.last()))
        }
    }
}

fn split_at(s: &[char], sep: char) -> (r: Vec<Vec<char>>)
    ensures
        text::char_lists(r@) == split(s@, sep),
{
    let mut out: Vec<Vec<char>> = Vec::new();
    let mut piece: Vec<char> = Vec::new();
    let mut quoted = false;
    let mut escaped = false;
    let mut open_now: usize = 0;
    let mut i: usize = 0;
    assert(s@.take(0) =~= Seq::empty());
    assert(text::char_lists(out@).push(piece@) =~= seq![Seq::<char>::empty()]);
    while i < s.len()
        invariant
            i <= s@.len(),
            open_now <= i,
            quoting(s@.take(i as int)) == (quoted, escaped),
            depth(s@.take(i as int)) == open_now,
            split(s@.take(i as int), sep) == text::char_lists(out@).push(piece@),
        decreases s@.len() - i,
    {
        let c: char = s[i];
        let ghost done = out@;
        let ghost had = piece@;
        proof {
            let t = s@.take(i + 1);
            assert(t.drop_last() =~= s@.take(i as int));
            assert(t.last() == c);
            assert(text::char_lists(done).push(had).drop_last() =~= text::char_lists(done));
        }
        if c == sep && !quoted && open_now == 0 {
            out.push(piece);
            piece = Vec::new();
            assert(text::char_lists(out@) =~= text::char_lists(done).push(had));
        } else {
            piece.push(c);
        }
        if quoted {
            if escaped {
                escaped = false;
            } else if c == '\\' {
                escaped = true;
            } else if c == '"' {
                quoted = false;
            }
        } else if c == '"' {
            quoted = true;
        } else if c == '[' || c == '{' {
            open_now += 1;
        } else if (c == ']' || c == '}') && open_now > 0 {
            open_now -= 1;
        }
        i += 1;
    }
    assert(s@.take(i as int) =~= s@);
    let ghost done = out@;
    let ghost had = piece@;
    out.push(piece);
    assert(text::char_lists(out@) =~= text::char_lists(done).push(had));
    out
}

/// What stands between the brackets `first` and `last`, where a text is in them.
pub open spec fn inside(s: Seq<char>, first: char, last: char) -> Option<Seq<char>> {
    let t = text::trimmed(s);
    if t.len() >= 2 && t[0] == first && t.last() == last {
        Some(t.subrange(1, t.len() - 1))
    } else {
        None
    }
}

fn inside_of(s: &[char], first: char, last: char) -> (r: Option<Vec<char>>)
    ensures
        match inside(s@, first, last) {
            Some(x) => r matches Some(v) && v@ == x,
            None => r is None,
        },
{
    let t = text::trim(s);
    if t.len() >= 2 && t[0] == first && t[t.len() - 1] == last {
        Some(slice_chars(&t, 1, t.len() - 1))
    } else {
        None
    }
}

/// The values with commas between them; none where there is only white space.
pub open spec fn listed(s: Seq<char>) -> Seq<Seq<char>> {
    if text::trimmed(s).len() == 0 {
        Seq::empty()
    } else {
        split(s, ',')
    }
}

fn list_of(s: &[char]) -> (r: Vec<Vec<char>>)
    ensures
        text::char_lists(r@) == listed(s@),
{
    let t = text::trim(s);
    if t.len() == 0 {
        let none: Vec<Vec<char>> = Vec::new();
        assert(text::char_lists(none@) =~= Seq::empty());
        none
    } else {
        split_at(s, ',')
    }
}

/// The key and the value of a part of an object.
pub open spec fn member(s: Seq<char>) -> Option<(Seq<char>, Seq<char>)> {
    let sides = split(s, ':');
    if sides.len() == 2 {
        match json_read(sides[0]) {
            Ok(Some(JsonView::Text(key))) => Some((key, sides[1])),
            _ => None,
        }
    } else {
        None
    }
}

fn member_of(s: &[char]) -> (r: Option<(String, String)>)
    ensures
        match member(s@) {
            Some(m) => r matches Some(x) && (x.0@, x.1@) == m,
            None => r is None,
        },
{
    let sides = split_at(s, ':');
    assert(text::char_lists(sides@).len() == sides@.len());
    if sides.len() != 2 {
        return None;
    }
    assert(text::char_lists(sides@)[0] == sides@[0]@);
    assert(text::char_lists(sides@)[1] == sides@[1]@);
    match read_json(string_of(&sides[0]).as_str()) {
        Ok(Some(Json::Text(key))) => Some((key, string_of(&sides[1]))),
        _ => None,
    }
}

/// The keys and the values of the parts of an object; `None` where a part is none.
pub open spec fn members(parts: Seq<Seq<char>>) -> Option<Seq<(Seq<char>, Seq<char>)>>
    decreases parts.len(),
{
    if parts.len() == 0 {
        Some(Seq::empty())
    } else {
        match (members(parts.drop_last()), member(parts.last())) {
            (Some(done), Some(m)) => Some(done.push(m)),
            _ => None,
        }
    }
}

/// With something else than a part in front there are no parts.
proof fn lemma_members_prefix(parts: Seq<Seq<char>>, n: int)
    requires
        0 <= n <= parts.len(),
        members(parts.take(n)) is None,
    ensures
        members(parts) is None,
    decreases parts.len(),
{
    if n == parts.len() {
        assert(parts.take(n) =~= parts);
    } else {
        assert(parts.drop_last().take(n) =~= parts.take(n));
        lemma_members_prefix(parts.drop_last(), n);
    }
}

fn members_of(parts: &Vec<Vec<char>>) -> (r: Option<Vec<(String, String)>>)
    ensures
        match members(text::char_lists(parts@)) {
            Some(s) => r matches Some(x) && pairs(x@) == s,
            None => r is None,
        },
{
    let ghost all = text::char_lists(parts@);
    let mut out: Vec<(String, String)> = Vec::new();
    let mut i: usize = 0;
    assert(all.take(0) =~= Seq::empty());
    assert(pairs(out@) =~= Seq::empty());
    while i < parts.len()
        invariant
            i <= parts@.len(),
            all == text::char_lists(parts@),
            members(all.take(i as int)) == Some(pairs(out@)),
        decreases parts@.len() - i,
    {
        let ghost done = out@;
        proof {
            let t = all.take(i + 1);
            assert(t.drop_last() =~= all.take(i as int));
            assert(t.last() == parts@[i as int]@);
        }
        match member_of(&parts[i]) {
            Some(m) => {
                out.push(m);
                assert(pairs(out@) =~= pairs(done).push((m.0@, m.1@)));
            },
            None => {
                proof {
                    assert(members(all.take(i + 1)) is None);
                    lemma_members_prefix(all, i + 1);
                }
                return None;
            },
        }
        i += 1;
    }
    assert(all.take(i as int) =~= all);
    Some(out)
}

fn strings_of(list: &Vec<Vec<char>>) -> (r: Vec<String>)
    ensures
        texts(r@) == text::char_lists(list@),
{
    let ghost all = text::char_lists(list@);
    let mut out: Vec<String> = Vec::new();
    let mut i: usize = 0;
    assert(texts(out@) =~= all.take(0));
    while i < list.len()
        invariant
            i <= list@.len(),
            all == text::char_lists(list@),
            texts(out@) == all.take(i as int),
        decreases list@.len() - i,
    {
        let ghost done = out@;
        let s = string_of(&list[i]);
        out.push(s);
        i += 1;
        assert(texts(out@) =~= texts(done).push(s@));
        assert(all.take(i as int) =~= all.take(i - 1).push(list@[i - 1]@));
    }
    assert(all.take(i as int) =~= all);
    out
}

/// What a text reads as, where it can be read: an array and an object by the values inside, all
/// else as `serde_json` reads it. Of a text that is JSON, an array always reads as one, and an
/// object wherever its keys are texts.
pub open spec fn read(source: Seq<char>) -> Option<JsonView> {
    match (inside(source, '[', ']'), inside(source, '{', '}')) {
        (Some(s), _) => Some(JsonView::Array(listed(s))),
        (None, Some(s)) => match members(listed(s)) {
            Some(fields) => Some(JsonView::Object(fields)),
            None => None,
        },
        (None, None) => match json_read(source) {
            Ok(v) => v,
            Err(_) => None,
        },
    }
}

/// What a text reads as, where it can be read.
pub fn open_json(source: &str) -> (r: Option<Json>)
    ensures
        match read(source@) {
            Some(v) => r matches Some(x) && x@ == v,
            None => r is None,
        },
{
    let chars = chars_of(source);
    if let Some(s) = inside_of(&chars, '[', ']') {
        return Some(Json::Array(strings_of(&list_of(&s))));
    }
    if let Some(s) = inside_of(&chars, '{', '}') {
        return match members_of(&list_of(&s)) {
            Some(fields) => Some(Json::Object(fields)),
            None => None,
        };
    }
    match read_json(source) {
        Ok(v) => v,
        Err(_) => None,
    }
}

/// A text in compact form, or as it is where it cannot be read.
pub open spec fn compact(source: Seq<char>) -> Seq<char> {
    match json_shown(source) {
        Some(s) => s,
        None => source,
    }
}

/// A text in compact form, or as it is where it cannot be read.
pub fn compact_text(source: &str) -> (r: String)
    ensures
        r@ == compact(source@),
{
    match show_json(source) {
        Some(s) => s,
        None => source.to_owned(),
    }
}

// ---- what a value says ----

/// The value under a key; the last one counts.
pub open spec fn under(fields: Seq<(Seq<char>, Seq<char>)>, key: Seq<char>) -> Option<Seq<char>>
    decreases fields.len(),
{
    if fields.len() == 0 {
        None
    } else if fields.last().0 == key {
        Some(fields.last().1)
    } else {
        under(fields.drop_last(), key)
    }
}

/// The key of an object with no other and the value that counts under it.
pub open spec fn lone(fields: Seq<(Seq<char>, Seq<char>)>) -> Option<(Seq<char>, Seq<char>)> {
    if fields.len() > 0 && forall|i: int|
        0 <= i < fields.len() ==> (#[trigger] fields[i]).0 == fields.last().0 {
        Some(fields.last())
    } else {
        None
    }
}

/// Whether a key stands in a list more than once.
pub open spec fn twice(fields: Seq<(Seq<char>, Seq<char>)>, key: Seq<char>) -> bool {
    exists|a: int, b: int|
        #![trigger fields[a], fields[b]]
        0 <= a < b < fields.len() && fields[a].0 == key && fields[b].0 == key
}

/// Whether a key stands in an object more than once.
pub open spec fn repeats(j: JsonView, key: Seq<char>) -> bool {
    match j {
        JsonView::Object(fields) => twice(fields, key),
        _ => false,
    }
}

/// The value under a key of an object.
pub open spec fn field(j: JsonView, key: Seq<char>) -> Option<Seq<char>> {
    match j {
        JsonView::Object(fields) => under(fields, key),
        _ => None,
    }
}

/// The part of a record: the value under the key of an object, or the value at the place in an
/// array.
pub open spec fn part(j: JsonView, place: int, key: Seq<char>) -> Option<Seq<char>> {
    match j {
        JsonView::Object(fields) => under(fields, key),
        JsonView::Array(items) => if 0 <= place < items.len() {
            Some(items[place])
        } else {
            None
        },
        _ => None,
    }
}

/// The number, where the value is a whole number from 0 to `max`.
pub open spec fn whole(j: JsonView, max: nat) -> Option<nat> {
    match j {
        JsonView::Number(s) => text::parsed_unsigned(s, max),
        _ => None,
    }
}

/// The text, where the value is one.
pub open spec fn string(j: JsonView) -> Option<Seq<char>> {
    match j {
        JsonView::Text(s) => Some(s),
        _ => None,
    }
}

/// The name of a variant without fields: a text, or an object with the name and null.
pub open spec fn variant_name(j: JsonView) -> Option<Seq<char>> {
    match j {
        JsonView::Text(s) => Some(s),
        JsonView::Object(fields) => match lone(fields) {
            Some((key, raw)) => if read(raw) == Some(JsonView::Null) {
                Some(key)
            } else {
                None
            },
            None => None,
        },
        _ => None,
    }
}

/// The value under a key; the last one counts.
pub fn find_field<'a>(fields: &'a Vec<(String, String)>, key: &str) -> (r: Option<&'a String>)
    ensures
        match under(pairs(fields@), key@) {
            Some(s) => r matches Some(x) && x@ == s,
            None => r is None,
        },
{
    let ghost all = pairs(fields@);
    let mut n: usize = fields.len();
    assert(all.take(n as int) =~= all);
    while n > 0
        invariant
            n <= fields@.len(),
            all == pairs(fields@),
            under(all, key@) == under(all.take(n as int), key@),
        decreases n,
    {
        n -= 1;
        assert(all.take(n + 1).last() == (fields@[n as int].0@, fields@[n as int].1@));
        assert(all.take(n + 1).drop_last() =~= all.take(n as int));
        if same_text(fields[n].0.as_str(), key) {
            return Some(&fields[n].1);
        }
    }
    None
}

/// The key of an object with no other and the value that counts under it.
pub fn lone_field<'a>(fields: &'a Vec<(String, String)>) -> (r: Option<&'a (String, String)>)
    ensures
        match lone(pairs(fields@)) {
            Some(m) => r matches Some(x) && (x.0@, x.1@) == m,
            None => r is None,
        },
{
    let n = fields.len();
    let ghost all = pairs(fields@);
    assert(all.len() == n);
    if n == 0 {
        return None;
    }
    assert(all.last() == (fields@[n - 1].0@, fields@[n - 1].1@));
    let mut i: usize = 0;
    while i < n
        invariant
            n > 0,
            n == fields@.len(),
            i <= n,
            all == pairs(fields@),
            all.last() == (fields@[n - 1].0@, fields@[n - 1].1@),
            forall|k: int| 0 <= k < i ==> (#[trigger] all[k]).0 == all.last().0,
        decreases n - i,
    {
        assert(all[i as int] == (fields@[i as int].0@, fields@[i as int].1@));
        if !same_text(fields[i].0.as_str(), fields[n - 1].0.as_str()) {
            return None;
        }
        i += 1;
    }
    Some(&fields[n - 1])
}

fn stands_twice(fields: &Vec<(String, String)>, key: &str) -> (r: bool)
    ensures
        r == twice(pairs(fields@), key@),
{
    let ghost all = pairs(fields@);
    let mut found = false;
    let ghost mut at: int = 0;
    let mut i: usize = 0;
    while i < fields.len()
        invariant
            i <= fields@.len(),
            all == pairs(fields@),
            found ==> 0 <= at < i && all[at].0 == key@,
            !found ==> forall|k: int| 0 <= k < i ==> (#[trigger] all[k]).0 != key@,
            found ==> forall|k: int| 0 <= k < i && k != at ==> (#[trigger] all[k]).0 != key@,
        decreases fields@.len() - i,
    {
        assert(all[i as int] == (fields@[i as int].0@, fields@[i as int].1@));
        if same_text(fields[i].0.as_str(), key) {
            if found {
                assert(all.len() == fields@.len());
                assert(all[at].0 == key@ && all[i as int].0 == key@);
                return true;
            }
            found = true;
            proof {
                at = i as int;
            }
        }
        i += 1;
    }
    false
}

impl Json {
    /// The value under a key of an object.
    pub fn get(&self, key: &str) -> (r: Option<&String>)
        ensures
            match field(self@, key@) {
                Some(s) => r matches Some(x) && x@ == s,
                None => r is None,
            },
    {
        match self {
            Json::Object(fields) => find_field(fields, key),
            _ => None,
        }
    }

    /// Whether a key stands in an object more than once.
    pub fn has_twice(&self, key: &str) -> (r: bool)
        ensures
            r == repeats(self@, key@),
    {
        match self {
            Json::Object(fields) => stands_twice(fields, key),
            _ => false,
        }
    }

    /// The part of a record.
    pub fn part(&self, place: usize, key: &str) -> (r: Option<&String>)
        ensures
            match part(self@, place as int, key@) {
                Some(s) => r matches Some(x) && x@ == s,
                None => r is None,
            },
    {
        match self {
            Json::Object(fields) => find_field(fields, key),
            Json::Array(items) => {
                if place < items.len() {
                    assert(texts(items@)[place as int] == items@[place as int]@);
                    Some(&items[place])
                } else {
                    None
                }
            },
            _ => None,
        }
    }

    /// The number, where the value is a whole number from 0 to `max`.
    pub fn as_whole(&self, max: u64) -> (r: Option<u64>)
        ensures
            r is Some == whole(self@, max as nat) is Some,
            r matches Some(n) ==> whole(self@, max as nat) == Some(n as nat) && n <= max,
    {
        match self {
            Json::Number(s) => parse_unsigned(&chars_of(s.as_str()), max),
            _ => None,
        }
    }

    /// The text, where the value is one.
    pub fn as_text(&self) -> (r: Option<String>)
        ensures
            match string(self@) {
                Some(s) => r matches Some(x) && x@ == s,
                None => r is None,
            },
    {
        match self {
            Json::Text(s) => Some(s.clone()),
            _ => None,
        }
    }

    /// The name of a variant without fields.
    pub fn as_variant(&self) -> (r: Option<String>)
        ensures
            match variant_name(self@) {
                Some(s) => r matches Some(x) && x@ == s,
                None => r is None,
            },
    {
        match self {
            Json::Text(s) => Some(s.clone()),
            Json::Object(fields) => {
                match lone_field(fields) {
                    Some(m) => match open_json(m.1.as_str()) {
                        Some(Json::Null) => Some(m.0.clone()),
                        _ => None,
                    },
                    None => None,
                }
            },
            _ => None,
        }
    }
}

// ---- what cutting gives ----

/// Whether a text ends outside quotes and brackets.
pub open spec fn closed_text(s: Seq<char>) -> bool {
    !quoting(s).0 && depth(s) == 0
}

/// Behind a text that ends outside quotes and brackets another one stands as it would alone.
proof fn lemma_behind_closed(a: Seq<char>, b: Seq<char>)
    requires
        closed_text(a),
    ensures
        quoting(a + b).0 == quoting(b).0,
        quoting(b).0 ==> quoting(a + b).1 == quoting(b).1,
        depth(a + b) == depth(b),
    decreases b.len(),
{
    if b.len() == 0 {
        assert(a + b =~= a);
    } else {
        assert((a + b).drop_last() =~= a + b.drop_last());
        assert((a + b).last() == b.last());
        lemma_behind_closed(a, b.drop_last());
    }
}

proof fn lemma_split_some(s: Seq<char>, sep: char)
    ensures
        split(s, sep).len() > 0,
    decreases s.len(),
{
    if s.len() > 0 {
        lemma_split_some(s.drop_last(), sep);
    }
}

/// A separator behind a text that ends outside quotes and brackets parts it from what follows: the
/// pieces are those of the one and then those of the other.
pub proof fn law_separator_parts(a: Seq<char>, b: Seq<char>, sep: char)
    requires
        closed_text(a),
        sep == ',' || sep == ':',
    ensures
        split(a + seq![sep] + b, sep) == split(a, sep) + split(b, sep),
    decreases b.len(),
{
    let front = a + seq![sep];
    assert(front.drop_last() =~= a);
    assert(front.last() == sep);
    lemma_split_some(a, sep);
    lemma_split_some(b, sep);
    if b.len() == 0 {
        assert(front + b =~= front);
        assert(split(a, sep).push(Seq::empty()) =~= split(a, sep) + split(b, sep));
    } else {
        let rest = b.drop_last();
        law_separator_parts(a, rest, sep);
        lemma_split_some(rest, sep);
        assert(closed_text(front));
        lemma_behind_closed(front, rest);
        let s = front + b;
        assert(s.drop_last() =~= front + rest);
        assert(s.last() == b.last());
        let before = split(a, sep) + split(rest, sep);
        assert(before.last() == split(rest, sep).last());
        assert(before.drop_last() =~= split(a, sep) + split(rest, sep).drop_last());
        assert(split(s, sep) =~= split(a, sep) + split(b, sep));
    }
}

/// A text without the separator is one piece.
pub proof fn law_no_separator(s: Seq<char>, sep: char)
    requires
        forall|i: int| 0 <= i < s.len() ==> #[trigger] s[i] != sep,
    ensures
        split(s, sep) == seq![s],
    decreases s.len(),
{
    if s.len() > 0 {
        let rest = s.drop_last();
        assert forall|i: int| 0 <= i < rest.len() implies #[trigger] rest[i] != sep by {
            assert(s[i] != sep);
        }
        law_no_separator(rest, sep);
        assert(s[s.len() - 1] != sep);
        assert(seq![rest].drop_last().push(rest.push(s.last())) =~= seq![s]) by {
            assert(rest.push(s.last()) =~= s);
        }
    } else {
        assert(s =~= Seq::empty());
    }
}

/// A text in quotes that holds neither quotes nor backslashes is one piece, whatever separators and
/// brackets it holds, and ends outside quotes and brackets.
pub proof fn law_quotes_keep_together(u: Seq<char>, sep: char)
    requires
        sep == ',' || sep == ':',
        forall|i: int| 0 <= i < u.len() ==> #[trigger] u[i] != '"' && u[i] != '\\',
    ensures
        split(seq!['"'] + u + seq!['"'], sep) == seq![seq!['"'] + u + seq!['"']],
        closed_text(seq!['"'] + u + seq!['"']),
{
    lemma_inside_quotes(u, sep, u.len() as int);
    assert(u.take(u.len() as int) =~= u);
    let s = seq!['"'] + u + seq!['"'];
    let rest = seq!['"'] + u;
    assert(s.drop_last() =~= rest);
    assert(s.last() == '"');
    assert(split(s, sep) =~= seq![s]) by {
        assert(rest.push('"') =~= s);
    }
}

proof fn lemma_inside_quotes(u: Seq<char>, sep: char, k: int)
    requires
        sep == ',' || sep == ':',
        0 <= k <= u.len(),
        forall|i: int| 0 <= i < u.len() ==> #[trigger] u[i] != '"' && u[i] != '\\',
    ensures
        ({
            let s = seq!['"'] + u.take(k);
            &&& split(s, sep) == seq![s]
            &&& quoting(s) == (true, false)
            &&& depth(s) == 0
        }),
    decreases k,
{
    let s = seq!['"'] + u.take(k);
    if k == 0 {
        reveal_with_fuel(split, 2);
        reveal_with_fuel(quoting, 2);
        reveal_with_fuel(depth, 2);
        assert(s =~= seq!['"']);
        assert(s.drop_last() =~= Seq::<char>::empty());
        assert(split(s, sep) =~= seq![s]) by {
            assert(Seq::<char>::empty().push('"') =~= s);
        }
    } else {
        lemma_inside_quotes(u, sep, k - 1);
        let rest = seq!['"'] + u.take(k - 1);
        assert(s.drop_last() =~= rest);
        assert(s.last() == u[k - 1]);
        assert(split(s, sep) =~= seq![s]) by {
            assert(rest.push(u[k - 1]) =~= s);
        }
    }
}

/// A text in brackets in which no bracket closes before it was opened is one piece, whatever
/// separators it holds.
pub proof fn law_brackets_keep_together(first: char, t: Seq<char>, last: char, sep: char)
    requires
        sep == ',' || sep == ':',
        first == '[' || first == '{',
        last == ']' || last == '}',
        forall|k: int| 0 <= k <= t.len() ==> depth(#[trigger] (seq![first] + t.take(k))) >= 1,
        depth(seq![first] + t) == 1,
        !quoting(seq![first] + t).0,
    ensures
        split(seq![first] + t + seq![last], sep) == seq![seq![first] + t + seq![last]],
        closed_text(seq![first] + t + seq![last]),
{
    lemma_inside_brackets(first, t, sep, t.len() as int);
    assert(t.take(t.len() as int) =~= t);
    let s = seq![first] + t + seq![last];
    let rest = seq![first] + t;
    assert(s.drop_last() =~= rest);
    assert(s.last() == last);
    assert(split(s, sep) =~= seq![s]) by {
        assert(rest.push(last) =~= s);
    }
}

proof fn lemma_inside_brackets(first: char, t: Seq<char>, sep: char, k: int)
    requires
        sep == ',' || sep == ':',
        first == '[' || first == '{',
        0 <= k <= t.len(),
        forall|i: int| 0 <= i <= t.len() ==> depth(#[trigger] (seq![first] + t.take(i))) >= 1,
    ensures
        split(seq![first] + t.take(k), sep) == seq![seq![first] + t.take(k)],
    decreases k,
{
    let s = seq![first] + t.take(k);
    if k == 0 {
        reveal_with_fuel(split, 2);
        assert(s =~= seq![first]);
        assert(s.drop_last() =~= Seq::<char>::empty());
        assert(split(s, sep) =~= seq![s]) by {
            assert(Seq::<char>::empty().push(first) =~= s);
        }
    } else {
        lemma_inside_brackets(first, t, sep, k - 1);
        let rest = seq![first] + t.take(k - 1);
        assert(depth(rest) >= 1);
        assert(s.drop_last() =~= rest);
        assert(s.last() == t[k - 1]);
        assert(split(s, sep) =~= seq![s]) by {
            assert(rest.push(t[k - 1]) =~= s);
        }
    }
}

/// What stands in square brackets is an array of the pieces between its commas, what stands in
/// braces is an object of them, and anything else is what `serde_json` reads it as.
pub proof fn law_read_by_brackets(t: Seq<char>)
    ensures
        read(seq!['['] + t + seq![']']) == Some(
            JsonView::Array(
                if text::trimmed(t).len() == 0 {
                    Seq::empty()
                } else {
                    split(t, ',')
                },
            ),
        ),
        read(seq!['{'] + t + seq!['}']) == match members(
            if text::trimmed(t).len() == 0 {
                Seq::empty()
            } else {
                split(t, ',')
            },
        ) {
            Some(fields) => Some(JsonView::Object(fields)),
            None => None,
        },
        text::trimmed(t).len() > 0 && text::trimmed(t)[0] != '[' && text::trimmed(t)[0] != '{'
            ==> read(t) == match json_read(t) {
            Ok(v) => v,
            Err(_) => None,
        },
{
    let a = seq!['['] + t + seq![']'];
    let b = seq!['{'] + t + seq!['}'];
    text::lemma_trimmed_id(a);
    text::lemma_trimmed_id(b);
    assert(a.subrange(1, a.len() - 1) =~= t);
    assert(b.subrange(1, b.len() - 1) =~= t);
    assert(a[0] == '[' && a.last() == ']' && b[0] == '{' && b.last() == '}');
}

/// The parts of an object are its keys and values in their order.
pub proof fn law_members_in_order(parts: Seq<Seq<char>>)
    ensures
        members(parts) is Some <==> forall|k: int|
            0 <= k < parts.len() ==> member(#[trigger] parts[k]) is Some,
        members(parts) matches Some(ms) ==> ms.len() == parts.len() && forall|k: int|
            0 <= k < parts.len() ==> member(parts[k]) == Some(#[trigger] ms[k]),
    decreases parts.len(),
{
    if parts.len() > 0 {
        let front = parts.drop_last();
        law_members_in_order(front);
        if forall|k: int| 0 <= k < parts.len() ==> member(#[trigger] parts[k]) is Some {
            assert forall|k: int| 0 <= k < front.len() implies member(
                #[trigger] front[k],
            ) is Some by {
                assert(member(parts[k]) is Some);
            }
            assert(member(parts[parts.len() - 1]) is Some);
        }
        if members(parts) is Some {
            let ms = members(parts)->0;
            let done = members(front)->0;
            assert forall|k: int| 0 <= k < parts.len() implies member(parts[k]) == Some(
                #[trigger] ms[k],
            ) by {
                if k < front.len() {
                    assert(front[k] == parts[k]);
                    assert(ms[k] == done[k]);
                }
            }
            assert forall|k: int| 0 <= k < parts.len() implies member(
                #[trigger] parts[k],
            ) is Some by {
                assert(member(parts[k]) == Some(ms[k]));
            }
        }
    }
}

/// A part of an object is a key, a colon and a value; the key is the text that `serde_json` reads.
pub proof fn law_key_and_value(k: Seq<char>, v: Seq<char>)
    requires
        closed_text(k),
        split(k, ':') == seq![k],
        split(v, ':') == seq![v],
    ensures
        member(k + seq![':'] + v) == match json_read(k) {
            Ok(Some(JsonView::Text(key))) => Some((key, v)),
            _ => None,
        },
{
    law_separator_parts(k, v, ':');
    assert(seq![k] + seq![v] =~= seq![k, v]);
}

// ---- texts in quotes ----

/// The character that an escape in a JSON text stands for.
pub open spec fn escape_means(e: Seq<char>) -> int {
    if e.len() == 1 {
        e[0] as int
    } else if e.len() == 2 {
        if e[1] == 'b' {
            0x08
        } else if e[1] == 't' {
            0x09
        } else if e[1] == 'n' {
            0x0A
        } else if e[1] == 'f' {
            0x0C
        } else if e[1] == 'r' {
            0x0D
        } else {
            e[1] as int
        }
    } else {
        match (text::hex_value(e[4] as u8), text::hex_value(e[5] as u8)) {
            (Some(h), Some(l)) => 16 * h as int + l,
            _ => -1,
        }
    }
}

/// In quotes each character stands for itself or as its escape, which means it: no quotation mark
/// or control character stands there as it is, and an escape begins with a backslash.
pub proof fn law_escapes_mean_the_text(s: Seq<char>, c: char)
    ensures
        json_chars(Seq::empty()) == Seq::<char>::empty(),
        json_chars(s.push(c)) == json_chars(s) + json_char(c),
        escape_means(json_char(c)) == c as int,
        json_char(c).len() == 1 ==> json_char(c)[0] == c && c != '"' && c != '\\' && c as int
            >= 0x20,
        json_char(c).len() > 1 ==> json_char(c)[0] == '\\',
        json_char(c).len() > 2 ==> json_char(c).len() == 6 && json_char(c)[1] == 'u' && json_char(
            c,
        )[2] == '0' && json_char(c)[3] == '0',
{
    assert(s.push(c).drop_last() =~= s);
    assert(s.push(c).last() == c);
    if (c as int) < 0x20 {
        text::law_hexadecimal_byte(c as u8);
        let e = seq!['\\', 'u', '0', '0'] + text::hex_byte(c as u8);
        assert(e.len() == 6);
        assert(e[4] == text::hex_byte(c as u8)[0]);
        assert(e[5] == text::hex_byte(c as u8)[1]);
    }
}

} // verus!
