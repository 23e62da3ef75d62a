//! Parts of JSON records: objects with known keys, or arrays with known places. Missing parts and
//! parts of the wrong kind are told apart.

use vstd::prelude::*;
use super::json::{self, open_json, Json, JsonView};

verus! {

/// The text of an optional string.
pub open spec fn opt_text(s: Option<String>) -> Option<Seq<char>> {
    match s {
        Some(x) => Some(x@),
        None => None,
    }
}

/// Whether a value is a record of `n` parts: an object, or an array of exactly so many.
pub open spec fn is_record(j: JsonView, n: int) -> bool {
    match j {
        JsonView::Object(_) => true,
        JsonView::Array(items) => items.len() == n,
        _ => false,
    }
}

pub(crate) fn record_of(j: &Json, n: usize) -> (r: bool)
    ensures
        r == is_record(j@, n as int),
{
    match j {
        Json::Object(_) => true,
        Json::Array(items) => {
            assert(json::texts(items@).len() == items@.len());
            items.len() == n
        },
        _ => false,
    }
}

pub(crate) fn read_part(j: &Json, place: usize, key: &str) -> (r: Option<Option<Json>>)
    ensures
        match json::part(j@, place as int, key@) {
            None => r is None,
            Some(raw) => match json::read(raw) {
                Some(v) => r matches Some(Some(x)) && x@ == v,
                None => r matches Some(None),
            },
        },
{
    match j.part(place, key) {
        None => None,
        Some(raw) => match open_json(raw.as_str()) {
            Some(v) => Some(Some(v)),
            None => Some(None),
        },
    }
}

/// A part that is true or false, or what it is without one; `None` where it is something else.
pub open spec fn bool_part(j: JsonView, place: int, key: Seq<char>, d: bool) -> Option<bool> {
    match json::part(j, place, key) {
        None => Some(d),
        Some(raw) => match json::read(raw) {
            Some(JsonView::Bool(b)) => Some(b),
            _ => None,
        },
    }
}

pub(crate) fn read_bool(j: &Json, place: usize, key: &str, d: bool) -> (r: Option<bool>)
    ensures
        r == bool_part(j@, place as int, key@, d),
{
    match read_part(j, place, key) {
        None => Some(d),
        Some(Some(Json::Bool(b))) => Some(b),
        _ => None,
    }
}

/// A part that is a whole number up to `max`, or what it is without one; `None` where it is
/// something else.
pub open spec fn whole_part(j: JsonView, place: int, key: Seq<char>, max: nat, d: nat) -> Option<nat> {
    match json::part(j, place, key) {
        None => Some(d),
        Some(raw) => match json::read(raw) {
            Some(v) => json::whole(v, max),
            None => None,
        },
    }
}

pub(crate) fn read_whole(j: &Json, place: usize, key: &str, max: u64, d: u64) -> (r: Option<u64>)
    requires
        d <= max,
    ensures
        match whole_part(j@, place as int, key@, max as nat, d as nat) {
            Some(n) => (r matches Some(x) && x == n) && n <= max,
            None => r is None,
        },
{
    match read_part(j, place, key) {
        None => Some(d),
        Some(Some(v)) => v.as_whole(max),
        Some(None) => None,
    }
}

/// A part that is a text, or what it is without one; `None` where it is something else.
pub open spec fn text_part(j: JsonView, place: int, key: Seq<char>, d: Seq<char>) -> Option<Seq<char>> {
    match json::part(j, place, key) {
        None => Some(d),
        Some(raw) => match json::read(raw) {
            Some(v) => json::string(v),
            None => None,
        },
    }
}

pub(crate) fn read_text(j: &Json, place: usize, key: &str, d: &str) -> (r: Option<String>)
    ensures
        match text_part(j@, place as int, key@, d@) {
            Some(s) => r matches Some(x) && x@ == s,
            None => r is None,
        },
{
    match read_part(j, place, key) {
        None => Some(d.to_owned()),
        Some(Some(v)) => v.as_text(),
        Some(None) => None,
    }
}

/// A part that is a text or null, which it also is without one; `None` where it is something else.
pub open spec fn opt_text_part(j: JsonView, place: int, key: Seq<char>) -> Option<Option<Seq<char>>> {
    match json::part(j, place, key) {
        None => Some(None),
        Some(raw) => match json::read(raw) {
            Some(JsonView::Null) => Some(None),
            Some(JsonView::Text(s)) => Some(Some(s)),
            _ => None,
        },
    }
}

pub(crate) fn read_opt_text(j: &Json, place: usize, key: &str) -> (r: Option<Option<String>>)
    ensures
        match opt_text_part(j@, place as int, key@) {
            Some(o) => r matches Some(x) && opt_text(x) == o,
            None => r is None,
        },
{
    match read_part(j, place, key) {
        None => Some(None),
        Some(Some(Json::Null)) => Some(None),
        Some(Some(Json::Text(s))) => Some(Some(s)),
        _ => None,
    }
}

/// A part that is a number, in the form in which `serde_json` displays it.
pub open spec fn number_part(j: JsonView, place: int, key: Seq<char>) -> Option<Seq<char>> {
    match json::part(j, place, key) {
        None => None,
        Some(raw) => match json::read(raw) {
            Some(JsonView::Number(s)) => Some(s),
            _ => None,
        },
    }
}

pub(crate) fn read_number(j: &Json, place: usize, key: &str) -> (r: Option<String>)
    ensures
        match number_part(j@, place as int, key@) {
            Some(s) => r matches Some(x) && x@ == s,
            None => r is None,
        },
{
    match read_part(j, place, key) {
        Some(Some(Json::Number(s))) => Some(s),
        _ => None,
    }
}

// ---- parts that there need not be ----

/// A part that is true, false or null.
pub open spec fn opt_bool_part(j: JsonView, place: int, key: Seq<char>) -> Option<Option<bool>> {
    match json::part(j, place, key) {
        None => Some(None),
        Some(raw) => match json::read(raw) {
            Some(JsonView::Null) => Some(None),
            Some(JsonView::Bool(b)) => Some(Some(b)),
            _ => None,
        },
    }
}

pub(crate) fn read_opt_bool(j: &Json, place: usize, key: &str) -> (r: Option<Option<bool>>)
    ensures
        r == opt_bool_part(j@, place as int, key@),
{
    match read_part(j, place, key) {
        None => Some(None),
        Some(Some(Json::Null)) => Some(None),
        Some(Some(Json::Bool(b))) => Some(Some(b)),
        _ => None,
    }
}

/// A part that is a whole number up to `max`, or null.
pub open spec fn opt_whole_part(j: JsonView, place: int, key: Seq<char>, max: nat) -> Option<
    Option<nat>,
> {
    match json::part(j, place, key) {
        None => Some(None),
        Some(raw) => match json::read(raw) {
            Some(JsonView::Null) => Some(None),
            Some(v) => match json::whole(v, max) {
                Some(n) => Some(Some(n)),
                None => None,
            },
            None => None,
        },
    }
}

pub(crate) fn read_opt_whole(j: &Json, place: usize, key: &str, max: u64) -> (r: Option<
    Option<u64>,
>)
    ensures
        match opt_whole_part(j@, place as int, key@, max as nat) {
            Some(None) => r matches Some(None),
            Some(Some(n)) => (r matches Some(Some(x)) && x == n) && n <= max,
            None => r is None,
        },
{
    match read_part(j, place, key) {
        None => Some(None),
        Some(Some(Json::Null)) => Some(None),
        Some(Some(v)) => match v.as_whole(max) {
            Some(n) => Some(Some(n)),
            None => None,
        },
        Some(None) => None,
    }
}

/// A part that is a number, in the form in which `serde_json` displays it, or null.
pub open spec fn opt_number_part(j: JsonView, place: int, key: Seq<char>) -> Option<
    Option<Seq<char>>,
> {
    match json::part(j, place, key) {
        None => Some(None),
        Some(raw) => match json::read(raw) {
            Some(JsonView::Null) => Some(None),
            Some(JsonView::Number(s)) => Some(Some(s)),
            _ => None,
        },
    }
}

pub(crate) fn read_opt_number(j: &Json, place: usize, key: &str) -> (r: Option<Option<String>>)
    ensures
        match opt_number_part(j@, place as int, key@) {
            Some(o) => r matches Some(x) && opt_text(x) == o,
            None => r is None,
        },
{
    match read_part(j, place, key) {
        None => Some(None),
        Some(Some(Json::Null)) => Some(None),
        Some(Some(Json::Number(s))) => Some(Some(s)),
        _ => None,
    }
}

/// The texts that a list of values is.
pub open spec fn all_strings(items: Seq<Seq<char>>) -> Option<Seq<Seq<char>>>
    decreases items.len(),
{
    if items.len() == 0 {
        Some(Seq::empty())
    } else {
        match (all_strings(items.drop_last()), json::read(items.last())) {
            (Some(done), Some(JsonView::Text(s))) => Some(done.push(s)),
            _ => None,
        }
    }
}

pub(crate) fn read_strings(items: &Vec<String>) -> (r: Option<Vec<String>>)
    ensures
        match all_strings(json::texts(items@)) {
            Some(s) => r matches Some(x) && json::texts(x@) == s,
            None => r is None,
        },
{
    let ghost all = json::texts(items@);
    let mut out: Vec<String> = Vec::new();
    let mut i: usize = 0;
    assert(all.take(0) =~= Seq::empty());
    assert(json::texts(out@) =~= Seq::empty());
    while i < items.len()
        invariant
            i <= items@.len(),
            all == json::texts(items@),
            all_strings(all.take(i as int)) == Some(json::texts(out@)),
        decreases items@.len() - i,
    {
        let ghost done = out@;
        proof {
            let t = all.take(i + 1);
            assert(t.drop_last() =~= all.take(i as int));
            assert(t.last() == items@[i as int]@);
        }
        match open_json(items[i].as_str()) {
            Some(Json::Text(s)) => {
                out.push(s);
                assert(json::texts(out@) =~= json::texts(done).push(s@));
            },
            _ => {
                proof {
                    assert(all_strings(all.take(i + 1)) is None);
                    lemma_strings_prefix(all, i + 1);
                }
                return None;
            },
        }
        i += 1;
    }
    assert(all.take(i as int) =~= all);
    Some(out)
}

/// A list with something else than texts in front is none of texts.
proof fn lemma_strings_prefix(items: Seq<Seq<char>>, n: int)
    requires
        0 <= n <= items.len(),
        all_strings(items.take(n)) is None,
    ensures
        all_strings(items) is None,
    decreases items.len(),
{
    if n == items.len() {
        assert(items.take(n) =~= items);
    } else {
        assert(items.drop_last().take(n) =~= items.take(n));
        lemma_strings_prefix(items.drop_last(), n);
    }
}

/// A part that is a list of texts, or null.
pub open spec fn opt_strings_part(j: JsonView, place: int, key: Seq<char>) -> Option<
    Option<Seq<Seq<char>>>,
> {
    match json::part(j, place, key) {
        None => Some(None),
        Some(raw) => match json::read(raw) {
            Some(JsonView::Null) => Some(None),
            Some(JsonView::Array(items)) => match all_strings(items) {
                Some(s) => Some(Some(s)),
                None => None,
            },
            _ => None,
        },
    }
}

/// The texts of an optional list.
pub open spec fn opt_texts(v: Option<Vec<String>>) -> Option<Seq<Seq<char>>> {
    match v {
        Some(x) => Some(json::texts(x@)),
        None => None,
    }
}

pub(crate) fn read_opt_strings(j: &Json, place: usize, key: &str) -> (r: Option<
    Option<Vec<String>>,
>)
    ensures
        match opt_strings_part(j@, place as int, key@) {
            Some(o) => r matches Some(x) && opt_texts(x) == o,
            None => r is None,
        },
{
    match read_part(j, place, key) {
        None => Some(None),
        Some(Some(Json::Null)) => Some(None),
        Some(Some(Json::Array(items))) => match read_strings(&items) {
            Some(v) => Some(Some(v)),
            None => None,
        },
        _ => None,
    }
}

/// Whether all values of a list are numbers.
pub open spec fn all_numbers(items: Seq<Seq<char>>) -> bool {
    forall|i: int| 0 <= i < items.len() ==> json::read(#[trigger] items[i]) is Some && json::read(
        items[i],
    )->0 is Number
}

/// A part that is a list of numbers, as it is written, or null.
pub open spec fn opt_numbers_part(j: JsonView, place: int, key: Seq<char>) -> Option<
    Option<Seq<char>>,
> {
    match json::part(j, place, key) {
        None => Some(None),
        Some(raw) => match json::read(raw) {
            Some(JsonView::Null) => Some(None),
            Some(JsonView::Array(items)) => if all_numbers(items) {
                Some(Some(raw))
            } else {
                None
            },
            _ => None,
        },
    }
}

fn are_numbers(items: &Vec<String>) -> (r: bool)
    ensures
        r == all_numbers(json::texts(items@)),
{
    let ghost all = json::texts(items@);
    let mut i: usize = 0;
    while i < items.len()
        invariant
            i <= items@.len(),
            all == json::texts(items@),
            forall|k: int|
                0 <= k < i ==> json::read(#[trigger] all[k]) is Some && json::read(
                    all[k],
                )->0 is Number,
        decreases items@.len() - i,
    {
        assert(all[i as int] == items@[i as int]@);
        match open_json(items[i].as_str()) {
            Some(Json::Number(_)) => {},
            _ => {
                return false;
            },
        }
        i += 1;
    }
    true
}

pub(crate) fn read_opt_numbers(j: &Json, place: usize, key: &str) -> (r: Option<Option<String>>)
    ensures
        match opt_numbers_part(j@, place as int, key@) {
            Some(o) => r matches Some(x) && opt_text(x) == o,
            None => r is None,
        },
{
    match j.part(place, key) {
        None => Some(None),
        Some(raw) => match open_json(raw.as_str()) {
            Some(Json::Null) => Some(None),
            Some(Json::Array(items)) => {
                if are_numbers(&items) {
                    Some(Some(raw.clone()))
                } else {
                    None
                }
            },
            _ => None,
        },
    }
}

/// Whether a value is a record of up to `n` parts: an object, or an array of no more than so many.
pub open spec fn is_open_record(j: JsonView, n: int) -> bool {
    match j {
        JsonView::Object(_) => true,
        JsonView::Array(items) => items.len() <= n,
        _ => false,
    }
}

pub(crate) fn open_record_of(j: &Json, n: usize) -> (r: bool)
    ensures
        r == is_open_record(j@, n as int),
{
    match j {
        Json::Object(_) => true,
        Json::Array(items) => {
            assert(json::texts(items@).len() == items@.len());
            items.len() <= n
        },
        _ => false,
    }
}

} // verus!
