//! D-Bus messages: their values, and how they are read.
//!
//! Alignment counts from the first byte of the message. Structs and dictionary entries are aligned
//! to 8; a variant to 1, its signature following at once and its value aligned by its own type. An
//! array is a length (aligned to 4), padding up to the alignment of its elements even if there are
//! none, and the elements. Strings carry a 4-byte length and signatures a 1-byte one, and both end
//! in a NUL.

use vstd::prelude::*;
use super::{protocol, PortalError, PortalErrorView};
use crate::text::{self, chars_of, push_hex, slice_chars, string_of};

verus! {

/// The kinds of messages.
pub const METHOD_CALL: u8 = 1;

pub const METHOD_RETURN: u8 = 2;

pub const ERROR: u8 = 3;

pub const SIGNAL: u8 = 4;

/// The flag of a call that wants no reply.
pub const FLAG_NO_REPLY_EXPECTED: u8 = 1;

/// The largest message that is read.
pub const MAX_MESSAGE_BYTES: usize = 67108864;

/// A D-Bus value. A dictionary entry is a struct of two.
#[derive(Debug)]
pub enum Value {
    Byte(u8),
    Bool(bool),
    I16(i16),
    U16(u16),
    I32(i32),
    U32(u32),
    I64(i64),
    U64(u64),
    /// A double, by its bits.
    F64(u64),
    Str(String),
    Path(String),
    Sig(String),
    /// An array; `elem` is the signature of its elements, such as `{sv}`.
    Array { elem: String, items: Vec<Value> },
    Struct(Vec<Value>),
    Variant(Box<Value>),
}

/// The model of [`Value`].
#[verifier::ext_equal]
pub enum ValueView {
    Byte(u8),
    Bool(bool),
    I16(i16),
    U16(u16),
    I32(i32),
    U32(u32),
    I64(i64),
    U64(u64),
    F64(u64),
    Str(Seq<char>),
    Path(Seq<char>),
    Sig(Seq<char>),
    Array { elem: Seq<char>, items: Seq<ValueView> },
    Struct(Seq<ValueView>),
    Variant(Box<ValueView>),
}

/// The model of a value.
pub open spec fn value_view(v: Value) -> ValueView
    decreases v,
{
    match v {
        Value::Byte(x) => ValueView::Byte(x),
        Value::Bool(x) => ValueView::Bool(x),
        Value::I16(x) => ValueView::I16(x),
        Value::U16(x) => ValueView::U16(x),
        Value::I32(x) => ValueView::I32(x),
        Value::U32(x) => ValueView::U32(x),
        Value::I64(x) => ValueView::I64(x),
        Value::U64(x) => ValueView::U64(x),
        Value::F64(x) => ValueView::F64(x),
        Value::Str(s) => ValueView::Str(s@),
        Value::Path(s) => ValueView::Path(s@),
        Value::Sig(s) => ValueView::Sig(s@),
        Value::Array { elem, items } => ValueView::Array {
            elem: elem@,
            items: Seq::new(
                items@.len(),
                |i: int|
                    if 0 <= i < items@.len() {
                        value_view(items@[i])
                    } else {
                        arbitrary()
                    },
            ),
        },
        Value::Struct(items) => ValueView::Struct(
            Seq::new(
                items@.len(),
                |i: int|
                    if 0 <= i < items@.len() {
                        value_view(items@[i])
                    } else {
                        arbitrary()
                    },
            ),
        ),
        Value::Variant(inner) => ValueView::Variant(Box::new(value_view(*inner))),
    }
}

impl View for Value {
    type V = ValueView;

    open spec fn view(&self) -> ValueView {
        value_view(*self)
    }
}

/// The models of a list of values.
pub open spec fn value_views(v: Seq<Value>) -> Seq<ValueView> {
    v.map_values(|x: Value| x@)
}

/// The signatures of a row of values, one after the other.
pub open spec fn signatures(vs: Seq<ValueView>) -> Seq<char>
    decreases vs, 1int,
{
    if vs.len() == 0 {
        Seq::empty()
    } else {
        signature_of(vs[0]) + signatures(vs.skip(1))
    }
}

/// The type signature of a value.
pub open spec fn signature_of(v: ValueView) -> Seq<char>
    decreases v, 0int,
{
    match v {
        ValueView::Byte(_) => seq!['y'],
        ValueView::Bool(_) => seq!['b'],
        ValueView::I16(_) => seq!['n'],
        ValueView::U16(_) => seq!['q'],
        ValueView::I32(_) => seq!['i'],
        ValueView::U32(_) => seq!['u'],
        ValueView::I64(_) => seq!['x'],
        ValueView::U64(_) => seq!['t'],
        ValueView::F64(_) => seq!['d'],
        ValueView::Str(_) => seq!['s'],
        ValueView::Path(_) => seq!['o'],
        ValueView::Sig(_) => seq!['g'],
        ValueView::Array { elem, items } => seq!['a'] + elem,
        ValueView::Struct(items) => seq!['('] + signatures(items) + seq![')'],
        ValueView::Variant(_) => seq!['v'],
    }
}

impl Value {
    /// The type signature of the value.
    pub fn signature(&self) -> (r: String)
        ensures
            r@ == signature_of(self@),
    {
        let mut out = String::new();
        self.push_signature(&mut out);
        assert(out@ =~= signature_of(self@));
        out
    }

    fn push_signature(&self, out: &mut String)
        ensures
            final(out)@ == old(out)@ + signature_of(self@),
        decreases self,
    {
        let ghost before = out@;
        match self {
            Value::Byte(_) => out.push('y'),
            Value::Bool(_) => out.push('b'),
            Value::I16(_) => out.push('n'),
            Value::U16(_) => out.push('q'),
            Value::I32(_) => out.push('i'),
            Value::U32(_) => out.push('u'),
            Value::I64(_) => out.push('x'),
            Value::U64(_) => out.push('t'),
            Value::F64(_) => out.push('d'),
            Value::Str(_) => out.push('s'),
            Value::Path(_) => out.push('o'),
            Value::Sig(_) => out.push('g'),
            Value::Array { elem, .. } => {
                out.push('a');
                out.append(elem.as_str());
            },
            Value::Struct(fields) => {
                out.push('(');
                let ghost open = out@;
                let ghost vs = value_views(fields@);
                let mut i: usize = 0;
                assert(vs.skip(0) =~= vs);
                while i < fields.len()
                    invariant
                        i <= fields@.len(),
                        *self == Value::Struct(*fields),
                        vs == value_views(fields@),
                        out@ + signatures(vs.skip(i as int)) == open + signatures(vs),
                    decreases fields@.len() - i,
                {
                    let ghost here = out@;
                    assert(decreases_to!(self => self->Struct_0));
                    fields[i].push_signature(out);
                    proof {
                        let rest = vs.skip(i as int);
                        assert(rest.skip(1) =~= vs.skip(i + 1));
                        assert(rest[0] == fields@[i as int]@);
                        assert(out@ + signatures(vs.skip(i + 1)) =~= here + (signature_of(rest[0])
                            + signatures(vs.skip(i + 1))));
                    }
                    i += 1;
                }
                assert(out@ =~= open + signatures(vs));
                out.push(')');
                proof {
                    match self@ {
                        ValueView::Struct(items) => assert(items =~= vs),
                        _ => {},
                    }
                }
            },
            Value::Variant(_) => out.push('v'),
        }
        assert(out@ =~= before + signature_of(self@));
    }
}

// ---- signatures ----

/// A type, as a signature names it.
pub enum Type {
    Byte,
    Bool,
    I16,
    U16,
    I32,
    U32,
    I64,
    U64,
    F64,
    Str,
    Path,
    Sig,
    Variant,
    Array(Box<Type>),
    Struct(Vec<Type>),
    DictEntry(Box<Type>, Box<Type>),
}

/// The model of [`Type`].
#[verifier::ext_equal]
pub enum TypeView {
    Byte,
    Bool,
    I16,
    U16,
    I32,
    U32,
    I64,
    U64,
    F64,
    Str,
    Path,
    Sig,
    Variant,
    Array(Box<TypeView>),
    Struct(Seq<TypeView>),
    DictEntry(Box<TypeView>, Box<TypeView>),
}

/// The model of a type.
pub open spec fn type_view(t: Type) -> TypeView
    decreases t,
{
    match t {
        Type::Byte => TypeView::Byte,
        Type::Bool => TypeView::Bool,
        Type::I16 => TypeView::I16,
        Type::U16 => TypeView::U16,
        Type::I32 => TypeView::I32,
        Type::U32 => TypeView::U32,
        Type::I64 => TypeView::I64,
        Type::U64 => TypeView::U64,
        Type::F64 => TypeView::F64,
        Type::Str => TypeView::Str,
        Type::Path => TypeView::Path,
        Type::Sig => TypeView::Sig,
        Type::Variant => TypeView::Variant,
        Type::Array(e) => TypeView::Array(Box::new(type_view(*e))),
        Type::Struct(fs) => TypeView::Struct(
            Seq::new(
                fs@.len(),
                |i: int|
                    if 0 <= i < fs@.len() {
                        type_view(fs@[i])
                    } else {
                        arbitrary()
                    },
            ),
        ),
        Type::DictEntry(k, v) => TypeView::DictEntry(
            Box::new(type_view(*k)),
            Box::new(type_view(*v)),
        ),
    }
}

impl View for Type {
    type V = TypeView;

    open spec fn view(&self) -> TypeView {
        type_view(*self)
    }
}

/// The models of a list of types.
pub open spec fn type_views(v: Seq<Type>) -> Seq<TypeView> {
    v.map_values(|t: Type| t@)
}

/// The alignment of a type in bytes.
pub open spec fn alignment(t: TypeView) -> int {
    match t {
        TypeView::Byte | TypeView::Sig | TypeView::Variant => 1,
        TypeView::I16 | TypeView::U16 => 2,
        TypeView::Bool
        | TypeView::I32
        | TypeView::U32
        | TypeView::Str
        | TypeView::Path
        | TypeView::Array(_) => 4,
        _ => 8,
    }
}

/// The signatures of a row of types, one after the other.
pub open spec fn type_sigs(ts: Seq<TypeView>) -> Seq<char>
    decreases ts, 1int,
{
    if ts.len() == 0 {
        Seq::empty()
    } else {
        type_sig(ts[0]) + type_sigs(ts.skip(1))
    }
}

/// The signature of a type.
pub open spec fn type_sig(t: TypeView) -> Seq<char>
    decreases t, 0int,
{
    match t {
        TypeView::Byte => seq!['y'],
        TypeView::Bool => seq!['b'],
        TypeView::I16 => seq!['n'],
        TypeView::U16 => seq!['q'],
        TypeView::I32 => seq!['i'],
        TypeView::U32 => seq!['u'],
        TypeView::I64 => seq!['x'],
        TypeView::U64 => seq!['t'],
        TypeView::F64 => seq!['d'],
        TypeView::Str => seq!['s'],
        TypeView::Path => seq!['o'],
        TypeView::Sig => seq!['g'],
        TypeView::Variant => seq!['v'],
        TypeView::Array(e) => seq!['a'] + type_sig(*e),
        TypeView::Struct(fs) => seq!['('] + type_sigs(fs) + seq![')'],
        TypeView::DictEntry(k, v) => seq!['{'] + type_sig(*k) + type_sig(*v) + seq!['}'],
    }
}

/// The type that a single letter names.
pub open spec fn letter_type(c: char) -> Option<TypeView> {
    if c == 'y' {
        Some(TypeView::Byte)
    } else if c == 'b' {
        Some(TypeView::Bool)
    } else if c == 'n' {
        Some(TypeView::I16)
    } else if c == 'q' {
        Some(TypeView::U16)
    } else if c == 'i' {
        Some(TypeView::I32)
    } else if c == 'u' {
        Some(TypeView::U32)
    } else if c == 'x' {
        Some(TypeView::I64)
    } else if c == 't' {
        Some(TypeView::U64)
    } else if c == 'd' {
        Some(TypeView::F64)
    } else if c == 's' {
        Some(TypeView::Str)
    } else if c == 'o' {
        Some(TypeView::Path)
    } else if c == 'g' {
        Some(TypeView::Sig)
    } else if c == 'v' {
        Some(TypeView::Variant)
    } else {
        None
    }
}

/// The type that stands at `p` of a signature and the position behind it, or what is wrong.
pub open spec fn type_at(s: Seq<char>, p: int) -> Result<(TypeView, int), Seq<char>>
    decreases s.len() - p, 0int,
{
    if !(0 <= p < s.len()) {
        Err("签名含未知或残缺类型："@)
    } else if letter_type(s[p]) is Some {
        Ok((letter_type(s[p])->0, p + 1))
    } else if s[p] == 'a' {
        match type_at(s, p + 1) {
            Ok((t, q)) => Ok((TypeView::Array(Box::new(t)), q)),
            Err(e) => Err(e),
        }
    } else if s[p] == '(' {
        match types_until(s, p + 1, ')', Seq::empty()) {
            Ok((ts, q)) => Ok((TypeView::Struct(ts), q)),
            Err(e) => Err(e),
        }
    } else if s[p] == '{' {
        match types_until(s, p + 1, '}', Seq::empty()) {
            Ok((ts, q)) => if ts.len() == 2 {
                Ok((TypeView::DictEntry(Box::new(ts[0]), Box::new(ts[1])), q))
            } else {
                Err("字典条目必须恰有两个成员"@)
            },
            Err(e) => Err(e),
        }
    } else {
        Err("签名含未知或残缺类型："@ + s.skip(p))
    }
}

/// The types from `p` on up to `close`, where `acc` have been read.
pub open spec fn types_until(s: Seq<char>, p: int, close: char, acc: Seq<TypeView>) -> Result<
    (Seq<TypeView>, int),
    Seq<char>,
>
    decreases s.len() - p, 1int,
{
    if 0 <= p < s.len() && s[p] == close {
        Ok((acc, p + 1))
    } else {
        match type_at(s, p) {
            Err(e) => Err(e),
            Ok((t, q)) => if p < q <= s.len() {
                types_until(s, q, close, acc.push(t))
            } else {
                Err("签名含未知或残缺类型："@)
            },
        }
    }
}

/// All the types of a signature, from `p` on, where `acc` have been read.
pub open spec fn all_types(s: Seq<char>, p: int, acc: Seq<TypeView>) -> Result<
    Seq<TypeView>,
    Seq<char>,
>
    decreases s.len() - p,
{
    if !(0 <= p < s.len()) {
        Ok(acc)
    } else {
        match type_at(s, p) {
            Err(e) => Err(e),
            Ok((t, q)) => if p < q <= s.len() {
                all_types(s, q, acc.push(t))
            } else {
                Ok(acc)
            },
        }
    }
}

/// A type ends within the signature.
pub proof fn lemma_type_at(s: Seq<char>, p: int)
    ensures
        type_at(s, p) matches Ok((t, q)) ==> 0 <= p < q <= s.len(),
    decreases s.len() - p, 0int,
{
    if 0 <= p < s.len() && letter_type(s[p]) is None {
        if s[p] == 'a' {
            lemma_type_at(s, p + 1);
        } else if s[p] == '(' {
            lemma_types_until(s, p + 1, ')', Seq::empty());
        } else if s[p] == '{' {
            lemma_types_until(s, p + 1, '}', Seq::empty());
        }
    }
}

/// A bracketed row of types ends within the signature.
pub proof fn lemma_types_until(s: Seq<char>, p: int, close: char, acc: Seq<TypeView>)
    ensures
        types_until(s, p, close, acc) matches Ok((ts, q)) ==> 0 <= p < q <= s.len(),
    decreases s.len() - p, 1int,
{
    if !(0 <= p < s.len() && s[p] == close) {
        lemma_type_at(s, p);
        if let Ok((t, q)) = type_at(s, p) {
            lemma_types_until(s, q, close, acc.push(t));
        }
    }
}

fn bad_signature(s: &Vec<char>, p: usize) -> (r: PortalError)
    requires
        p <= s@.len(),
    ensures
        r@ == PortalErrorView::Protocol("签名含未知或残缺类型："@ + s@.skip(p as int)),
{
    let mut out = "签名含未知或残缺类型：".to_owned();
    let rest = slice_chars(s, p, s.len());
    assert(rest@ =~= s@.skip(p as int));
    out.append(string_of(&rest).as_str());
    PortalError::Protocol(out)
}

/// Reads the type at `p` of a signature.
fn parse_one_type(s: &Vec<char>, p: usize) -> (r: Result<(Type, usize), PortalError>)
    requires
        p <= s@.len(),
    ensures
        match type_at(s@, p as int) {
            Ok((t, q)) => r matches Ok((x, y)) && x@ == t && y == q && p < y <= s@.len(),
            Err(e) => r matches Err(x) && x@ == PortalErrorView::Protocol(e),
        },
    decreases s@.len() - p, 0int,
{
    proof {
        lemma_type_at(s@, p as int);
    }
    if p == s.len() {
        assert("签名含未知或残缺类型："@ + s@.skip(p as int) =~= "签名含未知或残缺类型："@);
        return Err(bad_signature(s, p));
    }
    let c = s[p];
    let simple = match c {
        'y' => Some(Type::Byte),
        'b' => Some(Type::Bool),
        'n' => Some(Type::I16),
        'q' => Some(Type::U16),
        'i' => Some(Type::I32),
        'u' => Some(Type::U32),
        'x' => Some(Type::I64),
        't' => Some(Type::U64),
        'd' => Some(Type::F64),
        's' => Some(Type::Str),
        'o' => Some(Type::Path),
        'g' => Some(Type::Sig),
        'v' => Some(Type::Variant),
        _ => None,
    };
    if let Some(t) = simple {
        return Ok((t, p + 1));
    }
    if c == 'a' {
        match parse_one_type(s, p + 1) {
            Ok((t, q)) => Ok((Type::Array(Box::new(t)), q)),
            Err(e) => Err(e),
        }
    } else if c == '(' {
        match parse_until(s, p + 1, ')') {
            Ok((ts, q)) => {
                let t = Type::Struct(ts);
                proof {
                    match t@ {
                        TypeView::Struct(fs) => assert(fs =~= type_views(ts@)),
                        _ => {},
                    }
                }
                Ok((t, q))
            },
            Err(e) => Err(e),
        }
    } else if c == '{' {
        match parse_until(s, p + 1, '}') {
            Ok((mut ts, q)) => {
                let ghost views = type_views(ts@);
                if ts.len() != 2 {
                    return Err(protocol("字典条目必须恰有两个成员"));
                }
                let value = ts.swap_remove(1);
                let key = ts.swap_remove(0);
                assert(value@ == views[1]);
                assert(key@ == views[0]);
                Ok((Type::DictEntry(Box::new(key), Box::new(value)), q))
            },
            Err(e) => Err(e),
        }
    } else {
        Err(bad_signature(s, p))
    }
}

/// Reads types from `p` on up to `close`.
fn parse_until(s: &Vec<char>, p: usize, close: char) -> (r: Result<(Vec<Type>, usize), PortalError>)
    requires
        p <= s@.len(),
    ensures
        match types_until(s@, p as int, close, Seq::empty()) {
            Ok((ts, q)) => r matches Ok((x, y)) && type_views(x@) == ts && y == q && p < y
                <= s@.len(),
            Err(e) => r matches Err(x) && x@ == PortalErrorView::Protocol(e),
        },
    decreases s@.len() - p, 1int,
{
    proof {
        lemma_types_until(s@, p as int, close, Seq::empty());
    }
    let mut fields: Vec<Type> = Vec::new();
    let mut i: usize = p;
    assert(type_views(fields@) =~= Seq::<TypeView>::empty());
    while !(i < s.len() && s[i] == close)
        invariant
            p <= i <= s@.len(),
            types_until(s@, p as int, close, Seq::empty()) == types_until(
                s@,
                i as int,
                close,
                type_views(fields@),
            ),
        decreases s@.len() - i,
    {
        proof {
            lemma_type_at(s@, i as int);
        }
        match parse_one_type(s, i) {
            Ok((t, q)) => {
                let ghost before = fields@;
                fields.push(t);
                assert(type_views(fields@) =~= type_views(before).push(t@));
                i = q;
            },
            Err(e) => {
                return Err(e);
            },
        }
    }
    Ok((fields, i + 1))
}

/// Reads all types of a signature.
pub(crate) fn parse_signature(sig: &str) -> (r: Result<Vec<Type>, PortalError>)
    ensures
        match all_types(sig@, 0, Seq::empty()) {
            Ok(ts) => r matches Ok(x) && type_views(x@) == ts,
            Err(e) => r matches Err(x) && x@ == PortalErrorView::Protocol(e),
        },
{
    let s = chars_of(sig);
    let mut types: Vec<Type> = Vec::new();
    let mut i: usize = 0;
    assert(type_views(types@) =~= Seq::<TypeView>::empty());
    while i < s.len()
        invariant
            s@ == sig@,
            i <= s@.len(),
            all_types(sig@, 0, Seq::empty()) == all_types(sig@, i as int, type_views(types@)),
        decreases s@.len() - i,
    {
        proof {
            lemma_type_at(s@, i as int);
        }
        match parse_one_type(&s, i) {
            Ok((t, q)) => {
                let ghost before = types@;
                types.push(t);
                assert(type_views(types@) =~= type_views(before).push(t@));
                i = q;
            },
            Err(e) => {
                return Err(e);
            },
        }
    }
    Ok(types)
}

fn align_of(t: &Type) -> (r: usize)
    ensures
        r == alignment(t@),
        r == 1 || r == 2 || r == 4 || r == 8,
{
    match t {
        Type::Byte | Type::Sig | Type::Variant => 1,
        Type::I16 | Type::U16 => 2,
        Type::Bool | Type::I32 | Type::U32 | Type::Str | Type::Path | Type::Array(_) => 4,
        _ => 8,
    }
}

/// What the alignment of a signature of one type is, or what is wrong with it.
pub open spec fn sig_alignment(s: Seq<char>) -> Result<int, Seq<char>> {
    match type_at(s, 0) {
        Err(e) => Err(e),
        Ok((t, q)) => if q != s.len() {
            Err("签名含多余类型："@ + s)
        } else {
            Ok(alignment(t))
        },
    }
}

/// The alignment of a signature of one type.
pub fn sig_align(sig: &str) -> (r: Result<usize, PortalError>)
    ensures
        match sig_alignment(sig@) {
            Ok(n) => r matches Ok(x) && x == n && (x == 1 || x == 2 || x == 4 || x == 8),
            Err(e) => r matches Err(x) && x@ == PortalErrorView::Protocol(e),
        },
{
    let s = chars_of(sig);
    match parse_one_type(&s, 0) {
        Err(e) => Err(e),
        Ok((t, q)) => {
            if q != s.len() {
                let mut out = "签名含多余类型：".to_owned();
                out.append(sig);
                return Err(PortalError::Protocol(out));
            }
            Ok(align_of(&t))
        },
    }
}

fn push_type_sig(t: &Type, out: &mut String)
    ensures
        final(out)@ == old(out)@ + type_sig(t@),
    decreases t,
{
    let ghost before = out@;
    match t {
        Type::Byte => out.push('y'),
        Type::Bool => out.push('b'),
        Type::I16 => out.push('n'),
        Type::U16 => out.push('q'),
        Type::I32 => out.push('i'),
        Type::U32 => out.push('u'),
        Type::I64 => out.push('x'),
        Type::U64 => out.push('t'),
        Type::F64 => out.push('d'),
        Type::Str => out.push('s'),
        Type::Path => out.push('o'),
        Type::Sig => out.push('g'),
        Type::Variant => out.push('v'),
        Type::Array(e) => {
            out.push('a');
            push_type_sig(e, out);
        },
        Type::Struct(fs) => {
            out.push('(');
            let ghost open = out@;
            let ghost ts = type_views(fs@);
            let mut i: usize = 0;
            assert(ts.skip(0) =~= ts);
            while i < fs.len()
                invariant
                    i <= fs@.len(),
                    *t == Type::Struct(*fs),
                    ts == type_views(fs@),
                    out@ + type_sigs(ts.skip(i as int)) == open + type_sigs(ts),
                decreases fs@.len() - i,
            {
                let ghost here = out@;
                assert(decreases_to!(t => t->Struct_0));
                push_type_sig(&fs[i], out);
                proof {
                    let rest = ts.skip(i as int);
                    assert(rest.skip(1) =~= ts.skip(i + 1));
                    assert(rest[0] == fs@[i as int]@);
                    assert(out@ + type_sigs(ts.skip(i + 1)) =~= here + (type_sig(rest[0])
                        + type_sigs(ts.skip(i + 1))));
                }
                i += 1;
            }
            assert(out@ =~= open + type_sigs(ts));
            out.push(')');
            proof {
                match t@ {
                    TypeView::Struct(x) => assert(x =~= ts),
                    _ => {},
                }
            }
        },
        Type::DictEntry(k, v) => {
            out.push('{');
            push_type_sig(k, out);
            push_type_sig(v, out);
            out.push('}');
        },
    }
    assert(out@ =~= before + type_sig(t@));
}

fn sig_of(t: &Type) -> (r: String)
    ensures
        r@ == type_sig(t@),
{
    let mut out = String::new();
    push_type_sig(t, &mut out);
    assert(out@ =~= type_sig(t@));
    out
}

// ---- reading ----

/// The first multiple of `n` from `p` on.
#[verifier::opaque]
pub open spec fn aligned(p: int, n: int) -> int {
    ((p + n - 1) / n) * n
}

/// How many bytes are left from `p` on.
pub open spec fn left(b: Seq<u8>, p: int) -> nat {
    if p <= b.len() {
        (b.len() - p) as nat
    } else {
        0
    }
}

/// The two bytes at `p` as a number.
pub open spec fn num16(b: Seq<u8>, p: int, big: bool) -> int {
    if big {
        b[p] * 256 + b[p + 1]
    } else {
        b[p + 1] * 256 + b[p]
    }
}

/// The four bytes at `p` as a number.
pub open spec fn num32(b: Seq<u8>, p: int, big: bool) -> int {
    if big {
        num16(b, p, big) * 65536 + num16(b, p + 2, big)
    } else {
        num16(b, p + 2, big) * 65536 + num16(b, p, big)
    }
}

/// The eight bytes at `p` as a number.
pub open spec fn num64(b: Seq<u8>, p: int, big: bool) -> int {
    if big {
        num32(b, p, big) * 0x1_0000_0000 + num32(b, p + 4, big)
    } else {
        num32(b, p + 4, big) * 0x1_0000_0000 + num32(b, p, big)
    }
}

/// The byte at `p`.
pub open spec fn byte_at(b: Seq<u8>, p: int) -> Result<(u8, int), Seq<char>> {
    if 0 <= p < b.len() {
        Ok((b[p], p + 1))
    } else {
        Err("消息被截断"@)
    }
}

/// The number of two bytes from `p` on.
pub open spec fn u16_at(b: Seq<u8>, p: int, big: bool) -> Result<(u16, int), Seq<char>> {
    let q = aligned(p, 2);
    if 0 <= q && q + 2 <= b.len() {
        Ok((num16(b, q, big) as u16, q + 2))
    } else {
        Err("消息被截断"@)
    }
}

/// The number of four bytes from `p` on.
pub open spec fn u32_at(b: Seq<u8>, p: int, big: bool) -> Result<(u32, int), Seq<char>> {
    let q = aligned(p, 4);
    if 0 <= q && q + 4 <= b.len() {
        Ok((num32(b, q, big) as u32, q + 4))
    } else {
        Err("消息被截断"@)
    }
}

/// The number of eight bytes from `p` on.
pub open spec fn u64_at(b: Seq<u8>, p: int, big: bool) -> Result<(u64, int), Seq<char>> {
    let q = aligned(p, 8);
    if 0 <= q && q + 8 <= b.len() {
        Ok((num64(b, q, big) as u64, q + 8))
    } else {
        Err("消息被截断"@)
    }
}

/// The text of `n` bytes from `p` on, which a NUL must follow.
pub open spec fn text_at(b: Seq<u8>, p: int, n: int, no_nul: Seq<char>) -> Result<
    (Seq<char>, int),
    Seq<char>,
> {
    if !(0 <= p && 0 <= n && p + n + 1 <= b.len()) {
        Err("消息被截断"@)
    } else if !vstd::utf8::valid_utf8(b.subrange(p, p + n)) {
        Err("字符串不是合法 UTF-8"@)
    } else if b[p + n] != 0 {
        Err(no_nul)
    } else {
        Ok((vstd::utf8::decode_utf8(b.subrange(p, p + n)), p + n + 1))
    }
}

/// The string from `p` on.
pub open spec fn str_at(b: Seq<u8>, p: int, big: bool) -> Result<(Seq<char>, int), Seq<char>> {
    match u32_at(b, p, big) {
        Err(e) => Err(e),
        Ok((n, q)) => text_at(b, q, n as int, "字符串缺少 NUL 结尾"@),
    }
}

/// The signature from `p` on.
pub open spec fn sig_at(b: Seq<u8>, p: int) -> Result<(Seq<char>, int), Seq<char>> {
    match byte_at(b, p) {
        Err(e) => Err(e),
        Ok((n, q)) => text_at(b, q, n as int, "签名缺少 NUL 结尾"@),
    }
}

/// A 16-bit pattern as a signed number.
pub open spec fn signed16(x: u16) -> i16 {
    if x < 0x8000 {
        x as i16
    } else {
        (x - 0x1_0000) as i16
    }
}

/// A 32-bit pattern as a signed number.
pub open spec fn signed32(x: u32) -> i32 {
    if x < 0x8000_0000 {
        x as i32
    } else {
        (x - 0x1_0000_0000) as i32
    }
}

/// A 64-bit pattern as a signed number.
pub open spec fn signed64(x: u64) -> i64 {
    if x < 0x8000_0000_0000_0000 {
        x as i64
    } else {
        (x - 0x1_0000_0000_0000_0000) as i64
    }
}

/// The variant from `p` on.
pub open spec fn variant_at(b: Seq<u8>, p: int, big: bool) -> Result<(ValueView, int), Seq<char>>
    decreases left(b, p), TypeView::Variant, 0int,
{
    match sig_at(b, p) {
        Err(e) => Err(e),
        Ok((sig, q)) => match type_at(sig, 0) {
            Err(e) => Err(e),
            Ok((t, used)) => if used != sig.len() {
                Err("variant 签名含多余类型："@ + sig)
            } else if left(b, q) < left(b, p) {
                match value_at(b, q, big, t) {
                    Err(e) => Err(e),
                    Ok((v, r)) => Ok((ValueView::Variant(Box::new(v)), r)),
                }
            } else {
                Err("消息被截断"@)
            },
        },
    }
}

/// The value of type `t` from `p` on, and the position behind it.
pub open spec fn value_at(b: Seq<u8>, p: int, big: bool, t: TypeView) -> Result<
    (ValueView, int),
    Seq<char>,
>
    decreases left(b, p), t, 1int,
{
    match t {
        TypeView::Byte => match byte_at(b, p) {
            Ok((x, q)) => Ok((ValueView::Byte(x), q)),
            Err(e) => Err(e),
        },
        TypeView::Bool => match u32_at(b, p, big) {
            Ok((x, q)) => Ok((ValueView::Bool(x != 0), q)),
            Err(e) => Err(e),
        },
        TypeView::I16 => match u16_at(b, p, big) {
            Ok((x, q)) => Ok((ValueView::I16(signed16(x)), q)),
            Err(e) => Err(e),
        },
        TypeView::U16 => match u16_at(b, p, big) {
            Ok((x, q)) => Ok((ValueView::U16(x), q)),
            Err(e) => Err(e),
        },
        TypeView::I32 => match u32_at(b, p, big) {
            Ok((x, q)) => Ok((ValueView::I32(signed32(x)), q)),
            Err(e) => Err(e),
        },
        TypeView::U32 => match u32_at(b, p, big) {
            Ok((x, q)) => Ok((ValueView::U32(x), q)),
            Err(e) => Err(e),
        },
        TypeView::I64 => match u64_at(b, p, big) {
            Ok((x, q)) => Ok((ValueView::I64(signed64(x)), q)),
            Err(e) => Err(e),
        },
        TypeView::U64 => match u64_at(b, p, big) {
            Ok((x, q)) => Ok((ValueView::U64(x), q)),
            Err(e) => Err(e),
        },
        TypeView::F64 => match u64_at(b, p, big) {
            Ok((x, q)) => Ok((ValueView::F64(x), q)),
            Err(e) => Err(e),
        },
        TypeView::Str => match str_at(b, p, big) {
            Ok((s, q)) => Ok((ValueView::Str(s), q)),
            Err(e) => Err(e),
        },
        TypeView::Path => match str_at(b, p, big) {
            Ok((s, q)) => Ok((ValueView::Path(s), q)),
            Err(e) => Err(e),
        },
        TypeView::Sig => match sig_at(b, p) {
            Ok((s, q)) => Ok((ValueView::Sig(s), q)),
            Err(e) => Err(e),
        },
        TypeView::Variant => variant_at(b, p, big),
        TypeView::Array(elem) => match u32_at(b, p, big) {
            Err(e) => Err(e),
            Ok((n, q)) => {
                let start = aligned(q, alignment(*elem));
                if start + n > b.len() || left(b, start) > left(b, p) {
                    Err("消息被截断"@)
                } else {
                    match items_at(b, start, big, *elem, start + n, Seq::empty()) {
                        Err(e) => Err(e),
                        Ok((items, r)) => Ok(
                            (ValueView::Array { elem: type_sig(*elem), items }, r),
                        ),
                    }
                }
            },
        },
        TypeView::Struct(fields) => {
            let q = aligned(p, 8);
            if left(b, q) > left(b, p) {
                Err("消息被截断"@)
            } else {
                match fields_at(b, q, big, fields, Seq::empty()) {
                    Err(e) => Err(e),
                    Ok((vs, r)) => Ok((ValueView::Struct(vs), r)),
                }
            }
        },
        TypeView::DictEntry(k, v) => {
            let q = aligned(p, 8);
            if left(b, q) > left(b, p) {
                Err("消息被截断"@)
            } else {
                match value_at(b, q, big, *k) {
                    Err(e) => Err(e),
                    Ok((x, r)) => if left(b, r) > left(b, p) {
                        Err("消息被截断"@)
                    } else {
                        match value_at(b, r, big, *v) {
                            Err(e) => Err(e),
                            Ok((y, z)) => Ok((ValueView::Struct(seq![x, y]), z)),
                        }
                    },
                }
            }
        },
    }
}

/// The elements of an array from `p` up to `end`, where `acc` have been read. An element must take
/// up room, and the last one must end exactly at `end`.
pub open spec fn items_at(
    b: Seq<u8>,
    p: int,
    big: bool,
    elem: TypeView,
    end: int,
    acc: Seq<ValueView>,
) -> Result<(Seq<ValueView>, int), Seq<char>>
    decreases left(b, p), elem, 2int,
{
    if p == end {
        Ok((acc, p))
    } else if p > end || !(0 <= p && end <= b.len()) {
        Err("数组长度与元素序列不符"@)
    } else {
        match value_at(b, p, big, elem) {
            Err(e) => Err(e),
            Ok((v, q)) => if q <= p {
                Err("数组长度与元素序列不符"@)
            } else {
                items_at(b, q, big, elem, end, acc.push(v))
            },
        }
    }
}

/// The values of the given types from `p` on, where `acc` have been read.
pub open spec fn fields_at(
    b: Seq<u8>,
    p: int,
    big: bool,
    ts: Seq<TypeView>,
    acc: Seq<ValueView>,
) -> Result<(Seq<ValueView>, int), Seq<char>>
    decreases left(b, p), ts, 2int,
{
    if ts.len() == 0 {
        Ok((acc, p))
    } else {
        match value_at(b, p, big, ts[0]) {
            Err(e) => Err(e),
            Ok((v, q)) => if left(b, q) > left(b, p) {
                Err("消息被截断"@)
            } else {
                fields_at(b, q, big, ts.skip(1), acc.push(v))
            },
        }
    }
}

/// The furthest position that reading can get to: alignment may go past the end.
pub open spec fn limit(b: Seq<u8>) -> int {
    aligned(b.len() as int, 8)
}

/// Alignment moves forward, by less than its unit, and not past the limit.
pub proof fn lemma_aligned(b: Seq<u8>, p: int, n: int)
    requires
        0 <= p <= limit(b),
        n == 1 || n == 2 || n == 4 || n == 8,
    ensures
        p <= aligned(p, n) < p + n,
        aligned(p, n) <= limit(b),
        aligned(p, n) % n == 0,
        b.len() <= limit(b) < b.len() + 8,
{
    lemma_limit(b);
    lemma_up_to(p, n);
    lemma_up_to(b.len() as int, 8);
    let (a, l) = (aligned(p, n), limit(b));
    assert(l % n == 0);
    lemma_multiples(a, l, n);
}

/// What alignment to `n` gives: the next multiple.
pub proof fn lemma_up_to(p: int, n: int)
    requires
        0 <= p,
        n == 1 || n == 2 || n == 4 || n == 8,
    ensures
        p <= aligned(p, n) < p + n,
        aligned(p, n) % n == 0,
{
    reveal(aligned);
}

/// A multiple that is less than a unit past another one is not past it.
pub proof fn lemma_multiples(a: int, l: int, n: int)
    requires
        n > 0,
        a % n == 0,
        l % n == 0,
        a < l + n,
    ensures
        a <= l,
{
    vstd::arithmetic::div_mod::lemma_fundamental_div_mod(a, n);
    vstd::arithmetic::div_mod::lemma_fundamental_div_mod(l, n);
    let (x, y) = (a / n, l / n);
    if x > y {
        assert(n * x >= n * y + n) by (nonlinear_arith)
            requires
                x >= y + 1,
                n > 0,
        ;
    } else {
        assert(n * x <= n * y) by (nonlinear_arith)
            requires
                x <= y,
                n > 0,
        ;
    }
}

/// The limit is the end, or less than 8 past it.
pub proof fn lemma_limit(b: Seq<u8>)
    ensures
        b.len() <= limit(b) < b.len() + 8,
{
    lemma_up_to(b.len() as int, 8);
}

/// Reading a variant moves forward, and not past the limit.
pub proof fn lemma_variant_at(b: Seq<u8>, p: int, big: bool)
    requires
        0 <= p <= limit(b),
    ensures
        variant_at(b, p, big) matches Ok((v, q)) ==> p < q <= limit(b) && v is Variant,
    decreases left(b, p), TypeView::Variant, 0int,
{
    lemma_limit(b);
    if let Ok((sig, q)) = sig_at(b, p) {
        if let Ok((t, used)) = type_at(sig, 0) {
            if used == sig.len() {
                lemma_value_at(b, q, big, t);
            }
        }
    }
}

/// Reading a value moves on, and not past the limit.
pub proof fn lemma_value_at(b: Seq<u8>, p: int, big: bool, t: TypeView)
    requires
        0 <= p <= limit(b),
    ensures
        value_at(b, p, big, t) matches Ok((v, q)) ==> p <= q <= limit(b),
    decreases left(b, p), t, 1int,
{
    lemma_limit(b);
    lemma_aligned(b, p, 2);
    lemma_aligned(b, p, 4);
    lemma_aligned(b, p, 8);
    match t {
        TypeView::Variant => lemma_variant_at(b, p, big),
        TypeView::Array(elem) => {
            if let Ok((n, q)) = u32_at(b, p, big) {
                lemma_aligned(b, q, alignment(*elem));
                let start = aligned(q, alignment(*elem));
                if start + n <= b.len() {
                    lemma_items_at(b, start, big, *elem, start + n, Seq::empty());
                }
            }
        },
        TypeView::Struct(fields) => {
            lemma_fields_at(b, aligned(p, 8), big, fields, Seq::empty());
        },
        TypeView::DictEntry(k, v) => {
            let q = aligned(p, 8);
            lemma_value_at(b, q, big, *k);
            if let Ok((x, r)) = value_at(b, q, big, *k) {
                lemma_value_at(b, r, big, *v);
            }
        },
        _ => {},
    }
}

/// Reading the elements of an array moves on, and not past the limit.
pub proof fn lemma_items_at(
    b: Seq<u8>,
    p: int,
    big: bool,
    elem: TypeView,
    end: int,
    acc: Seq<ValueView>,
)
    requires
        0 <= p <= limit(b),
    ensures
        items_at(b, p, big, elem, end, acc) matches Ok((vs, q)) ==> p <= q <= limit(b) && q == end,
    decreases left(b, p), elem, 2int,
{
    lemma_limit(b);
    if p < end <= b.len() {
        lemma_value_at(b, p, big, elem);
        if let Ok((v, q)) = value_at(b, p, big, elem) {
            if q > p {
                lemma_items_at(b, q, big, elem, end, acc.push(v));
            }
        }
    }
}

/// Reading a row of values moves on, and not past the limit.
pub proof fn lemma_fields_at(
    b: Seq<u8>,
    p: int,
    big: bool,
    ts: Seq<TypeView>,
    acc: Seq<ValueView>,
)
    requires
        0 <= p <= limit(b),
    ensures
        fields_at(b, p, big, ts, acc) matches Ok((vs, q)) ==> p <= q <= limit(b),
    decreases left(b, p), ts, 2int,
{
    if ts.len() > 0 {
        lemma_value_at(b, p, big, ts[0]);
        if let Ok((v, q)) = value_at(b, p, big, ts[0]) {
            lemma_fields_at(b, q, big, ts.skip(1), acc.push(v));
        }
    }
}

fn short() -> (r: PortalError)
    ensures
        r@ == PortalErrorView::Protocol("消息被截断"@),
{
    protocol("消息被截断")
}

/// The four bytes at `at` as a number.
pub(crate) fn read_u32(buf: &[u8], at: usize, big: bool) -> (r: u32)
    requires
        at + 4 <= buf@.len(),
    ensures
        r == num32(buf@, at as int, big),
{
    let (a, b, c, d) = (
        buf[at] as u32,
        buf[at + 1] as u32,
        buf[at + 2] as u32,
        buf[at + 3] as u32,
    );
    if big {
        ((a * 256 + b) * 65536) + (c * 256 + d)
    } else {
        ((d * 256 + c) * 65536) + (b * 256 + a)
    }
}

/// The next multiple of `n`.
pub(crate) fn align_up(p: usize, n: usize) -> (r: usize)
    requires
        n == 1 || n == 2 || n == 4 || n == 8,
        aligned(p as int, n as int) <= usize::MAX,
    ensures
        r == aligned(p as int, n as int),
{
    reveal(aligned);
    p + (n - p % n) % n
}

/// Reads values one after the other.
struct Reader<'a> {
    buf: &'a [u8],
    pos: usize,
    big: bool,
}

impl<'a> Reader<'a> {
    spec fn wf(self) -> bool {
        &&& self.pos <= limit(self.buf@)
        &&& self.buf@.len() <= usize::MAX - 8
    }

    /// Whether `self` is `before` moved to `p`.
    spec fn moved(self, before: Self, p: int) -> bool {
        self.wf() && self.buf == before.buf && self.big == before.big && self.pos == p
    }

    fn align(&mut self, n: usize)
        requires
            old(self).wf(),
            n == 1 || n == 2 || n == 4 || n == 8,
        ensures
            final(self).moved(*old(self), aligned(old(self).pos as int, n as int)),
    {
        proof {
            lemma_aligned(self.buf@, self.pos as int, n as int);
            lemma_limit(self.buf@);
        }
        self.pos = align_up(self.pos, n);
    }

    fn u8(&mut self) -> (r: Result<u8, PortalError>)
        requires
            old(self).wf(),
        ensures
            match byte_at(old(self).buf@, old(self).pos as int) {
                Ok((x, q)) => r == Ok::<u8, PortalError>(x) && final(self).moved(*old(self), q),
                Err(e) => r matches Err(x) && x@ == PortalErrorView::Protocol(e),
            },
    {
        proof {
            lemma_limit(self.buf@);
        }
        if self.pos >= self.buf.len() {
            return Err(short());
        }
        let x = self.buf[self.pos];
        self.pos = self.pos + 1;
        Ok(x)
    }

    fn u16(&mut self) -> (r: Result<u16, PortalError>)
        requires
            old(self).wf(),
        ensures
            match u16_at(old(self).buf@, old(self).pos as int, old(self).big) {
                Ok((x, q)) => r == Ok::<u16, PortalError>(x) && final(self).moved(*old(self), q),
                Err(e) => r matches Err(x) && x@ == PortalErrorView::Protocol(e),
            },
    {
        proof {
            lemma_limit(self.buf@);
        }
        self.align(2);
        if self.pos > self.buf.len() || self.buf.len() - self.pos < 2 {
            return Err(short());
        }
        let (a, b) = (self.buf[self.pos] as u16, self.buf[self.pos + 1] as u16);
        self.pos = self.pos + 2;
        if self.big {
            Ok(a * 256 + b)
        } else {
            Ok(b * 256 + a)
        }
    }

    fn u32(&mut self) -> (r: Result<u32, PortalError>)
        requires
            old(self).wf(),
        ensures
            match u32_at(old(self).buf@, old(self).pos as int, old(self).big) {
                Ok((x, q)) => r == Ok::<u32, PortalError>(x) && final(self).moved(*old(self), q),
                Err(e) => r matches Err(x) && x@ == PortalErrorView::Protocol(e),
            },
    {
        proof {
            lemma_limit(self.buf@);
        }
        self.align(4);
        if self.pos > self.buf.len() || self.buf.len() - self.pos < 4 {
            return Err(short());
        }
        let x = read_u32(self.buf, self.pos, self.big);
        self.pos = self.pos + 4;
        Ok(x)
    }

    fn u64(&mut self) -> (r: Result<u64, PortalError>)
        requires
            old(self).wf(),
        ensures
            match u64_at(old(self).buf@, old(self).pos as int, old(self).big) {
                Ok((x, q)) => r == Ok::<u64, PortalError>(x) && final(self).moved(*old(self), q),
                Err(e) => r matches Err(x) && x@ == PortalErrorView::Protocol(e),
            },
    {
        proof {
            lemma_limit(self.buf@);
        }
        self.align(8);
        if self.pos > self.buf.len() || self.buf.len() - self.pos < 8 {
            return Err(short());
        }
        let a = read_u32(self.buf, self.pos, self.big) as u64;
        let b = read_u32(self.buf, self.pos + 4, self.big) as u64;
        self.pos = self.pos + 8;
        if self.big {
            Ok(a * 0x1_0000_0000 + b)
        } else {
            Ok(b * 0x1_0000_0000 + a)
        }
    }

    fn text(&mut self, n: usize, no_nul: &str) -> (r: Result<String, PortalError>)
        requires
            old(self).wf(),
        ensures
            match text_at(old(self).buf@, old(self).pos as int, n as int, no_nul@) {
                Ok((x, q)) => (r matches Ok(s) && s@ == x) && final(self).moved(*old(self), q),
                Err(e) => r matches Err(x) && x@ == PortalErrorView::Protocol(e),
            },
    {
        proof {
            lemma_limit(self.buf@);
        }
        if self.pos >= self.buf.len() || n >= self.buf.len() - self.pos {
            return Err(short());
        }
        let end = self.pos + n;
        let s = match text::utf8_text(
            vstd::slice::slice_subrange(self.buf, self.pos, end),
        ) {
            Some(s) => s,
            None => {
                return Err(protocol("字符串不是合法 UTF-8"));
            },
        };
        if self.buf[end] != 0 {
            return Err(protocol(no_nul));
        }
        self.pos = end + 1;
        Ok(s)
    }

    fn str32(&mut self) -> (r: Result<String, PortalError>)
        requires
            old(self).wf(),
        ensures
            match str_at(old(self).buf@, old(self).pos as int, old(self).big) {
                Ok((x, q)) => (r matches Ok(s) && s@ == x) && final(self).moved(*old(self), q),
                Err(e) => r matches Err(x) && x@ == PortalErrorView::Protocol(e),
            },
    {
        let n = match self.u32() {
            Ok(n) => n,
            Err(e) => {
                return Err(e);
            },
        };
        if n as u64 >= usize::MAX as u64 {
            return Err(short());
        }
        self.text(n as usize, "字符串缺少 NUL 结尾")
    }

    fn sig(&mut self) -> (r: Result<String, PortalError>)
        requires
            old(self).wf(),
        ensures
            match sig_at(old(self).buf@, old(self).pos as int) {
                Ok((x, q)) => (r matches Ok(s) && s@ == x) && final(self).moved(*old(self), q),
                Err(e) => r matches Err(x) && x@ == PortalErrorView::Protocol(e),
            },
    {
        let n = match self.u8() {
            Ok(n) => n,
            Err(e) => {
                return Err(e);
            },
        };
        self.text(n as usize, "签名缺少 NUL 结尾")
    }

    fn variant(&mut self) -> (r: Result<Value, PortalError>)
        requires
            old(self).wf(),
        ensures
            match variant_at(old(self).buf@, old(self).pos as int, old(self).big) {
                Ok((v, q)) => (r matches Ok(x) && x@ == v) && final(self).moved(*old(self), q),
                Err(e) => r matches Err(x) && x@ == PortalErrorView::Protocol(e),
            },
        decreases left(old(self).buf@, old(self).pos as int), TypeView::Variant, 0int,
    {
        let sig = match self.sig() {
            Ok(s) => s,
            Err(e) => {
                return Err(e);
            },
        };
        let chars = chars_of(sig.as_str());
        let (t, used) = match parse_one_type(&chars, 0) {
            Ok(x) => x,
            Err(e) => {
                return Err(e);
            },
        };
        if used != chars.len() {
            let mut out = "variant 签名含多余类型：".to_owned();
            out.append(sig.as_str());
            return Err(PortalError::Protocol(out));
        }
        match self.value(&t) {
            Ok(v) => Ok(Value::Variant(Box::new(v))),
            Err(e) => Err(e),
        }
    }

    #[verifier::rlimit(40)]
    fn value(&mut self, t: &Type) -> (r: Result<Value, PortalError>)
        requires
            old(self).wf(),
        ensures
            match value_at(old(self).buf@, old(self).pos as int, old(self).big, t@) {
                Ok((v, q)) => (r matches Ok(x) && x@ == v) && final(self).moved(*old(self), q),
                Err(e) => r matches Err(x) && x@ == PortalErrorView::Protocol(e),
            },
        decreases left(old(self).buf@, old(self).pos as int), t@, 1int,
    {
        match t {
            Type::Byte => match self.u8() {
                Ok(x) => Ok(Value::Byte(x)),
                Err(e) => Err(e),
            },
            Type::Bool => match self.u32() {
                Ok(x) => Ok(Value::Bool(x != 0)),
                Err(e) => Err(e),
            },
            Type::I16 => match self.u16() {
                Ok(x) => Ok(Value::I16(to_i16(x))),
                Err(e) => Err(e),
            },
            Type::U16 => match self.u16() {
                Ok(x) => Ok(Value::U16(x)),
                Err(e) => Err(e),
            },
            Type::I32 => match self.u32() {
                Ok(x) => Ok(Value::I32(to_i32(x))),
                Err(e) => Err(e),
            },
            Type::U32 => match self.u32() {
                Ok(x) => Ok(Value::U32(x)),
                Err(e) => Err(e),
            },
            Type::I64 => match self.u64() {
                Ok(x) => Ok(Value::I64(to_i64(x))),
                Err(e) => Err(e),
            },
            Type::U64 => match self.u64() {
                Ok(x) => Ok(Value::U64(x)),
                Err(e) => Err(e),
            },
            Type::F64 => match self.u64() {
                Ok(x) => Ok(Value::F64(x)),
                Err(e) => Err(e),
            },
            Type::Str => match self.str32() {
                Ok(s) => Ok(Value::Str(s)),
                Err(e) => Err(e),
            },
            Type::Path => match self.str32() {
                Ok(s) => Ok(Value::Path(s)),
                Err(e) => Err(e),
            },
            Type::Sig => match self.sig() {
                Ok(s) => Ok(Value::Sig(s)),
                Err(e) => Err(e),
            },
            Type::Variant => self.variant(),
            Type::Array(elem) => self.array(elem),
            Type::Struct(fields) => {
                proof {
                    lemma_aligned(self.buf@, self.pos as int, 8);
                }
                self.align(8);
                assert(t@ matches TypeView::Struct(fs) && fs =~= type_views(fields@));
                match self.values(fields) {
                    Ok(vs) => {
                        let v = Value::Struct(vs);
                        assert(v@ matches ValueView::Struct(xs) && xs =~= value_views(vs@));
                        Ok(v)
                    },
                    Err(e) => Err(e),
                }
            },
            Type::DictEntry(k, v) => {
                proof {
                    lemma_aligned(self.buf@, self.pos as int, 8);
                }
                self.align(8);
                proof {
                    lemma_value_at(self.buf@, self.pos as int, self.big, k@);
                }
                let key = match self.value(k) {
                    Ok(x) => x,
                    Err(e) => {
                        return Err(e);
                    },
                };
                let val = match self.value(v) {
                    Ok(x) => x,
                    Err(e) => {
                        return Err(e);
                    },
                };
                let mut pair: Vec<Value> = Vec::new();
                pair.push(key);
                pair.push(val);
                let out = Value::Struct(pair);
                assert(out@ matches ValueView::Struct(xs) && xs =~= seq![key@, val@]);
                Ok(out)
            },
        }
    }

    fn array(&mut self, elem: &Type) -> (r: Result<Value, PortalError>)
        requires
            old(self).wf(),
        ensures
            match value_at(
                old(self).buf@,
                old(self).pos as int,
                old(self).big,
                TypeView::Array(Box::new(elem@)),
            ) {
                Ok((v, q)) => (r matches Ok(x) && x@ == v) && final(self).moved(*old(self), q),
                Err(e) => r matches Err(x) && x@ == PortalErrorView::Protocol(e),
            },
        decreases
                left(old(self).buf@, old(self).pos as int),
                TypeView::Array(Box::new(elem@)),
                0int,
    {
        let ghost (b, p0, big) = (self.buf@, self.pos as int, self.big);
        proof {
            lemma_aligned(b, p0, 4);
        }
        let n = match self.u32() {
            Ok(n) => n,
            Err(e) => {
                return Err(e);
            },
        };
        proof {
            lemma_aligned(b, self.pos as int, alignment(elem@));
        }
        self.align(align_of(elem));
        if self.pos > self.buf.len() || n as u64 > (self.buf.len() - self.pos) as u64 {
            return Err(short());
        }
        let end = self.pos + n as usize;
        let ghost start = self.pos as int;
        let mut items: Vec<Value> = Vec::new();
        assert(value_views(items@) =~= Seq::<ValueView>::empty());
        while self.pos < end
            invariant
                self.wf(),
                self.buf == old(self).buf,
                self.big == old(self).big,
                b == self.buf@,
                big == self.big,
                p0 == old(self).pos,
                0 <= p0 <= start <= self.pos,
                left(b, start) <= left(b, p0),
                end <= b.len(),
                items_at(b, start, big, elem@, end as int, Seq::empty()) == items_at(
                    b,
                    self.pos as int,
                    big,
                    elem@,
                    end as int,
                    value_views(items@),
                ),
                value_at(b, p0, big, TypeView::Array(Box::new(elem@))) == match items_at(
                    b,
                    start,
                    big,
                    elem@,
                    end as int,
                    Seq::empty(),
                ) {
                    Err(e) => Err::<(ValueView, int), Seq<char>>(e),
                    Ok((items, r)) => Ok((ValueView::Array { elem: type_sig(elem@), items }, r)),
                },
            decreases left(b, self.pos as int),
        {
            let before = self.pos;
            proof {
                lemma_value_at(b, self.pos as int, big, elem@);
            }
            match self.value(elem) {
                Ok(v) => {
                    if self.pos <= before {
                        return Err(protocol("数组长度与元素序列不符"));
                    }
                    let ghost old_items = items@;
                    items.push(v);
                    assert(value_views(items@) =~= value_views(old_items).push(v@));
                },
                Err(e) => {
                    return Err(e);
                },
            }
        }
        if self.pos != end {
            return Err(protocol("数组长度与元素序列不符"));
        }
        let v = Value::Array { elem: sig_of(elem), items };
        assert(v@->Array_items =~= value_views(items@));
        Ok(v)
    }

    fn values(&mut self, types: &Vec<Type>) -> (r: Result<Vec<Value>, PortalError>)
        requires
            old(self).wf(),
        ensures
            match fields_at(
                old(self).buf@,
                old(self).pos as int,
                old(self).big,
                type_views(types@),
                Seq::empty(),
            ) {
                Ok((vs, q)) => (r matches Ok(x) && value_views(x@) == vs) && final(self).moved(
                    *old(self),
                    q,
                ),
                Err(e) => r matches Err(x) && x@ == PortalErrorView::Protocol(e),
            },
        decreases left(old(self).buf@, old(self).pos as int), type_views(types@), 2int,
    {
        let ghost (b, p0, big) = (self.buf@, self.pos as int, self.big);
        let ghost ts = type_views(types@);
        let mut out: Vec<Value> = Vec::new();
        let mut i: usize = 0;
        proof {
            assert(value_views(out@) =~= Seq::<ValueView>::empty());
            assert(ts.skip(0) =~= ts);
        }
        while i < types.len()
            invariant
                self.wf(),
                self.buf == old(self).buf,
                self.big == old(self).big,
                b == self.buf@,
                big == self.big,
                p0 == old(self).pos,
                ts == type_views(types@),
                0 <= p0 <= self.pos,
                i <= types@.len(),
                fields_at(b, p0, big, ts, Seq::empty()) == fields_at(
                    b,
                    self.pos as int,
                    big,
                    ts.skip(i as int),
                    value_views(out@),
                ),
            decreases types@.len() - i,
        {
            proof {
                lemma_value_at(b, self.pos as int, big, ts[i as int]);
                assert(ts.skip(i as int)[0] == types@[i as int]@);
                assert(ts.skip(i as int).skip(1) =~= ts.skip(i + 1));
                assert(decreases_to!(ts => ts[i as int]));
            }
            match self.value(&types[i]) {
                Ok(v) => {
                    let ghost before = out@;
                    out.push(v);
                    assert(value_views(out@) =~= value_views(before).push(v@));
                },
                Err(e) => {
                    return Err(e);
                },
            }
            i += 1;
        }
        Ok(out)
    }
}

fn to_i16(x: u16) -> (r: i16)
    ensures
        r == signed16(x),
{
    if x < 0x8000 {
        x as i16
    } else {
        (x as i32 - 0x1_0000) as i16
    }
}

fn to_i32(x: u32) -> (r: i32)
    ensures
        r == signed32(x),
{
    if x < 0x8000_0000 {
        x as i32
    } else {
        (x as i64 - 0x1_0000_0000) as i32
    }
}

fn to_i64(x: u64) -> (r: i64)
    ensures
        r == signed64(x),
{
    if x < 0x8000_0000_0000_0000 {
        x as i64
    } else {
        (x as i128 - 0x1_0000_0000_0000_0000) as i64
    }
}

// ---- messages ----

/// A message: what its header says, and its values.
#[derive(Debug)]
pub struct Message {
    pub kind: u8,
    pub serial: u32,
    pub reply_serial: Option<u32>,
    pub path: Option<String>,
    pub interface: Option<String>,
    pub member: Option<String>,
    pub error_name: Option<String>,
    pub body: Vec<Value>,
}

/// The model of [`Message`].
#[verifier::ext_equal]
pub struct MessageView {
    pub kind: u8,
    pub serial: u32,
    pub reply_serial: Option<u32>,
    pub path: Option<Seq<char>>,
    pub interface: Option<Seq<char>>,
    pub member: Option<Seq<char>>,
    pub error_name: Option<Seq<char>>,
    pub body: Seq<ValueView>,
}

/// The text of an optional string.
pub open spec fn opt_text(s: Option<String>) -> Option<Seq<char>> {
    match s {
        Some(x) => Some(x@),
        None => None,
    }
}

impl View for Message {
    type V = MessageView;

    open spec fn view(&self) -> MessageView {
        MessageView {
            kind: self.kind,
            serial: self.serial,
            reply_serial: self.reply_serial,
            path: opt_text(self.path),
            interface: opt_text(self.interface),
            member: opt_text(self.member),
            error_name: opt_text(self.error_name),
            body: value_views(self.body@),
        }
    }
}

/// What the header fields say.
#[verifier::ext_equal]
pub struct HeaderView {
    pub reply_serial: Option<u32>,
    pub path: Option<Seq<char>>,
    pub interface: Option<Seq<char>>,
    pub member: Option<Seq<char>>,
    pub error_name: Option<Seq<char>>,
    pub signature: Seq<char>,
}

/// The header without any field.
pub open spec fn no_header() -> HeaderView {
    HeaderView {
        reply_serial: None,
        path: None,
        interface: None,
        member: None,
        error_name: None,
        signature: Seq::empty(),
    }
}

/// The text inside a variant of a string type.
pub open spec fn text_inside(v: ValueView) -> Result<Seq<char>, Seq<char>> {
    match v {
        ValueView::Variant(inner) => match *inner {
            ValueView::Str(s) => Ok(s),
            ValueView::Path(s) => Ok(s),
            ValueView::Sig(s) => Ok(s),
            _ => Err("头部字段值类型不符"@),
        },
        _ => Err("头部字段值不是变体"@),
    }
}

/// The header with field `code` set to `v`; unknown fields are ignored.
pub open spec fn with_field(h: HeaderView, code: u8, v: ValueView) -> Result<HeaderView, Seq<char>> {
    if code == 1 || code == 2 || code == 3 || code == 4 || code == 8 {
        match text_inside(v) {
            Err(e) => Err(e),
            Ok(s) => Ok(
                if code == 1 {
                    HeaderView { path: Some(s), ..h }
                } else if code == 2 {
                    HeaderView { interface: Some(s), ..h }
                } else if code == 3 {
                    HeaderView { member: Some(s), ..h }
                } else if code == 4 {
                    HeaderView { error_name: Some(s), ..h }
                } else {
                    HeaderView { signature: s, ..h }
                },
            ),
        }
    } else if code == 5 {
        match v {
            ValueView::Variant(inner) => match *inner {
                ValueView::U32(n) => Ok(HeaderView { reply_serial: Some(n), ..h }),
                _ => Err("头部字段值类型不符"@),
            },
            _ => Err("头部字段值不是变体"@),
        }
    } else {
        Ok(h)
    }
}

/// The header after the fields from `p` up to `end`.
pub open spec fn header_at(b: Seq<u8>, p: int, big: bool, end: int, h: HeaderView) -> Result<
    HeaderView,
    Seq<char>,
>
    decreases
            if p < end {
                end - p
            } else {
                0
            },
{
    let q = aligned(p, 8);
    if p >= end || q >= end {
        Ok(h)
    } else {
        match byte_at(b, q) {
            Err(e) => Err(e),
            Ok((code, r)) => match variant_at(b, r, big) {
                Err(e) => Err(e),
                Ok((v, z)) => match with_field(h, code, v) {
                    Err(e) => Err(e),
                    Ok(next) => if z > p {
                        header_at(b, z, big, end, next)
                    } else {
                        Ok(next)
                    },
                },
            },
        }
    }
}

/// Whether the first byte says that numbers start with their highest byte; `None` where it says
/// nothing known.
pub open spec fn byte_order(c: u8) -> Option<bool> {
    if c == 0x6C {
        Some(false)
    } else if c == 0x42 {
        Some(true)
    } else {
        None
    }
}

/// What is wrong with an unknown byte order.
pub open spec fn bad_order(c: u8) -> Seq<char> {
    "未知字节序标记 0x"@ + text::hex_byte(c)
}

/// What a message reads as.
pub open spec fn parsed(b: Seq<u8>) -> Result<MessageView, Seq<char>> {
    if b.len() < 16 {
        Err("消息被截断"@)
    } else if byte_order(b[0]) is None {
        Err(bad_order(b[0]))
    } else {
        let big = byte_order(b[0])->0;
        let body_len = num32(b, 4, big);
        let fields_len = num32(b, 12, big);
        let body_pos = aligned(16 + fields_len, 8);
        if body_len > MAX_MESSAGE_BYTES || fields_len > MAX_MESSAGE_BYTES {
            Err("消息超过大小上限"@)
        } else if body_pos + body_len > b.len() {
            Err("消息被截断"@)
        } else {
            match header_at(b, 16, big, 16 + fields_len, no_header()) {
                Err(e) => Err(e),
                Ok(h) => match all_types(h.signature, 0, Seq::empty()) {
                    Err(e) => Err(e),
                    Ok(ts) => match fields_at(b, body_pos, big, ts, Seq::empty()) {
                        Err(e) => Err(e),
                        Ok((body, _)) => Ok(
                            MessageView {
                                kind: b[1],
                                serial: num32(b, 8, big) as u32,
                                reply_serial: h.reply_serial,
                                path: h.path,
                                interface: h.interface,
                                member: h.member,
                                error_name: h.error_name,
                                body,
                            },
                        ),
                    },
                },
            }
        }
    }
}

fn field_string(value: &Value) -> (r: Result<String, PortalError>)
    ensures
        match text_inside(value@) {
            Ok(s) => r matches Ok(x) && x@ == s,
            Err(e) => r matches Err(x) && x@ == PortalErrorView::Protocol(e),
        },
{
    proof {
        reveal_with_fuel(value_view, 2);
    }
    match value {
        Value::Variant(inner) => match &**inner {
            Value::Str(s) => Ok(s.clone()),
            Value::Path(s) => Ok(s.clone()),
            Value::Sig(s) => Ok(s.clone()),
            _ => Err(protocol("头部字段值类型不符")),
        },
        _ => Err(protocol("头部字段值不是变体")),
    }
}

fn field_u32(value: &Value) -> (r: Result<u32, PortalError>)
    ensures
        match value@ {
            ValueView::Variant(inner) => match *inner {
                ValueView::U32(n) => r == Ok::<u32, PortalError>(n),
                _ => r matches Err(x) && x@ == PortalErrorView::Protocol("头部字段值类型不符"@),
            },
            _ => r matches Err(x) && x@ == PortalErrorView::Protocol("头部字段值不是变体"@),
        },
{
    proof {
        reveal_with_fuel(value_view, 2);
    }
    match value {
        Value::Variant(inner) => match &**inner {
            Value::U32(n) => Ok(*n),
            _ => Err(protocol("头部字段值类型不符")),
        },
        _ => Err(protocol("头部字段值不是变体")),
    }
}

/// What the header fields say.
struct Header {
    reply_serial: Option<u32>,
    path: Option<String>,
    interface: Option<String>,
    member: Option<String>,
    error_name: Option<String>,
    signature: String,
}

impl View for Header {
    type V = HeaderView;

    closed spec fn view(&self) -> HeaderView {
        HeaderView {
            reply_serial: self.reply_serial,
            path: opt_text(self.path),
            interface: opt_text(self.interface),
            member: opt_text(self.member),
            error_name: opt_text(self.error_name),
            signature: self.signature@,
        }
    }
}

impl Header {
    fn set(&mut self, code: u8, value: &Value) -> (r: Result<(), PortalError>)
        ensures
            match with_field(old(self)@, code, value@) {
                Ok(h) => r is Ok && final(self)@ == h,
                Err(e) => r matches Err(x) && x@ == PortalErrorView::Protocol(e),
            },
    {
        if code == 1 || code == 2 || code == 3 || code == 4 || code == 8 {
            let s = match field_string(value) {
                Ok(s) => s,
                Err(e) => {
                    return Err(e);
                },
            };
            if code == 1 {
                self.path = Some(s);
            } else if code == 2 {
                self.interface = Some(s);
            } else if code == 3 {
                self.member = Some(s);
            } else if code == 4 {
                self.error_name = Some(s);
            } else {
                self.signature = s;
            }
        } else if code == 5 {
            match field_u32(value) {
                Ok(n) => {
                    self.reply_serial = Some(n);
                },
                Err(e) => {
                    return Err(e);
                },
            }
        }
        Ok(())
    }
}

/// Reads the header fields up to `end`.
fn read_header(r: &mut Reader<'_>, end: usize) -> (h: Result<Header, PortalError>)
    requires
        old(r).wf(),
        end <= old(r).buf@.len(),
    ensures
        match header_at(old(r).buf@, old(r).pos as int, old(r).big, end as int, no_header()) {
            Ok(x) => h matches Ok(y) && y@ == x && final(r).wf() && final(r).buf == old(r).buf
                && final(r).big == old(r).big,
            Err(e) => h matches Err(x) && x@ == PortalErrorView::Protocol(e),
        },
{
    let ghost b = r.buf@;
    let ghost from = r.pos as int;
    let ghost big = r.big;
    let mut head = Header {
        reply_serial: None,
        path: None,
        interface: None,
        member: None,
        error_name: None,
        signature: String::new(),
    };
    assert(head@ =~= no_header());
    let mut more = true;
    while more
        invariant
            b == r.buf@,
            big == r.big,
            r.wf(),
            r.buf == old(r).buf,
            from == old(r).pos,
            big == old(r).big,
            end <= b.len(),
            more ==> header_at(b, from, big, end as int, no_header()) == header_at(
                b,
                r.pos as int,
                big,
                end as int,
                head@,
            ),
            !more ==> header_at(b, from, big, end as int, no_header()) == Ok::<
                HeaderView,
                Seq<char>,
            >(head@),
        decreases
                if r.pos < end { end - r.pos } else { 0 },
                if more { 1int } else { 0int },
    {
        proof {
            lemma_aligned(b, r.pos as int, 8);
        }
        let at = r.pos;
        if r.pos < end {
            r.align(8);
        }
        if r.pos >= end {
            more = false;
        } else {
            proof {
                lemma_limit(b);
                lemma_variant_at(b, r.pos as int + 1, big);
            }
            let code = match r.u8() {
                Ok(c) => c,
                Err(e) => {
                    return Err(e);
                },
            };
            let value = match r.variant() {
                Ok(v) => v,
                Err(e) => {
                    return Err(e);
                },
            };
            match head.set(code, &value) {
                Ok(_) => {},
                Err(e) => {
                    return Err(e);
                },
            }
        }
    }
    Ok(head)
}

/// The error for an unknown byte order.
pub(crate) fn unknown_order(c: u8) -> (r: PortalError)
    ensures
        r@ == PortalErrorView::Protocol(bad_order(c)),
{
    let mut out = "未知字节序标记 0x".to_owned();
    push_hex(&mut out, c);
    PortalError::Protocol(out)
}

/// Reads a complete message.
pub fn parse(buf: &[u8]) -> (r: Result<Message, PortalError>)
    requires
        buf@.len() <= usize::MAX - 8,
    ensures
        match parsed(buf@) {
            Ok(m) => r matches Ok(x) && x@ == m,
            Err(e) => r matches Err(x) && x@ == PortalErrorView::Protocol(e),
        },
{
    if buf.len() < 16 {
        return Err(short());
    }
    let big = if buf[0] == 0x6C {
        false
    } else if buf[0] == 0x42 {
        true
    } else {
        return Err(unknown_order(buf[0]));
    };
    let ghost b = buf@;
    let body_len = read_u32(buf, 4, big);
    let serial = read_u32(buf, 8, big);
    let fields_len = read_u32(buf, 12, big);
    if body_len as u64 > MAX_MESSAGE_BYTES as u64 || fields_len as u64 > MAX_MESSAGE_BYTES as u64 {
        return Err(protocol("消息超过大小上限"));
    }
    let end: usize = 16 + fields_len as usize;
    proof {
        lemma_up_to(end as int, 8);
        lemma_limit(b);
    }
    let body_pos: usize = align_up(end, 8);
    if body_pos > buf.len() || body_len as usize > buf.len() - body_pos {
        return Err(short());
    }
    let mut r = Reader { buf, pos: 16, big };
    let head = match read_header(&mut r, end) {
        Ok(h) => h,
        Err(e) => {
            return Err(e);
        },
    };
    let types = match parse_signature(head.signature.as_str()) {
        Ok(t) => t,
        Err(e) => {
            return Err(e);
        },
    };
    proof {
        lemma_limit(b);
    }
    r.pos = body_pos;
    let body = match r.values(&types) {
        Ok(v) => v,
        Err(e) => {
            return Err(e);
        },
    };
    Ok(
        Message {
            kind: buf[1],
            serial,
            reply_serial: head.reply_serial,
            path: head.path,
            interface: head.interface,
            member: head.member,
            error_name: head.error_name,
            body,
        },
    )
}

} // verus!
