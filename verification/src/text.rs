//! Text helpers: decimal numbers, white space and searching, over sequences of characters.
//!
//! Strings are modelled by their sequence of characters (`s@`). The functions here are the
//! building blocks that the parsers and message formatters share.

use vstd::prelude::*;

verus! {

/// `String::push`: appends one character.
pub assume_specification[ String::push ](s: &mut String, ch: char)
    ensures
        final(s)@ == old(s)@.push(ch),
;

/// `std::str::from_utf8`: the text that the bytes are in UTF-8, or `None` where they are not
/// valid UTF-8.
#[verifier::external_body]
pub(crate) fn utf8_text(bytes: &[u8]) -> (r: Option<String>)
    ensures
        r is Some == vstd::utf8::valid_utf8(bytes@),
        r matches Some(s) ==> s@ == vstd::utf8::decode_utf8(bytes@),
{
    match std::str::from_utf8(bytes) {
        Ok(s) => Some(s.to_owned()),
        Err(_) => None,
    }
}

/// The characters of a string, in order.
pub fn chars_of(s: &str) -> (r: Vec<char>)
    ensures
        r@ == s@,
{
    let mut out: Vec<char> = Vec::new();
    for c in it: s.chars()
        invariant
            it.seq() == s@,
            out@ == it.seq().take(it.index() as int),
    {
        out.push(c);
    }
    assert(s@.take(s@.len() as int) =~= s@);
    out
}

/// The string made of the characters `chars`.
pub fn string_of(chars: &[char]) -> (r: String)
    ensures
        r@ == chars@,
{
    let mut out = String::new();
    let mut i: usize = 0;
    while i < chars.len()
        invariant
            i <= chars.len(),
            out@ == chars@.take(i as int),
        decreases chars.len() - i,
    {
        out.push(chars[i]);
        i += 1;
        assert(chars@.take(i as int) =~= chars@.take(i - 1).push(chars@[i - 1]));
    }
    assert(chars@.take(chars@.len() as int) =~= chars@);
    out
}

/// Whether two sequences of characters are the same.
pub fn same_chars(a: &[char], b: &[char]) -> (r: bool)
    ensures
        r == (a@ == b@),
{
    if a.len() != b.len() {
        return false;
    }
    let mut i: usize = 0;
    while i < a.len()
        invariant
            i <= a.len(),
            a.len() == b.len(),
            forall|k: int| 0 <= k < i ==> a@[k] == b@[k],
        decreases a.len() - i,
    {
        if a[i] != b[i] {
            assert(a@[i as int] != b@[i as int]);
            return false;
        }
        i += 1;
    }
    assert(a@ =~= b@);
    true
}

/// Whether two strings are the same text.
pub fn same_text(a: &str, b: &str) -> (r: bool)
    ensures
        r == (a@ == b@),
{
    let x = chars_of(a);
    let y = chars_of(b);
    same_chars(&x, &y)
}

/// The characters at positions `from..to`.
pub fn slice_chars(chars: &[char], from: usize, to: usize) -> (r: Vec<char>)
    requires
        from <= to <= chars@.len(),
    ensures
        r@ == chars@.subrange(from as int, to as int),
{
    let mut out: Vec<char> = Vec::new();
    let mut i: usize = from;
    while i < to
        invariant
            from <= i <= to <= chars@.len(),
            out@ == chars@.subrange(from as int, i as int),
        decreases to - i,
    {
        out.push(chars[i]);
        i += 1;
        assert(chars@.subrange(from as int, i as int) =~= chars@.subrange(
            from as int,
            i - 1,
        ).push(chars@[i - 1]));
    }
    out
}

// ---- white space ----

/// The characters with the Unicode property `White_Space`.
pub open spec fn white(c: char) -> bool {
    let u = c as u32;
    ||| 0x09 <= u <= 0x0d
    ||| u == 0x20
    ||| u == 0x85
    ||| u == 0xa0
    ||| u == 0x1680
    ||| 0x2000 <= u <= 0x200a
    ||| u == 0x2028
    ||| u == 0x2029
    ||| u == 0x202f
    ||| u == 0x205f
    ||| u == 0x3000
}

/// Whether `c` is white space (Unicode `White_Space`).
pub fn is_white(c: char) -> (r: bool)
    ensures
        r == white(c),
{
    let u: u32 = c as u32;
    (0x09 <= u && u <= 0x0d) || u == 0x20 || u == 0x85 || u == 0xa0 || u == 0x1680 || (0x2000 <= u
        && u <= 0x200a) || u == 0x2028 || u == 0x2029 || u == 0x202f || u == 0x205f || u == 0x3000
}

/// Whether every character of `s` is an ASCII one.
pub open spec fn is_ascii(s: Seq<char>) -> bool {
    forall|i: int| 0 <= i < s.len() ==> (#[trigger] s[i] as int) < 0x80
}

/// `s` without its leading white space.
pub open spec fn trimmed_start(s: Seq<char>) -> Seq<char>
    decreases s.len(),
{
    if s.len() > 0 && white(s[0]) {
        trimmed_start(s.skip(1))
    } else {
        s
    }
}

/// `s` without its trailing white space.
pub open spec fn trimmed_end(s: Seq<char>) -> Seq<char>
    decreases s.len(),
{
    if s.len() > 0 && white(s.last()) {
        trimmed_end(s.drop_last())
    } else {
        s
    }
}

/// `s` without its leading and trailing white space.
pub open spec fn trimmed(s: Seq<char>) -> Seq<char> {
    trimmed_end(trimmed_start(s))
}

/// Drops leading white space.
pub fn trim_start(chars: &[char]) -> (r: Vec<char>)
    ensures
        r@ == trimmed_start(chars@),
{
    let mut i: usize = 0;
    assert(chars@.skip(0) =~= chars@);
    while i < chars.len() && is_white(chars[i])
        invariant
            i <= chars.len(),
            trimmed_start(chars@) == trimmed_start(chars@.skip(i as int)),
        decreases chars.len() - i,
    {
        assert(chars@.skip(i as int).skip(1) =~= chars@.skip(i + 1));
        i += 1;
    }
    let out = slice_chars(chars, i, chars.len());
    assert(out@ =~= chars@.skip(i as int));
    out
}

/// Drops trailing white space.
pub fn trim_end(chars: &[char]) -> (r: Vec<char>)
    ensures
        r@ == trimmed_end(chars@),
{
    let mut n: usize = chars.len();
    assert(chars@.take(n as int) =~= chars@);
    while n > 0 && is_white(chars[n - 1])
        invariant
            n <= chars.len(),
            trimmed_end(chars@) == trimmed_end(chars@.take(n as int)),
        decreases n,
    {
        assert(chars@.take(n as int).drop_last() =~= chars@.take(n - 1));
        n -= 1;
    }
    let out = slice_chars(chars, 0, n);
    assert(out@ =~= chars@.take(n as int));
    out
}

/// Drops white space on both sides.
pub fn trim(chars: &[char]) -> (r: Vec<char>)
    ensures
        r@ == trimmed(chars@),
{
    let front = trim_start(chars);
    trim_end(&front)
}

/// White space stripped from both sides of a text leaves no white space at its ends.
pub proof fn lemma_trimmed_ends(s: Seq<char>)
    ensures
        trimmed(s).len() > 0 ==> !white(trimmed(s)[0]) && !white(trimmed(s).last()),
{
    lemma_trimmed_start_head(s);
    lemma_trimmed_end_tail(trimmed_start(s));
}

proof fn lemma_trimmed_start_head(s: Seq<char>)
    ensures
        trimmed_start(s).len() > 0 ==> !white(trimmed_start(s)[0]),
    decreases s.len(),
{
    if s.len() > 0 && white(s[0]) {
        lemma_trimmed_start_head(s.skip(1));
    }
}

proof fn lemma_trimmed_end_tail(s: Seq<char>)
    ensures
        trimmed_end(s).len() > 0 ==> !white(trimmed_end(s).last()),
        trimmed_end(s).len() <= s.len(),
        trimmed_end(s) == s.take(trimmed_end(s).len() as int),
    decreases s.len(),
{
    if s.len() > 0 && white(s.last()) {
        lemma_trimmed_end_tail(s.drop_last());
        assert(s.take(trimmed_end(s).len() as int) =~= s.drop_last().take(
            trimmed_end(s).len() as int,
        ));
    } else {
        assert(s.take(s.len() as int) =~= s);
    }
}

/// A first character that is no white space stays when the end is trimmed.
pub proof fn lemma_trimmed_end_first(s: Seq<char>)
    requires
        s.len() > 0,
        !white(s[0]),
    ensures
        trimmed_end(s).len() > 0,
        trimmed_end(s)[0] == s[0],
    decreases s.len(),
{
    if white(s.last()) {
        lemma_trimmed_end_first(s.drop_last());
    }
}

/// A text without white space at its ends is its own trimmed form.
pub proof fn lemma_trimmed_id(s: Seq<char>)
    requires
        s.len() > 0 ==> !white(s[0]) && !white(s.last()),
    ensures
        trimmed(s) == s,
{
}

// ---- decimal numbers ----

/// The digit character for `d`.
pub open spec fn digit_char(d: nat) -> char {
    (48 + d) as char
}

/// The shortest decimal notation of `n`.
pub open spec fn decimal(n: nat) -> Seq<char>
    decreases n,
{
    if n < 10 {
        seq![digit_char(n)]
    } else {
        decimal(n / 10).push(digit_char(n % 10))
    }
}

/// Whether `c` is one of the ten ASCII digits.
pub open spec fn is_digit(c: char) -> bool {
    '0' <= c <= '9'
}

/// The value that a row of ASCII digits denotes.
pub open spec fn digits_value(s: Seq<char>) -> nat
    decreases s.len(),
{
    if s.len() == 0 {
        0
    } else {
        digits_value(s.drop_last()) * 10 + ((s.last() as nat - 48) as nat)
    }
}

/// The digits of an unsigned number: the text without one leading `+`.
pub open spec fn unsigned_digits(s: Seq<char>) -> Seq<char> {
    if s.len() > 0 && s[0] == '+' {
        s.skip(1)
    } else {
        s
    }
}

/// What an unsigned number up to `max` reads as: an optional `+`, then one or more digits.
/// `None` for any other text, and for a value above `max`.
pub open spec fn parsed_unsigned(s: Seq<char>, max: nat) -> Option<nat> {
    let d = unsigned_digits(s);
    if d.len() > 0 && (forall|i: int| 0 <= i < d.len() ==> is_digit(#[trigger] d[i]))
        && digits_value(d) <= max {
        Some(digits_value(d))
    } else {
        None
    }
}

fn digit_of(d: u64) -> (r: char)
    requires
        d < 10,
    ensures
        r == digit_char(d as nat),
{
    (48u8 + d as u8) as char
}

fn digits_rev(n: u64) -> (r: Vec<char>)
    ensures
        r@.reverse() == decimal(n as nat),
    decreases n,
{
    let mut out: Vec<char> = Vec::new();
    let mut left: u64 = n;
    let ghost mut tail: Seq<char> = Seq::empty();
    assert(decimal(n as nat) + tail =~= decimal(n as nat));
    while left >= 10
        invariant
            out@.reverse() == tail,
            decimal(left as nat) + tail == decimal(n as nat),
        decreases left,
    {
        let c = digit_of(left % 10);
        proof {
            let before = tail;
            tail = seq![c] + tail;
            assert(decimal((left / 10) as nat) + tail =~= decimal(left as nat) + before);
            assert(out@.push(c).reverse() =~= tail);
        }
        out.push(c);
        left = left / 10;
    }
    let c = digit_of(left);
    proof {
        assert(out@.push(c).reverse() =~= seq![c] + tail);
    }
    out.push(c);
    out
}

/// Appends the decimal notation of `n`.
pub fn push_decimal(out: &mut String, n: u64)
    ensures
        final(out)@ == old(out)@ + decimal(n as nat),
{
    let digits = digits_rev(n);
    let mut i: usize = digits.len();
    let ghost start = out@;
    assert(start + digits@.reverse().take(0) =~= start);
    while i > 0
        invariant
            i <= digits.len(),
            out@ == start + digits@.reverse().take(digits.len() - i),
        decreases i,
    {
        i -= 1;
        out.push(digits[i]);
        proof {
            let k = digits.len() - i;
            assert(digits@.reverse().take(k) =~= digits@.reverse().take(k - 1).push(digits@[i as int]));
            assert(start + digits@.reverse().take(k) =~= (start + digits@.reverse().take(
                k - 1,
            )).push(digits@[i as int]));
        }
    }
    assert(digits@.reverse().take(digits.len() as int) =~= digits@.reverse());
}

/// Appends the decimal notation of `n`.
pub fn push_wide(out: &mut String, n: u128)
    ensures
        final(out)@ == old(out)@ + decimal(n as nat),
    decreases n,
{
    if n <= u64::MAX as u128 {
        push_decimal(out, n as u64);
    } else {
        push_wide(out, n / 10);
        out.push(digit_of((n % 10) as u64));
        assert(out@ =~= old(out)@ + decimal(n as nat));
    }
}

/// The decimal notation of `n`.
pub fn decimal_text(n: u64) -> (r: String)
    ensures
        r@ == decimal(n as nat),
{
    let mut out = String::new();
    push_decimal(&mut out, n);
    assert(out@ =~= decimal(n as nat));
    out
}

proof fn lemma_digits_value_grows(s: Seq<char>, i: int)
    requires
        0 <= i <= s.len(),
    ensures
        digits_value(s.take(i)) <= digits_value(s),
    decreases s.len() - i,
{
    if i < s.len() {
        lemma_digits_value_grows(s, i + 1);
        assert(s.take(i + 1).drop_last() =~= s.take(i));
    } else {
        assert(s.take(i) =~= s);
    }
}

/// Reads an unsigned number up to `max`: an optional `+`, then one or more digits.
pub fn parse_unsigned(s: &[char], max: u64) -> (r: Option<u64>)
    ensures
        r is Some == parsed_unsigned(s@, max as nat) is Some,
        r matches Some(v) ==> parsed_unsigned(s@, max as nat) == Some(v as nat),
{
    let start: usize = if s.len() > 0 && s[0] == '+' { 1 } else { 0 };
    let ghost d = unsigned_digits(s@);
    proof {
        assert(d =~= s@.skip(start as int));
    }
    if start == s.len() {
        return None;
    }
    let mut i: usize = start;
    let mut value: u64 = 0;
    assert(d.take(0) =~= Seq::<char>::empty());
    while i < s.len()
        invariant
            start <= i <= s.len(),
            start < s.len(),
            d == s@.skip(start as int),
            d == unsigned_digits(s@),
            value == digits_value(d.take(i - start)),
            value <= max,
            forall|k: int| 0 <= k < i - start ==> is_digit(#[trigger] d[k]),
        decreases s.len() - i,
    {
        let c = s[i];
        let ghost k = i - start;
        assert(d[k] == c);
        if !('0' <= c && c <= '9') {
            assert(!is_digit(d[k]));
            return None;
        }
        let digit: u64 = (c as u32 - 48) as u64;
        proof {
            assert(d.take(k + 1).drop_last() =~= d.take(k));
            assert(d.take(k + 1).last() == c);
            lemma_digits_value_grows(d, k + 1);
        }
        let wide: u128 = value as u128 * 10 + digit as u128;
        if wide > max as u128 {
            return None;
        }
        value = wide as u64;
        i += 1;
    }
    assert(d.take(d.len() as int) =~= d);
    Some(value)
}

/// The decimal notation of a number of 64 bits is short.
pub proof fn lemma_decimal_short(n: nat)
    requires
        n <= u64::MAX,
    ensures
        decimal(n).len() <= 20,
{
    reveal_with_fuel(decimal, 21);
}

/// A decimal notation starts with a zero for zero only.
pub proof fn lemma_decimal_first(n: nat)
    requires
        n > 0,
    ensures
        decimal(n).len() > 0,
        decimal(n)[0] != '0',
    decreases n,
{
    if n >= 10 {
        lemma_decimal_first(n / 10);
        assert(decimal(n)[0] == decimal(n / 10)[0]);
    }
}

/// A decimal notation consists of digits, is not empty and starts with no zero unless it is `0`.
pub proof fn lemma_decimal_digits(n: nat)
    ensures
        decimal(n).len() > 0,
        forall|i: int| 0 <= i < decimal(n).len() ==> is_digit(#[trigger] decimal(n)[i]),
        digits_value(decimal(n)) == n,
    decreases n,
{
    if n >= 10 {
        lemma_decimal_digits(n / 10);
        let s = decimal(n);
        assert(s.drop_last() =~= decimal(n / 10));
        assert forall|i: int| 0 <= i < s.len() implies is_digit(#[trigger] s[i]) by {
            if i < s.len() - 1 {
                assert(s[i] == decimal(n / 10)[i]);
            }
        }
    } else {
        let s = decimal(n);
        assert(s.drop_last() =~= Seq::<char>::empty());
        assert(s.last() == digit_char(n));
        assert(digits_value(s.drop_last()) == 0);
    }
}

/// Reading back the decimal notation of a number gives the number.
pub proof fn lemma_decimal_round_trip(n: nat, max: nat)
    requires
        n <= max,
    ensures
        parsed_unsigned(decimal(n), max) == Some(n),
{
    lemma_decimal_digits(n);
    assert(is_digit(decimal(n)[0]));
    assert(unsigned_digits(decimal(n)) == decimal(n));
}

// ---- letters ----

/// The lower-case form of an ASCII letter; other characters stay.
pub open spec fn lower(c: char) -> char {
    if 'A' <= c <= 'Z' {
        (c as u32 + 32) as char
    } else {
        c
    }
}

/// A text with its ASCII letters in lower case.
pub open spec fn lower_text(s: Seq<char>) -> Seq<char> {
    s.map_values(|c: char| lower(c))
}

/// The lower-case form of an ASCII letter; other characters stay.
pub fn to_lower(c: char) -> (r: char)
    ensures
        r == lower(c),
{
    if 'A' <= c && c <= 'Z' {
        ((c as u32 + 32) as u8) as char
    } else {
        c
    }
}

/// A text with its ASCII letters in lower case.
pub fn lower_chars(chars: &[char]) -> (r: Vec<char>)
    ensures
        r@ == lower_text(chars@),
{
    let mut out: Vec<char> = Vec::new();
    let mut i: usize = 0;
    while i < chars.len()
        invariant
            i <= chars@.len(),
            out@.len() == i,
            forall|k: int| 0 <= k < i ==> out@[k] == lower(chars@[k]),
        decreases chars@.len() - i,
    {
        out.push(to_lower(chars[i]));
        i += 1;
    }
    assert(out@ =~= lower_text(chars@));
    out
}

// ---- hexadecimal ----

/// The lower-case hexadecimal digit for `d`.
pub open spec fn hex_digit(d: nat) -> char {
    if d < 10 {
        (48 + d) as char
    } else {
        (87 + d) as char
    }
}

/// A byte as two hexadecimal digits.
pub open spec fn hex_byte(b: u8) -> Seq<char> {
    seq![hex_digit((b / 16) as nat), hex_digit((b % 16) as nat)]
}

fn hex_char(d: u8) -> (r: char)
    requires
        d < 16,
    ensures
        r == hex_digit(d as nat),
{
    if d < 10 {
        (48 + d) as char
    } else {
        (87 + d) as char
    }
}

/// Appends a byte as two hexadecimal digits.
pub fn push_hex(out: &mut String, b: u8)
    ensures
        final(out)@ == old(out)@ + hex_byte(b),
{
    let ghost before = out@;
    out.push(hex_char(b / 16));
    out.push(hex_char(b % 16));
    assert(out@ =~= before + hex_byte(b));
}

/// The value of a hexadecimal digit in either case.
pub open spec fn hex_value(c: u8) -> Option<nat> {
    if 48 <= c <= 57 {
        Some((c - 48) as nat)
    } else if 97 <= c <= 102 {
        Some((c - 87) as nat)
    } else if 65 <= c <= 70 {
        Some((c - 55) as nat)
    } else {
        None
    }
}

/// The value of a hexadecimal digit in either case.
pub fn hex_digit_value(c: u8) -> (r: Option<u8>)
    ensures
        match hex_value(c) {
            Some(v) => (r matches Some(x) && x == v) && v < 16,
            None => r is None,
        },
{
    if 48 <= c && c <= 57 {
        Some(c - 48)
    } else if 97 <= c && c <= 102 {
        Some(c - 87)
    } else if 65 <= c && c <= 70 {
        Some(c - 55)
    } else {
        None
    }
}

// ---- searching ----

/// Where `c` first stands in `s` from `i` on.
pub open spec fn find_from(s: Seq<char>, c: char, i: int) -> Option<int>
    decreases s.len() - i,
{
    if !(0 <= i < s.len()) {
        None
    } else if s[i] == c {
        Some(i)
    } else {
        find_from(s, c, i + 1)
    }
}

/// A character that is not found from `i` on does not stand there.
pub proof fn lemma_not_found(s: Seq<char>, c: char, i: int)
    requires
        0 <= i,
        find_from(s, c, i) is None,
    ensures
        forall|k: int| i <= k < s.len() ==> #[trigger] s[k] != c,
    decreases s.len() - i,
{
    if i < s.len() {
        lemma_not_found(s, c, i + 1);
    }
}

/// A character that stands at `at` and not before is found there.
pub proof fn lemma_found(s: Seq<char>, c: char, i: int, at: int)
    requires
        0 <= i <= at < s.len(),
        s[at] == c,
        forall|k: int| i <= k < at ==> #[trigger] s[k] != c,
    ensures
        find_from(s, c, i) == Some(at),
    decreases at - i,
{
    if i < at {
        lemma_found(s, c, i + 1, at);
    }
}

/// A character stands where it is found.
pub proof fn lemma_found_there(s: Seq<char>, c: char, i: int)
    requires
        0 <= i,
    ensures
        find_from(s, c, i) matches Some(at) ==> i <= at < s.len() && s[at] == c,
    decreases s.len() - i,
{
    if i < s.len() && s[i] != c {
        lemma_found_there(s, c, i + 1);
    }
}

/// Finds a character.
pub fn find_char(s: &[char], c: char) -> (r: Option<usize>)
    ensures
        match find_from(s@, c, 0) {
            Some(i) => (r matches Some(k) && k == i) && 0 <= i < s@.len() && s@[i] == c,
            None => r is None,
        },
{
    let mut i: usize = 0;
    while i < s.len()
        invariant
            i <= s@.len(),
            find_from(s@, c, 0) == find_from(s@, c, i as int),
        decreases s@.len() - i,
    {
        if s[i] == c {
            return Some(i);
        }
        i += 1;
    }
    None
}

// ---- decimal fractions ----

/// The first position from `p` on that holds no digit.
pub open spec fn digits_end(s: Seq<char>, p: int) -> int
    decreases s.len() - p,
{
    if 0 <= p < s.len() && is_digit(s[p]) {
        digits_end(s, p + 1)
    } else {
        p
    }
}

/// Whether the rest of a number from `p` on is nothing or an exponent.
pub open spec fn exponent_or_end(s: Seq<char>, p: int) -> bool {
    if p == s.len() {
        true
    } else if s[p] == 'e' || s[p] == 'E' {
        let q = if p + 1 < s.len() && (s[p + 1] == '+' || s[p + 1] == '-') {
            p + 2
        } else {
            p + 1
        };
        q < s.len() && digits_end(s, q) == s.len()
    } else {
        false
    }
}

/// Whether `s` is an unsigned decimal number: digits with at most one point among or around them,
/// and perhaps an exponent.
pub open spec fn is_number(s: Seq<char>) -> bool {
    let i = digits_end(s, 0);
    if i < s.len() && s[i] == '.' {
        let j = digits_end(s, i + 1);
        (i > 0 || j > i + 1) && exponent_or_end(s, j)
    } else {
        i > 0 && exponent_or_end(s, i)
    }
}

/// Whether `s` denotes a floating-point number: an optional sign, then a decimal number, `inf`,
/// `infinity` or `nan` in any case.
pub open spec fn is_float(s: Seq<char>) -> bool {
    let b = if s.len() > 0 && (s[0] == '+' || s[0] == '-') {
        s.skip(1)
    } else {
        s
    };
    ||| is_number(b)
    ||| lower_text(b) == "inf"@
    ||| lower_text(b) == "infinity"@
    ||| lower_text(b) == "nan"@
}

/// The first position from `p` on that holds no digit.
pub fn run_of_digits(s: &[char], p: usize) -> (r: usize)
    requires
        p <= s@.len(),
    ensures
        r == digits_end(s@, p as int),
        p <= r <= s@.len(),
{
    let mut i: usize = p;
    while i < s.len() && '0' <= s[i] && s[i] <= '9'
        invariant
            p <= i <= s@.len(),
            digits_end(s@, p as int) == digits_end(s@, i as int),
        decreases s@.len() - i,
    {
        i += 1;
    }
    i
}

/// Whether the rest of a number from `p` on is nothing or an exponent.
pub fn exponent_at(s: &[char], p: usize) -> (r: bool)
    requires
        p <= s@.len(),
    ensures
        r == exponent_or_end(s@, p as int),
{
    if p == s.len() {
        return true;
    }
    if s[p] == 'e' || s[p] == 'E' {
        let mut q: usize = p + 1;
        if q < s.len() && (s[q] == '+' || s[q] == '-') {
            q += 1;
        }
        if q < s.len() {
            return run_of_digits(s, q) == s.len();
        }
    }
    false
}

/// Whether a text denotes a floating-point number.
pub fn is_float_text(s: &[char]) -> (r: bool)
    ensures
        r == is_float(s@),
{
    let b = if s.len() > 0 && (s[0] == '+' || s[0] == '-') {
        slice_chars(s, 1, s.len())
    } else {
        slice_chars(s, 0, s.len())
    };
    proof {
        if s@.len() > 0 && (s@[0] == '+' || s@[0] == '-') {
            assert(b@ =~= s@.skip(1));
        } else {
            assert(b@ =~= s@);
        }
    }
    let i = run_of_digits(&b, 0);
    let number = if i < b.len() && b[i] == '.' {
        let j = run_of_digits(&b, i + 1);
        (i > 0 || j > i + 1) && exponent_at(&b, j)
    } else {
        i > 0 && exponent_at(&b, i)
    };
    if number {
        return true;
    }
    let low = lower_chars(&b);
    let word = string_of(&low);
    same_text(word.as_str(), "inf") || same_text(word.as_str(), "infinity") || same_text(
        word.as_str(),
        "nan",
    )
}

// ---- prefixes, pieces and words ----

/// Whether the text begins with `p`.
pub open spec fn starts_with(s: Seq<char>, p: Seq<char>) -> bool {
    s.len() >= p.len() && s.take(p.len() as int) == p
}

/// Whether the text ends in `p`.
pub open spec fn ends_with(s: Seq<char>, p: Seq<char>) -> bool {
    s.len() >= p.len() && s.skip(s.len() - p.len()) == p
}

/// What follows a prefix.
pub open spec fn after_prefix(s: Seq<char>, p: Seq<char>) -> Option<Seq<char>> {
    if starts_with(s, p) {
        Some(s.skip(p.len() as int))
    } else {
        None
    }
}

/// Whether the text begins with `p`.
pub fn has_prefix(s: &[char], p: &str) -> (r: bool)
    ensures
        r == starts_with(s@, p@),
{
    let p = chars_of(p);
    if s.len() < p.len() {
        return false;
    }
    let head = slice_chars(s, 0, p.len());
    assert(head@ =~= s@.take(p@.len() as int));
    same_chars(&head, &p)
}

/// Whether the text ends in `p`.
pub fn has_suffix(s: &[char], p: &str) -> (r: bool)
    ensures
        r == ends_with(s@, p@),
{
    let p = chars_of(p);
    if s.len() < p.len() {
        return false;
    }
    let tail = slice_chars(s, s.len() - p.len(), s.len());
    assert(tail@ =~= s@.skip(s@.len() - p@.len()));
    same_chars(&tail, &p)
}

/// What follows a prefix.
pub fn strip_prefix(s: &[char], p: &str) -> (r: Option<Vec<char>>)
    ensures
        match after_prefix(s@, p@) {
            Some(t) => r matches Some(x) && x@ == t,
            None => r is None,
        },
{
    if !has_prefix(s, p) {
        return None;
    }
    let n = chars_of(p).len();
    let rest = slice_chars(s, n, s.len());
    assert(rest@ =~= s@.skip(p@.len() as int));
    Some(rest)
}

/// The texts of a list.
pub open spec fn char_lists(v: Seq<Vec<char>>) -> Seq<Seq<char>> {
    v.map_values(|x: Vec<char>| x@)
}

/// The pieces between the separators.
pub open spec fn pieces(s: Seq<char>, sep: char) -> Seq<Seq<char>>
    decreases s.len(),
{
    match find_from(s, sep, 0) {
        Some(i) => if 0 <= i < s.len() {
            seq![s.take(i)] + pieces(s.skip(i + 1), sep)
        } else {
            seq![s]
        },
        None => seq![s],
    }
}

/// The pieces between the separators.
pub fn split_on(s: &[char], sep: char) -> (r: Vec<Vec<char>>)
    ensures
        char_lists(r@) == pieces(s@, sep),
{
    let mut out: Vec<Vec<char>> = Vec::new();
    let mut rest = slice_chars(s, 0, s.len());
    assert(rest@ =~= s@);
    assert(char_lists(out@) + pieces(rest@, sep) =~= pieces(s@, sep));
    let mut more = true;
    while more
        invariant
            more ==> char_lists(out@) + pieces(rest@, sep) == pieces(s@, sep),
            !more ==> char_lists(out@) == pieces(s@, sep),
        decreases rest@.len(), if more { 1int } else { 0int },
    {
        let ghost done = out@;
        let ghost here = rest@;
        match find_char(&rest, sep) {
            Some(i) => {
                let one = slice_chars(&rest, 0, i);
                assert(one@ =~= here.take(i as int));
                let tail = slice_chars(&rest, i + 1, rest.len());
                assert(tail@ =~= here.skip(i + 1));
                out.push(one);
                rest = tail;
                assert(char_lists(out@) =~= char_lists(done).push(one@));
                assert(char_lists(out@) + pieces(rest@, sep) =~= char_lists(done) + pieces(here, sep));
            },
            None => {
                let one = slice_chars(&rest, 0, rest.len());
                assert(one@ =~= here);
                out.push(one);
                more = false;
                assert(char_lists(out@) =~= char_lists(done) + pieces(here, sep));
            },
        }
    }
    out
}

/// Where the word that begins at or before `i` ends.
pub open spec fn word_end(s: Seq<char>, i: int) -> int
    decreases s.len() - i,
{
    if 0 <= i < s.len() && !white(s[i]) {
        word_end(s, i + 1)
    } else {
        i
    }
}

/// The first word of a text.
pub open spec fn first_word(s: Seq<char>) -> Option<Seq<char>> {
    let t = trimmed_start(s);
    if t.len() == 0 {
        None
    } else {
        Some(t.take(word_end(t, 0)))
    }
}

/// The first word of a text.
pub fn word_of(s: &[char]) -> (r: Option<Vec<char>>)
    ensures
        match first_word(s@) {
            Some(w) => r matches Some(x) && x@ == w,
            None => r is None,
        },
{
    let t = trim_start(s);
    if t.len() == 0 {
        return None;
    }
    let mut i: usize = 0;
    while i < t.len() && !is_white(t[i])
        invariant
            i <= t@.len(),
            word_end(t@, 0) == word_end(t@, i as int),
        decreases t@.len() - i,
    {
        i += 1;
    }
    let w = slice_chars(&t, 0, i);
    assert(w@ =~= t@.take(i as int));
    Some(w)
}

/// Whether `p` stands in the text at `i`.
pub open spec fn stands_at(s: Seq<char>, p: Seq<char>, i: int) -> bool {
    0 <= i && i + p.len() <= s.len() && s.subrange(i, i + p.len()) == p
}

/// Whether `p` stands somewhere in the text.
pub open spec fn holds(s: Seq<char>, p: Seq<char>) -> bool {
    exists|i: int| #[trigger] stands_at(s, p, i)
}

/// Where `p` first stands in the text.
pub fn find_text(s: &[char], p: &str) -> (r: Option<usize>)
    ensures
        match r {
            Some(i) => stands_at(s@, p@, i as int) && forall|k: int|
                0 <= k < i ==> !#[trigger] stands_at(s@, p@, k),
            None => !holds(s@, p@),
        },
{
    let n = chars_of(p).len();
    if n > s.len() {
        assert forall|k: int| !#[trigger] stands_at(s@, p@, k) by {}
        return None;
    }
    let len = s.len();
    let last = len - n;
    let mut i: usize = 0;
    let mut more = true;
    while more
        invariant
            n == p@.len(),
            len == s@.len(),
            last == s@.len() - n,
            more ==> i <= last,
            !more ==> i >= last,
            forall|k: int| 0 <= k < i ==> !#[trigger] stands_at(s@, p@, k),
            !more ==> forall|k: int| 0 <= k <= last ==> !#[trigger] stands_at(s@, p@, k),
        decreases last - i, if more { 1int } else { 0int },
    {
        assert(i + n <= len);
        let piece = slice_chars(s, i, i + n);
        if same_text(string_of(&piece).as_str(), p) {
            assert(stands_at(s@, p@, i as int));
            return Some(i);
        }
        assert(!stands_at(s@, p@, i as int));
        if i == last {
            more = false;
        } else {
            i += 1;
        }
    }
    None
}

/// Whether `p` stands somewhere in the text.
pub fn has(s: &[char], p: &str) -> (r: bool)
    ensures
        r == holds(s@, p@),
{
    find_text(s, p).is_some()
}

/// The first place from `i` on where `p` stands.
pub open spec fn first_place(s: Seq<char>, p: Seq<char>, i: int) -> Option<int>
    decreases s.len() + 1 - i,
{
    if i < 0 || i > s.len() {
        None
    } else if stands_at(s, p, i) {
        Some(i)
    } else {
        first_place(s, p, i + 1)
    }
}

/// The place before which `p` does not stand is the first.
pub proof fn lemma_first_place(s: Seq<char>, p: Seq<char>, at: int, i: int)
    requires
        0 <= i <= at,
        stands_at(s, p, at),
        forall|k: int| 0 <= k < at ==> !#[trigger] stands_at(s, p, k),
    ensures
        first_place(s, p, i) == Some(at),
    decreases at - i,
{
    if i < at {
        lemma_first_place(s, p, at, i + 1);
    }
}

/// There is no first place where there is none.
pub proof fn lemma_no_place(s: Seq<char>, p: Seq<char>, i: int)
    requires
        !holds(s, p),
    ensures
        first_place(s, p, i) is None,
    decreases s.len() + 1 - i,
{
    if 0 <= i <= s.len() {
        assert(!stands_at(s, p, i));
        lemma_no_place(s, p, i + 1);
    }
}

// ---- order ----

/// Whether `a` comes before `b` in the dictionary of code points.
pub open spec fn text_less(a: Seq<char>, b: Seq<char>) -> bool
    decreases a.len(),
{
    if b.len() == 0 {
        false
    } else if a.len() == 0 {
        true
    } else {
        (a[0] as u32) < (b[0] as u32) || (a[0] == b[0] && text_less(a.skip(1), b.skip(1)))
    }
}

/// Whether `a` comes before `b` in the dictionary of code points.
pub fn less_text(a: &str, b: &str) -> (r: bool)
    ensures
        r == text_less(a@, b@),
{
    let x = chars_of(a);
    let y = chars_of(b);
    let mut i: usize = 0;
    assert(x@.skip(0) =~= x@);
    assert(y@.skip(0) =~= y@);
    while i < x.len() && i < y.len() && x[i] == y[i]
        invariant
            i <= x@.len(),
            i <= y@.len(),
            x@ == a@,
            y@ == b@,
            text_less(x@, y@) == text_less(x@.skip(i as int), y@.skip(i as int)),
        decreases x@.len() - i,
    {
        assert(x@.skip(i as int).skip(1) =~= x@.skip(i + 1));
        assert(y@.skip(i as int).skip(1) =~= y@.skip(i + 1));
        assert(x@.skip(i as int)[0] == x@[i as int]);
        assert(y@.skip(i as int)[0] == y@[i as int]);
        i += 1;
    }
    if i == y.len() {
        false
    } else if i == x.len() {
        true
    } else {
        assert(x@.skip(i as int)[0] == x@[i as int]);
        assert(y@.skip(i as int)[0] == y@[i as int]);
        (x[i] as u32) < (y[i] as u32)
    }
}

/// The order of texts is transitive.
pub proof fn lemma_less_trans(a: Seq<char>, b: Seq<char>, c: Seq<char>)
    requires
        text_less(a, b),
        text_less(b, c),
    ensures
        text_less(a, c),
    decreases a.len(),
{
    if a.len() > 0 && a[0] == b[0] && b[0] == c[0] {
        lemma_less_trans(a.skip(1), b.skip(1), c.skip(1));
    }
}

/// No text comes before itself.
pub proof fn lemma_less_irreflexive(a: Seq<char>)
    ensures
        !text_less(a, a),
    decreases a.len(),
{
    if a.len() > 0 {
        lemma_less_irreflexive(a.skip(1));
    }
}

// ---- what digits mean ----

/// A row of digits is worth ten times what it is worth without the last one, and the last one.
pub proof fn law_digits_value(s: Seq<char>, c: char)
    requires
        '0' <= c <= '9',
    ensures
        digits_value(Seq::empty()) == 0,
        digits_value(s.push(c)) == 10 * digits_value(s) + (c as int - '0' as int),
{
    assert(s.push(c).drop_last() =~= s);
}

/// Whether a text holds nothing but the ten digits.
pub open spec fn all_digits(s: Seq<char>) -> bool {
    forall|i: int| 0 <= i < s.len() ==> '0' <= #[trigger] s[i] && s[i] <= '9'
}

/// A number is read from digits, with or without a plus sign, and from nothing else, as what the
/// digits are worth; one that is too large is not read.
pub proof fn law_unsigned_is_read(s: Seq<char>, max: nat)
    ensures
        ({
            let d = if s.len() > 0 && s[0] == '+' {
                s.skip(1)
            } else {
                s
            };
            &&& parsed_unsigned(s, max) is Some <==> d.len() > 0 && all_digits(d) && digits_value(d)
                <= max
            &&& parsed_unsigned(s, max) matches Some(n) ==> n == digits_value(d)
        }),
{
    let d = unsigned_digits(s);
    if all_digits(d) {
        assert forall|i: int| 0 <= i < d.len() implies is_digit(#[trigger] d[i]) by {}
    }
}

/// The digits of a number are worth the number, and begin with no zero that could be left out.
pub proof fn law_decimal_is_the_number(n: nat)
    ensures
        digits_value(decimal(n)) == n,
        decimal(n).len() > 0,
        n > 0 ==> decimal(n)[0] != '0',
{
    lemma_decimal_round_trip(n, n);
    lemma_decimal_digits(n);
    if n > 0 {
        lemma_decimal_first(n);
    }
}

// ---- laws of pieces, white space and order ----

/// The pieces with a separator between each two of them.
pub open spec fn joined(ps: Seq<Seq<char>>, sep: char) -> Seq<char>
    decreases ps.len(),
{
    if ps.len() == 0 {
        Seq::empty()
    } else if ps.len() == 1 {
        ps[0]
    } else {
        ps[0] + seq![sep] + joined(ps.skip(1), sep)
    }
}

/// The pieces of a text joined again are the text, and no separator stands in any of them.
pub proof fn law_pieces_join(s: Seq<char>, sep: char)
    ensures
        pieces(s, sep).len() > 0,
        joined(pieces(s, sep), sep) == s,
        forall|i: int|
            0 <= i < pieces(s, sep).len() ==> !(#[trigger] pieces(s, sep)[i]).contains(sep),
    decreases s.len(),
{
    let ps = pieces(s, sep);
    lemma_found_there(s, sep, 0);
    match find_from(s, sep, 0) {
        Some(at) => {
            let rest = s.skip(at + 1);
            law_pieces_join(rest, sep);
            assert(ps =~= seq![s.take(at)] + pieces(rest, sep));
            assert(ps.skip(1) =~= pieces(rest, sep));
            assert(s.take(at) + seq![sep] + rest =~= s);
            lemma_found_first(s, sep, 0);
            assert(!s.take(at).contains(sep));
            assert forall|i: int| 0 <= i < ps.len() implies !(#[trigger] ps[i]).contains(sep) by {
                if i > 0 {
                    assert(ps[i] == pieces(rest, sep)[i - 1]);
                }
            }
        },
        None => {
            lemma_not_found(s, sep, 0);
            assert(ps =~= seq![s]);
        },
    }
}

/// A character does not stand before the place where it is found.
pub proof fn lemma_found_first(s: Seq<char>, c: char, i: int)
    requires
        0 <= i,
    ensures
        find_from(s, c, i) matches Some(at) ==> forall|k: int| i <= k < at ==> #[trigger] s[k] != c,
    decreases s.len() - i,
{
    if i < s.len() && s[i] != c {
        lemma_found_first(s, c, i + 1);
    }
}

/// Whether a text is white space throughout.
pub open spec fn all_white(s: Seq<char>) -> bool {
    forall|i: int| 0 <= i < s.len() ==> white(#[trigger] s[i])
}

/// White space at either end does not matter: the text between is kept.
pub proof fn law_white_space_is_dropped(a: Seq<char>, s: Seq<char>, b: Seq<char>)
    requires
        all_white(a),
        all_white(b),
        s.len() > 0,
        !white(s[0]),
        !white(s.last()),
    ensures
        trimmed(a + s + b) == s,
        trimmed_start(a + s + b) == s + b,
{
    lemma_white_front(a, s + b);
    lemma_white_back(s, b);
    assert(a + s + b =~= a + (s + b));
}

proof fn lemma_white_front(a: Seq<char>, s: Seq<char>)
    requires
        all_white(a),
        s.len() > 0,
        !white(s[0]),
    ensures
        trimmed_start(a + s) == s,
    decreases a.len(),
{
    let t = a + s;
    if a.len() == 0 {
        assert(t =~= s);
    } else {
        assert(t[0] == a[0]);
        assert(t.skip(1) =~= a.skip(1) + s);
        assert forall|i: int| 0 <= i < a.skip(1).len() implies white(#[trigger] a.skip(1)[i]) by {
            assert(a.skip(1)[i] == a[i + 1]);
        }
        lemma_white_front(a.skip(1), s);
    }
}

proof fn lemma_white_back(s: Seq<char>, b: Seq<char>)
    requires
        all_white(b),
        s.len() > 0,
        !white(s.last()),
    ensures
        trimmed_end(s + b) == s,
    decreases b.len(),
{
    let t = s + b;
    if b.len() == 0 {
        assert(t =~= s);
    } else {
        assert(t.last() == b.last());
        assert(t.drop_last() =~= s + b.drop_last());
        assert forall|i: int| 0 <= i < b.drop_last().len() implies white(
            #[trigger] b.drop_last()[i],
        ) by {
            assert(b.drop_last()[i] == b[i]);
        }
        lemma_white_back(s, b.drop_last());
    }
}

/// Nothing is left of white space.
pub proof fn law_only_white_space(s: Seq<char>)
    requires
        all_white(s),
    ensures
        trimmed(s).len() == 0,
    decreases s.len(),
{
    if s.len() > 0 {
        assert(white(s[0]));
        assert forall|i: int| 0 <= i < s.skip(1).len() implies white(#[trigger] s.skip(1)[i]) by {
            assert(s.skip(1)[i] == s[i + 1]);
        }
        law_only_white_space(s.skip(1));
    }
}

/// The first character in which two texts differ decides which comes first; a text comes before
/// what continues it.
pub proof fn law_first_difference_decides(p: Seq<char>, a: Seq<char>, b: Seq<char>)
    ensures
        text_less(p + a, p + b) == text_less(a, b),
        a.len() > 0 ==> text_less(p, p + a),
        a.len() > 0 && b.len() > 0 && a[0] != b[0] ==> text_less(p + a, p + b) == ((a[0] as u32) < (
        b[0] as u32)),
    decreases p.len(),
{
    if p.len() == 0 {
        assert(p + a =~= a);
        assert(p + b =~= b);
    } else {
        let q = p.skip(1);
        assert((p + a).skip(1) =~= q + a);
        assert((p + b).skip(1) =~= q + b);
        law_first_difference_decides(q, a, b);
    }
}

/// A capital letter becomes the small letter 32 places behind it; everything else stays.
pub proof fn law_small_letters(c: char)
    ensures
        'A' <= c <= 'Z' ==> lower(c) as int == c as int + 32 && 'a' <= lower(c) <= 'z',
        !('A' <= c <= 'Z') ==> lower(c) == c,
{
}

/// The two hexadecimal digits of a byte stand for it.
pub proof fn law_hexadecimal_byte(b: u8)
    ensures
        hex_byte(b).len() == 2,
        hex_value(hex_byte(b)[0] as u8) matches Some(h) && hex_value(hex_byte(b)[1] as u8) matches Some(
            l,
        ) && b == 16 * h + l,
{
}

/// The first word of a text stands between white space, or at its ends.
pub proof fn law_first_word(a: Seq<char>, w: Seq<char>, b: Seq<char>)
    requires
        all_white(a),
        w.len() > 0,
        forall|i: int| 0 <= i < w.len() ==> !white(#[trigger] w[i]),
        b.len() > 0 ==> white(b[0]),
    ensures
        first_word(a + w + b) == Some(w),
{
    let t = w + b;
    assert(a + w + b =~= a + t);
    assert(t[0] == w[0]);
    lemma_white_front(a, t);
    assert(t.take(w.len() as int) =~= w);
    lemma_word_end(t, w, 0);
}

proof fn lemma_word_end(t: Seq<char>, w: Seq<char>, i: int)
    requires
        0 <= i <= w.len() <= t.len(),
        t.take(w.len() as int) == w,
        forall|k: int| 0 <= k < w.len() ==> !white(#[trigger] w[k]),
        t.len() > w.len() ==> white(t[w.len() as int]),
    ensures
        word_end(t, i) == w.len(),
    decreases w.len() - i,
{
    if i < w.len() {
        assert(t.take(w.len() as int)[i] == t[i]);
        lemma_word_end(t, w, i + 1);
    }
}

} // verus!
