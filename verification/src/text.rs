//! Digits, numbers and small string helpers shared by the protocol modules.

use vstd::prelude::*;
use vstd::string::*;

verus! {

/// ASCII `0`.
pub const DIGIT_0: u8 = 0x30;

/// ASCII `1`.
pub const DIGIT_1: u8 = 0x31;

/// ASCII `4`.
pub const DIGIT_4: u8 = 0x34;

/// ASCII `9`.
pub const DIGIT_9: u8 = 0x39;

/// ASCII `A`.
pub const UPPER_A: u8 = 0x41;

/// ASCII `C`.
pub const UPPER_C: u8 = 0x43;

/// ASCII `F`.
pub const UPPER_F: u8 = 0x46;

/// ASCII `a`.
pub const LOWER_A: u8 = 0x61;

/// ASCII `f`.
pub const LOWER_F: u8 = 0x66;

/// ASCII `+`.
pub const PLUS: u8 = 0x2b;

/// ASCII space.
pub const SPACE: u8 = 0x20;

/// ASCII carriage return.
pub const CR: u8 = 0x0d;

/// ASCII line feed.
pub const LF: u8 = 0x0a;

/// ASCII `>`, the prompt of an ELM327.
pub const PROMPT: u8 = 0x3e;

// ---------------------------------------------------------------------------
// Hexadecimal digits
// ---------------------------------------------------------------------------

/// The byte is an ASCII hexadecimal digit of either case.
pub open spec fn is_hex_digit(b: u8) -> bool {
    (DIGIT_0 <= b && b <= DIGIT_9) || (LOWER_A <= b && b <= LOWER_F) || (UPPER_A <= b && b <= UPPER_F)
}

/// The value of an ASCII hexadecimal digit (0 for any other byte).
pub open spec fn hex_digit_value(b: u8) -> nat {
    if DIGIT_0 <= b && b <= DIGIT_9 {
        (b - DIGIT_0) as nat
    } else if LOWER_A <= b && b <= LOWER_F {
        (b - LOWER_A + 10) as nat
    } else if UPPER_A <= b && b <= UPPER_F {
        (b - UPPER_A + 10) as nat
    } else {
        0
    }
}

/// The upper-case hexadecimal digit of a value below 16.
pub open spec fn upper_hex_digit(n: nat) -> u8 {
    if n < 10 {
        (DIGIT_0 + n) as u8
    } else {
        (UPPER_A + n - 10) as u8
    }
}

/// The lower-case hexadecimal digit of a value below 16.
pub open spec fn lower_hex_digit(n: nat) -> u8 {
    if n < 10 {
        (DIGIT_0 + n) as u8
    } else {
        (LOWER_A + n - 10) as u8
    }
}

/// A byte as two upper-case hexadecimal digits.
pub open spec fn hex_pair(b: u8) -> Seq<u8> {
    seq![upper_hex_digit((b / 16) as nat), upper_hex_digit((b % 16) as nat)]
}

/// Bytes as upper-case hexadecimal digits, two per byte.
pub open spec fn hex_text(bytes: Seq<u8>) -> Seq<u8>
    decreases bytes.len(),
{
    if bytes.len() == 0 {
        Seq::empty()
    } else {
        hex_text(bytes.drop_last()) + hex_pair(bytes.last())
    }
}

/// Whether a byte is an ASCII hexadecimal digit.
pub(crate) fn is_hex(b: u8) -> (r: bool)
    ensures
        r == is_hex_digit(b),
{
    (DIGIT_0 <= b && b <= DIGIT_9) || (LOWER_A <= b && b <= LOWER_F) || (UPPER_A <= b && b <= UPPER_F)
}

/// The value of a hexadecimal digit.
pub(crate) fn hex_value(b: u8) -> (r: u8)
    requires
        is_hex_digit(b),
    ensures
        r == hex_digit_value(b),
        r < 16,
{
    if DIGIT_0 <= b && b <= DIGIT_9 {
        b - DIGIT_0
    } else if LOWER_A <= b && b <= LOWER_F {
        b - LOWER_A + 10
    } else {
        b - UPPER_A + 10
    }
}

/// The upper-case hexadecimal digit of a value below 16.
pub(crate) fn upper_hex(n: u8) -> (r: u8)
    requires
        n < 16,
    ensures
        r == upper_hex_digit(n as nat),
{
    if n < 10 {
        DIGIT_0 + n
    } else {
        UPPER_A + (n - 10)
    }
}

/// The lower-case hexadecimal digit of a value below 16.
pub(crate) fn lower_hex(n: u8) -> (r: u8)
    requires
        n < 16,
    ensures
        r == lower_hex_digit(n as nat),
{
    if n < 10 {
        DIGIT_0 + n
    } else {
        LOWER_A + (n - 10)
    }
}

/// A digit keeps its value when it is written out and read back.
pub proof fn lemma_hex_digit_roundtrip(n: nat)
    requires
        n < 16,
    ensures
        is_hex_digit(upper_hex_digit(n)),
        hex_digit_value(upper_hex_digit(n)) == n,
        is_hex_digit(lower_hex_digit(n)),
        hex_digit_value(lower_hex_digit(n)) == n,
{
}

// ---------------------------------------------------------------------------
// Numbers in text
// ---------------------------------------------------------------------------

/// The text behind an optional leading plus sign.
pub open spec fn unsigned_part(s: Seq<u8>) -> Seq<u8> {
    if s.len() > 0 && s[0] == PLUS {
        s.drop_first()
    } else {
        s
    }
}

/// Every byte is a hexadecimal digit.
pub open spec fn all_hex(s: Seq<u8>) -> bool {
    forall|i: int| 0 <= i < s.len() ==> is_hex_digit(#[trigger] s[i])
}

/// The number that hexadecimal digits stand for, most significant first.
pub open spec fn hex_number(s: Seq<u8>) -> nat
    decreases s.len(),
{
    if s.len() == 0 {
        0
    } else {
        hex_number(s.drop_last()) * 16 + hex_digit_value(s.last())
    }
}

/// What a hexadecimal numeral reads as: an optional plus sign, then at least
/// one digit and nothing else.
pub open spec fn parsed_hex(s: Seq<u8>) -> Option<nat> {
    let digits = unsigned_part(s);
    if digits.len() > 0 && all_hex(digits) {
        Some(hex_number(digits))
    } else {
        None
    }
}

/// Up to seven digits stay below `16^7`.
pub proof fn lemma_hex_number_bound(s: Seq<u8>)
    requires
        s.len() <= 7,
    ensures
        s.len() == 0 ==> hex_number(s) == 0,
        s.len() <= 1 ==> hex_number(s) < 16,
        s.len() <= 2 ==> hex_number(s) < 256,
        s.len() <= 3 ==> hex_number(s) < 0x1000,
        s.len() <= 4 ==> hex_number(s) < 0x1_0000,
        s.len() <= 5 ==> hex_number(s) < 0x10_0000,
        s.len() <= 6 ==> hex_number(s) < 0x100_0000,
        hex_number(s) < 0x1000_0000,
    decreases s.len(),
{
    if s.len() > 0 {
        lemma_hex_number_bound(s.drop_last());
    }
}

/// Read a hexadecimal numeral of at most seven characters, with an optional
/// plus sign in front.
pub(crate) fn parse_hex(s: &[u8]) -> (r: Option<u32>)
    requires
        s@.len() <= 7,
    ensures
        match r {
            Some(v) => parsed_hex(s@) == Some(v as nat),
            None => parsed_hex(s@) is None,
        },
        r is Some && s@.len() <= 2 ==> r->0 < 256,
        r is Some && s@.len() <= 3 ==> r->0 < 0x1000,
{
    let from: usize = if s.len() > 0 && s[0] == PLUS {
        1
    } else {
        0
    };
    let ghost digits = unsigned_part(s@);
    assert(digits =~= s@.subrange(from as int, s@.len() as int));
    if from == s.len() {
        return None;
    }
    let mut value: u32 = 0;
    let mut i: usize = from;
    while i < s.len()
        invariant
            from <= i <= s@.len() <= 7,
            from <= 1,
            digits == s@.subrange(from as int, s@.len() as int),
            digits == unsigned_part(s@),
            all_hex(digits.take(i - from)),
            value == hex_number(digits.take(i - from)),
            value < 0x1000_0000,
        decreases s@.len() - i,
    {
        let ghost before = digits.take(i - from);
        let ghost upto = digits.take(i - from + 1);
        assert(upto.drop_last() =~= before);
        assert(upto.last() == s@[i as int]);
        if !is_hex(s[i]) {
            assert(digits[i - from] == s@[i as int]);
            return None;
        }
        proof {
            lemma_hex_number_bound(before);
            lemma_hex_number_bound(upto);
        }
        value = value * 16 + hex_value(s[i]) as u32;
        i = i + 1;
    }
    assert(digits.take(i - from) =~= digits);
    proof {
        lemma_hex_number_bound(digits);
    }
    Some(value)
}

/// The decimal digits of a number, most significant first.
pub open spec fn decimal(n: nat) -> Seq<u8>
    decreases n,
{
    if n < 10 {
        seq![(DIGIT_0 + n) as u8]
    } else {
        decimal(n / 10).push((DIGIT_0 + n % 10) as u8)
    }
}

/// Write a number in decimal.
pub(crate) fn decimal_digits(n: u64) -> (r: Vec<u8>)
    ensures
        r@ == decimal(n as nat),
        1 <= r@.len() <= 20,
{
    let mut reversed: Vec<u8> = Vec::new();
    let mut rest: u64 = n;
    let ghost mut tail: Seq<u8> = Seq::empty();
    assert(decimal(rest as nat) + tail =~= decimal(n as nat));
    while rest >= 10
        invariant
            tail == reversed@.reverse(),
            decimal(rest as nat) + tail == decimal(n as nat),
            reversed@.len() == 0 ==> rest <= u64::MAX,
            reversed@.len() == 1 ==> rest <= 1844674407370955161,
            reversed@.len() == 2 ==> rest <= 184467440737095516,
            reversed@.len() == 3 ==> rest <= 18446744073709551,
            reversed@.len() == 4 ==> rest <= 1844674407370955,
            reversed@.len() == 5 ==> rest <= 184467440737095,
            reversed@.len() == 6 ==> rest <= 18446744073709,
            reversed@.len() == 7 ==> rest <= 1844674407370,
            reversed@.len() == 8 ==> rest <= 184467440737,
            reversed@.len() == 9 ==> rest <= 18446744073,
            reversed@.len() == 10 ==> rest <= 1844674407,
            reversed@.len() == 11 ==> rest <= 184467440,
            reversed@.len() == 12 ==> rest <= 18446744,
            reversed@.len() == 13 ==> rest <= 1844674,
            reversed@.len() == 14 ==> rest <= 184467,
            reversed@.len() == 15 ==> rest <= 18446,
            reversed@.len() == 16 ==> rest <= 1844,
            reversed@.len() == 17 ==> rest <= 184,
            reversed@.len() == 18 ==> rest <= 18,
            reversed@.len() == 19 ==> rest <= 1,
            reversed@.len() <= 19,
        decreases rest,
    {
        let digit: u8 = DIGIT_0 + (rest % 10) as u8;
        proof {
            let n0 = rest as nat;
            assert(decimal(n0) == decimal(n0 / 10).push(digit));
            assert(decimal(n0) + tail =~= decimal(n0 / 10) + (seq![digit] + tail));
        }
        reversed.push(digit);
        rest = rest / 10;
        proof {
            tail = seq![digit] + tail;
            assert(tail =~= reversed@.reverse());
        }
    }
    let last: u8 = DIGIT_0 + rest as u8;
    reversed.push(last);
    let mut digits: Vec<u8> = Vec::new();
    let mut k: usize = reversed.len();
    while k > 0
        invariant
            k <= reversed@.len(),
            digits@.len() == reversed@.len() - k,
            forall|j: int|
                0 <= j < digits@.len() ==> digits@[j] == reversed@[reversed@.len() - 1 - j],
        decreases k,
    {
        k = k - 1;
        digits.push(reversed[k]);
    }
    assert(digits@ =~= seq![last] + tail);
    assert(decimal(rest as nat) =~= seq![last]);
    digits
}

// ---------------------------------------------------------------------------
// Strings
// ---------------------------------------------------------------------------

/// What `str::to_uppercase` makes of a text.
pub uninterp spec fn uppercase(s: Seq<char>) -> Seq<char>;

/// What `str::to_lowercase` makes of a text.
pub uninterp spec fn lowercase(s: Seq<char>) -> Seq<char>;

/// What `char::is_whitespace` says of a character beyond ASCII.
pub uninterp spec fn unicode_white_space(c: char) -> bool;

/// White space: the Unicode `White_Space` property, which among the ASCII
/// characters the space and U+0009 to U+000D have.
pub open spec fn white_space(c: char) -> bool {
    if (c as u32) < 0x80 {
        c == ' ' || (0x09 <= c as u32 && c as u32 <= 0x0d)
    } else {
        unicode_white_space(c)
    }
}

/// What `String::from_utf8_lossy` makes of bytes.
pub uninterp spec fn utf8_lossy(bytes: Seq<u8>) -> Seq<char>;

/// The upper-case form of an ASCII character; any other is unchanged.
pub open spec fn ascii_upper(c: char) -> char {
    if 'a' <= c && c <= 'z' {
        (c as u32 - 0x20) as char
    } else {
        c
    }
}

/// The lower-case form of an ASCII character; any other is unchanged.
pub open spec fn ascii_lower(c: char) -> char {
    if 'A' <= c && c <= 'Z' {
        (c as u32 + 0x20) as char
    } else {
        c
    }
}

/// `str::to_uppercase`: named as a whole, since Unicode decides on the letters
/// beyond ASCII; on ASCII text it maps `a` to `z` to `A` to `Z` and leaves the
/// rest alone.
#[verifier::external_body]
pub(crate) fn to_uppercase(s: &str) -> (r: String)
    ensures
        r@ == uppercase(s@),
        vstd::utf8::is_ascii_chars(s@) ==> r@ == s@.map_values(|c: char| ascii_upper(c)),
{
    s.to_uppercase()
}

/// `str::to_lowercase`: named as a whole, since Unicode decides on the letters
/// beyond ASCII; on ASCII text it maps `A` to `Z` to `a` to `z` and leaves the
/// rest alone.
#[verifier::external_body]
pub(crate) fn to_lowercase(s: &str) -> (r: String)
    ensures
        r@ == lowercase(s@),
        vstd::utf8::is_ascii_chars(s@) ==> r@ == s@.map_values(|c: char| ascii_lower(c)),
{
    s.to_lowercase()
}

/// `char::is_whitespace`: the Unicode `White_Space` property, which among the
/// ASCII characters the space and U+0009 to U+000D have.
#[verifier::external_body]
pub(crate) fn is_whitespace(c: char) -> (r: bool)
    ensures
        (c as u32) >= 0x80 ==> r == unicode_white_space(c),
        r == white_space(c),
{
    c.is_whitespace()
}

/// `String::from_utf8_lossy`: named as a whole, since it replaces what is not
/// UTF-8; valid UTF-8 is decoded as it stands.
#[verifier::external_body]
pub(crate) fn from_utf8_lossy(bytes: &[u8]) -> (r: String)
    ensures
        r@ == utf8_lossy(bytes@),
        vstd::utf8::valid_utf8(bytes@) ==> r@ == vstd::utf8::decode_utf8(bytes@),
{
    String::from_utf8_lossy(bytes).into_owned()
}

/// `std::str::from_utf8`: decodes the bytes, if and only if they are UTF-8.
#[verifier::external_body]
pub(crate) fn from_utf8(bytes: &[u8]) -> (r: Option<&str>)
    ensures
        r is Some <==> vstd::utf8::valid_utf8(bytes@),
        r is Some ==> r->0@ == vstd::utf8::decode_utf8(bytes@),
{
    std::str::from_utf8(bytes).ok()
}

/// `String::push` appends one character.
pub assume_specification[ String::push ](s: &mut String, c: char)
    ensures
        final(s)@ == old(s)@.push(c),
;

/// `String::push_str` appends a text.
pub assume_specification[ String::push_str ](s: &mut String, other: &str)
    ensures
        final(s)@ == old(s)@ + other@,
;

/// The texts of strings.
pub open spec fn texts_of(list: Seq<String>) -> Seq<Seq<char>> {
    list.map_values(|s: String| s@)
}

/// Append the bytes of a slice.
pub(crate) fn push_all(out: &mut Vec<u8>, bytes: &[u8])
    ensures
        final(out)@ == old(out)@ + bytes@,
{
    let mut i: usize = 0;
    assert(out@ =~= old(out)@ + bytes@.take(0));
    while i < bytes.len()
        invariant
            i <= bytes@.len(),
            out@ == old(out)@ + bytes@.take(i as int),
        decreases bytes@.len() - i,
    {
        out.push(bytes[i]);
        assert(out@ =~= old(out)@ + bytes@.take(i + 1));
        i = i + 1;
    }
    assert(bytes@.take(i as int) =~= bytes@);
}

/// The characters of a text.
pub(crate) fn chars_of(s: &str) -> (r: Vec<char>)
    ensures
        r@ == s@,
{
    let mut out: Vec<char> = Vec::new();
    for c in it: s.chars()
        invariant
            out@ == it.seq().take(it.index()),
            it.seq() == s@,
    {
        out.push(c);
        assert(it.seq().take(it.index() + 1) =~= it.seq().take(it.index()).push(c));
    }
    assert(s@.take(s@.len() as int) =~= s@);
    out
}

/// Whether two texts are the same.
pub(crate) fn same_text(a: &str, b: &str) -> (r: bool)
    ensures
        r == (a@ == b@),
{
    let x: Vec<char> = chars_of(a);
    let y: Vec<char> = chars_of(b);
    if x.len() != y.len() {
        return false;
    }
    let mut i: usize = 0;
    while i < x.len()
        invariant
            i <= x@.len() == y@.len(),
            x@ == a@,
            y@ == b@,
            forall|j: int| 0 <= j < i ==> x@[j] == y@[j],
        decreases x@.len() - i,
    {
        if x[i] != y[i] {
            return false;
        }
        i = i + 1;
    }
    assert(x@ =~= y@);
    true
}

/// Whether a text begins with another.
pub(crate) fn starts_with(s: &str, prefix: &str) -> (r: bool)
    ensures
        r == prefix@.is_prefix_of(s@),
{
    let x: Vec<char> = chars_of(s);
    let p: Vec<char> = chars_of(prefix);
    if p.len() > x.len() {
        return false;
    }
    let mut i: usize = 0;
    while i < p.len()
        invariant
            i <= p@.len() <= x@.len(),
            x@ == s@,
            p@ == prefix@,
            forall|j: int| 0 <= j < i ==> x@[j] == p@[j],
        decreases p@.len() - i,
    {
        if x[i] != p[i] {
            assert(s@.take(p@.len() as int)[i as int] != p@[i as int]);
            return false;
        }
        i = i + 1;
    }
    assert(p@ =~= x@.subrange(0, p@.len() as int));
    true
}

/// A text without the white space at its end.
pub open spec fn without_trailing_space(s: Seq<char>) -> Seq<char>
    decreases s.len(),
{
    if s.len() > 0 && white_space(s.last()) {
        without_trailing_space(s.drop_last())
    } else {
        s
    }
}

/// A text without the white space at its front.
pub open spec fn without_leading_space(s: Seq<char>) -> Seq<char>
    decreases s.len(),
{
    if s.len() > 0 && white_space(s[0]) {
        without_leading_space(s.drop_first())
    } else {
        s
    }
}

/// A text without the white space at its two ends.
pub open spec fn trimmed(s: Seq<char>) -> Seq<char> {
    without_trailing_space(without_leading_space(s))
}

/// The characters without the white space at the two ends.
pub(crate) fn trim(s: &[char]) -> (r: Vec<char>)
    ensures
        r@ == trimmed(s@),
{
    let mut from: usize = 0;
    assert(s@.skip(0) =~= s@);
    while from < s.len() && is_whitespace(s[from])
        invariant
            from <= s@.len(),
            without_leading_space(s@.skip(from as int)) == without_leading_space(s@),
        ensures
            from <= s@.len(),
            s@.skip(from as int) == without_leading_space(s@),
        decreases s@.len() - from,
    {
        assert(s@.skip(from as int).drop_first() =~= s@.skip(from + 1));
        from = from + 1;
    }
    let ghost front = s@.skip(from as int);
    let mut to: usize = s.len();
    assert(front.take(to - from) =~= front);
    while to > from && is_whitespace(s[to - 1])
        invariant
            from <= to <= s@.len(),
            front == s@.skip(from as int),
            without_trailing_space(front.take(to - from)) == without_trailing_space(front),
        ensures
            from <= to <= s@.len(),
            front.take(to - from) == without_trailing_space(front),
        decreases to - from,
    {
        assert(front.take(to - from).drop_last() =~= front.take(to - from - 1));
        to = to - 1;
    }
    let mut out: Vec<char> = Vec::new();
    let mut i: usize = from;
    while i < to
        invariant
            from <= i <= to <= s@.len(),
            front == s@.skip(from as int),
            out@ == front.take(i - from),
        decreases to - i,
    {
        out.push(s[i]);
        assert(front.take(i - from + 1) =~= front.take(i - from).push(s@[i as int]));
        i = i + 1;
    }
    out
}

/// Digits as characters.
pub open spec fn chars_of_bytes(bytes: Seq<u8>) -> Seq<char> {
    bytes.map_values(|b: u8| b as char)
}

/// A number in decimal.
pub open spec fn decimal_text(n: nat) -> Seq<char> {
    chars_of_bytes(decimal(n))
}

/// Append a number in decimal.
pub(crate) fn push_number(out: &mut String, n: u64)
    ensures
        final(out)@ == old(out)@ + decimal_text(n as nat),
{
    let digits = decimal_digits(n);
    let mut i: usize = 0;
    assert(out@ =~= old(out)@ + chars_of_bytes(digits@.take(0)));
    while i < digits.len()
        invariant
            i <= digits@.len(),
            out@ == old(out)@ + chars_of_bytes(digits@.take(i as int)),
        decreases digits@.len() - i,
    {
        out.push(digits[i] as char);
        i = i + 1;
        assert(out@ =~= old(out)@ + chars_of_bytes(digits@.take(i as int)));
    }
    assert(digits@.take(i as int) =~= digits@);
}

/// A byte as two lower-case hexadecimal digits.
pub open spec fn lower_hex_pair(b: u8) -> Seq<char> {
    seq![lower_hex_digit((b / 16) as nat) as char, lower_hex_digit((b % 16) as nat) as char]
}

/// Bytes as lower-case hexadecimal digits, two per byte.
pub open spec fn lower_hex_text(bytes: Seq<u8>) -> Seq<char>
    decreases bytes.len(),
{
    if bytes.len() == 0 {
        Seq::empty()
    } else {
        lower_hex_text(bytes.drop_last()) + lower_hex_pair(bytes.last())
    }
}

/// Append a byte as two lower-case hexadecimal digits.
pub(crate) fn push_lower_hex(out: &mut String, b: u8)
    ensures
        final(out)@ == old(out)@ + lower_hex_pair(b),
{
    out.push(lower_hex(b / 16) as char);
    out.push(lower_hex(b % 16) as char);
    assert(out@ =~= old(out)@ + lower_hex_pair(b));
}

/// Append a byte as two upper-case hexadecimal digits.
pub(crate) fn push_upper_hex(out: &mut String, b: u8)
    ensures
        final(out)@ == old(out)@ + chars_of_bytes(hex_pair(b)),
{
    out.push(upper_hex(b / 16) as char);
    out.push(upper_hex(b % 16) as char);
    assert(out@ =~= old(out)@ + chars_of_bytes(hex_pair(b)));
}

/// The byte is an ASCII decimal digit.
pub open spec fn is_decimal_digit(b: u8) -> bool {
    DIGIT_0 <= b && b <= DIGIT_9
}

/// Every byte is a decimal digit.
pub open spec fn all_decimal(s: Seq<u8>) -> bool {
    forall|i: int| 0 <= i < s.len() ==> is_decimal_digit(#[trigger] s[i])
}

/// The number that decimal digits stand for, most significant first.
pub open spec fn decimal_number(s: Seq<u8>) -> nat
    decreases s.len(),
{
    if s.len() == 0 {
        0
    } else {
        decimal_number(s.drop_last()) * 10 + (s.last() - DIGIT_0) as nat
    }
}

/// What a decimal numeral reads as: an optional plus sign, then at least one
/// digit and nothing else.
pub open spec fn parsed_decimal(s: Seq<u8>) -> Option<nat> {
    let digits = unsigned_part(s);
    if digits.len() > 0 && all_decimal(digits) {
        Some(decimal_number(digits))
    } else {
        None
    }
}

/// A numeral is at least as large as each of its fronts.
proof fn lemma_decimal_grows(s: Seq<u8>, k: int)
    requires
        0 <= k <= s.len(),
        all_decimal(s),
    ensures
        decimal_number(s.take(k)) <= decimal_number(s),
    decreases s.len(),
{
    if k == s.len() {
        assert(s.take(k) =~= s);
    } else {
        assert(s.drop_last().take(k) =~= s.take(k));
        assert forall|i: int| 0 <= i < s.drop_last().len() implies is_decimal_digit(
            #[trigger] s.drop_last()[i],
        ) by {
            assert(s.drop_last()[i] == s[i]);
        }
        lemma_decimal_grows(s.drop_last(), k);
        assert(is_decimal_digit(s[s.len() - 1]));
    }
}

/// Read a decimal numeral with an optional plus sign in front, up to a largest
/// value.
pub(crate) fn parse_decimal(s: &[u8], max: u64) -> (r: Option<u64>)
    ensures
        match r {
            Some(v) => parsed_decimal(s@) == Some(v as nat) && v <= max,
            None => parsed_decimal(s@) is None || parsed_decimal(s@)->0 > max,
        },
{
    let from: usize = if s.len() > 0 && s[0] == PLUS {
        1
    } else {
        0
    };
    let ghost digits = unsigned_part(s@);
    assert(digits =~= s@.subrange(from as int, s@.len() as int));
    if from == s.len() {
        return None;
    }
    let mut value: u64 = 0;
    let mut i: usize = from;
    while i < s.len()
        invariant
            from <= i <= s@.len(),
            from <= 1,
            digits == s@.subrange(from as int, s@.len() as int),
            digits == unsigned_part(s@),
            all_decimal(digits.take(i - from)),
            value == decimal_number(digits.take(i - from)),
            value <= max,
        decreases s@.len() - i,
    {
        let ghost before = digits.take(i - from);
        let ghost upto = digits.take(i - from + 1);
        assert(upto.drop_last() =~= before);
        assert(upto.last() == s@[i as int]);
        assert(digits[i - from] == s@[i as int]);
        if !(DIGIT_0 <= s[i] && s[i] <= DIGIT_9) {
            return None;
        }
        let next: u128 = value as u128 * 10 + (s[i] - DIGIT_0) as u128;
        if next > max as u128 {
            proof {
                if all_decimal(digits) {
                    lemma_decimal_grows(digits, i - from + 1);
                }
            }
            return None;
        }
        value = next as u64;
        i = i + 1;
    }
    assert(digits.take(i - from) =~= digits);
    Some(value)
}

/// Append characters to a text.
pub(crate) fn push_chars(out: &mut String, chars: &[char])
    ensures
        final(out)@ == old(out)@ + chars@,
{
    let mut i: usize = 0;
    assert(out@ =~= old(out)@ + chars@.take(0));
    while i < chars.len()
        invariant
            i <= chars@.len(),
            out@ == old(out)@ + chars@.take(i as int),
        decreases chars@.len() - i,
    {
        out.push(chars[i]);
        i = i + 1;
        assert(out@ =~= old(out)@ + chars@.take(i as int));
    }
    assert(chars@.take(i as int) =~= chars@);
}

/// A text made of characters.
pub(crate) fn text_of(chars: &[char]) -> (r: String)
    ensures
        r@ == chars@,
{
    let mut out: String = "".to_owned();
    proof {
        reveal_strlit("");
    }
    push_chars(&mut out, chars);
    assert(out@ =~= chars@);
    out
}

/// Where a character first stands in a text; behind its end if nowhere.
pub open spec fn find_char(s: Seq<char>, c: char) -> int
    decreases s.len(),
{
    if s.len() == 0 || s[0] == c {
        0
    } else {
        1 + find_char(s.drop_first(), c)
    }
}

/// The place found is the first one.
pub(crate) proof fn lemma_find_char(s: Seq<char>, c: char)
    ensures
        0 <= find_char(s, c) <= s.len(),
        find_char(s, c) < s.len() ==> s[find_char(s, c)] == c,
        forall|i: int| 0 <= i < find_char(s, c) ==> s[i] != c,
    decreases s.len(),
{
    if s.len() > 0 && s[0] != c {
        lemma_find_char(s.drop_first(), c);
        assert forall|i: int| 0 <= i < find_char(s, c) implies s[i] != c by {
            if i > 0 {
                assert(s[i] == s.drop_first()[i - 1]);
            }
        }
    }
}

/// A place with the character, and none before it, is the one found.
pub(crate) proof fn lemma_found_char(s: Seq<char>, c: char, i: int)
    requires
        0 <= i <= s.len(),
        i < s.len() ==> s[i] == c,
        forall|j: int| 0 <= j < i ==> s[j] != c,
    ensures
        find_char(s, c) == i,
    decreases s.len(),
{
    if i > 0 {
        assert(s[0] != c);
        assert forall|j: int| 0 <= j < i - 1 implies s.drop_first()[j] != c by {
            assert(s.drop_first()[j] == s[j + 1]);
        }
        lemma_found_char(s.drop_first(), c, i - 1);
    }
}

/// Where a character first stands at or behind an index; at the end of the text
/// if nowhere.
pub(crate) fn find_from(s: &[char], from: usize, c: char) -> (r: usize)
    requires
        from <= s@.len(),
    ensures
        from <= r <= s@.len(),
        r == from + find_char(s@.skip(from as int), c),
{
    let mut i: usize = from;
    while i < s.len() && s[i] != c
        invariant
            from <= i <= s@.len(),
            forall|j: int| from <= j < i ==> s@[j] != c,
        decreases s@.len() - i,
    {
        i = i + 1;
    }
    proof {
        let rest = s@.skip(from as int);
        assert forall|j: int| 0 <= j < i - from implies rest[j] != c by {
            assert(rest[j] == s@[from + j]);
        }
        lemma_found_char(rest, c, i - from);
    }
    i
}

/// The bytes of a text of ASCII characters.
pub open spec fn ascii_bytes(s: Seq<char>) -> Option<Seq<u8>> {
    if forall|i: int| 0 <= i < s.len() ==> (#[trigger] s[i] as u32) < 0x80 {
        Some(s.map_values(|c: char| c as u8))
    } else {
        None
    }
}

/// The bytes of a text of ASCII characters.
pub(crate) fn to_ascii(s: &[char]) -> (r: Option<Vec<u8>>)
    ensures
        match r {
            Some(bytes) => ascii_bytes(s@) == Some(bytes@),
            None => ascii_bytes(s@) is None,
        },
{
    let mut out: Vec<u8> = Vec::new();
    let mut i: usize = 0;
    while i < s.len()
        invariant
            i <= s@.len(),
            out@.len() == i,
            forall|j: int|
                0 <= j < i ==> (#[trigger] s@[j] as u32) < 0x80 && out@[j] == s@[j] as u8,
        decreases s@.len() - i,
    {
        if s[i] as u32 >= 0x80 {
            return None;
        }
        out.push(s[i] as u8);
        i = i + 1;
    }
    assert(out@ =~= s@.map_values(|c: char| c as u8));
    Some(out)
}

/// The bytes of ASCII characters.
pub open spec fn bytes_of_ascii(s: Seq<char>) -> Seq<u8> {
    s.map_values(|c: char| c as u8)
}

/// A number in upper-case hexadecimal.
pub open spec fn hex_numeral(n: nat) -> Seq<char>
    decreases n,
{
    if n < 16 {
        seq![upper_hex_digit(n) as char]
    } else {
        hex_numeral(n / 16).push(upper_hex_digit(n % 16) as char)
    }
}

/// A numeral with as many zeros in front as it takes to fill a width.
pub open spec fn zero_filled(numeral: Seq<char>, width: nat) -> Seq<char> {
    if numeral.len() < width {
        Seq::new((width - numeral.len()) as nat, |i: int| '0') + numeral
    } else {
        numeral
    }
}

fn push_hex_digits(out: &mut Vec<char>, n: u64)
    ensures
        final(out)@ == old(out)@ + hex_numeral(n as nat),
    decreases n,
{
    if n >= 16 {
        push_hex_digits(out, n / 16);
    }
    out.push(upper_hex((n % 16) as u8) as char);
    assert(out@ =~= old(out)@ + hex_numeral(n as nat));
}

/// Append a number in upper-case hexadecimal, filled up with zeros.
pub(crate) fn push_hex_number(out: &mut String, n: u64, width: usize)
    ensures
        final(out)@ == old(out)@ + zero_filled(hex_numeral(n as nat), width as nat),
{
    let mut digits: Vec<char> = Vec::new();
    push_hex_digits(&mut digits, n);
    assert(digits@ =~= hex_numeral(n as nat));
    let missing: usize = if digits.len() < width {
        width - digits.len()
    } else {
        0
    };
    let ghost zeros = Seq::new(missing as nat, |i: int| '0');
    let mut i: usize = 0;
    assert(out@ =~= old(out)@ + zeros.take(0));
    while i < missing
        invariant
            i <= missing,
            zeros == Seq::new(missing as nat, |i: int| '0'),
            out@ == old(out)@ + zeros.take(i as int),
        decreases missing - i,
    {
        out.push('0');
        i = i + 1;
        assert(out@ =~= old(out)@ + zeros.take(i as int));
    }
    push_chars(out, digits.as_slice());
    assert(zeros.take(missing as int) =~= zeros);
    assert(out@ =~= old(out)@ + zero_filled(hex_numeral(n as nat), width as nat));
}

/// Four digits are enough for a number of 16 bits, and read back as it.
pub proof fn lemma_hex_numeral(n: nat)
    ensures
        vstd::utf8::is_ascii_chars(hex_numeral(n)),
        hex_numeral(n).len() >= 1,
        n < 0x10 ==> hex_numeral(n).len() == 1,
        n < 0x100 ==> hex_numeral(n).len() <= 2,
        n < 0x1000 ==> hex_numeral(n).len() <= 3,
        n < 0x1_0000 ==> hex_numeral(n).len() <= 4,
        forall|i: int|
            0 <= i < hex_numeral(n).len() ==> (#[trigger] hex_numeral(n)[i] as u32) < 0x80
                && is_hex_digit(hex_numeral(n)[i] as u8),
        hex_number(bytes_of_ascii(hex_numeral(n))) == n,
    decreases n,
{
    let bytes = bytes_of_ascii(hex_numeral(n));
    lemma_hex_digit_roundtrip(n % 16);
    if n >= 16 {
        lemma_hex_numeral(n / 16);
        let front = bytes_of_ascii(hex_numeral(n / 16));
        assert(bytes.drop_last() =~= front);
        assert(bytes.last() == upper_hex_digit(n % 16));
    } else {
        assert(bytes.drop_last() =~= Seq::empty());
        assert(decimal_number(bytes.drop_last()) == 0);
        assert(hex_number(bytes.drop_last()) == 0);
        assert(bytes.last() == upper_hex_digit(n));
        assert(n % 16 == n);
    }
}

// ---------------------------------------------------------------------------
// Laws
// ---------------------------------------------------------------------------

/// The hexadecimal digits are the ten decimal ones and the letters from A to F of
/// either case, with the values 0 to 15.
pub proof fn law_hex_digits(b: u8)
    ensures
        is_hex_digit(b) <==> 0x30 <= b <= 0x39 || 0x41 <= b <= 0x46 || 0x61 <= b <= 0x66,
        0x30 <= b <= 0x39 ==> hex_digit_value(b) == b - 0x30,
        0x41 <= b <= 0x46 ==> hex_digit_value(b) == b - 0x37,
        0x61 <= b <= 0x66 ==> hex_digit_value(b) == b - 0x57,
{
}

/// A byte is written as two digits, the high one first.
pub proof fn law_byte_is_two_digits(b: u8)
    ensures
        hex_pair(b).len() == 2,
        lower_hex_pair(b).len() == 2,
        hex_digit_value(hex_pair(b)[0]) * 16 + hex_digit_value(hex_pair(b)[1]) == b,
        hex_digit_value(lower_hex_pair(b)[0] as u8) * 16 + hex_digit_value(
            lower_hex_pair(b)[1] as u8,
        ) == b,
        forall|i: int|
            0 <= i < 2 ==> 0x30 <= #[trigger] hex_pair(b)[i] <= 0x39 || 0x41 <= hex_pair(b)[i]
                <= 0x46,
        forall|i: int|
            0 <= i < 2 ==> '0' <= #[trigger] lower_hex_pair(b)[i] <= '9' || 'a' <= lower_hex_pair(
                b,
            )[i] <= 'f',
{
    lemma_hex_digit_roundtrip((b / 16) as nat);
    lemma_hex_digit_roundtrip((b % 16) as nat);
}

/// Each further digit multiplies a number by its base and adds its value.
pub proof fn law_digits_weigh(s: Seq<u8>, digit: u8)
    requires
        0x30 <= digit <= 0x39,
    ensures
        hex_number(s.push(digit)) == 16 * hex_number(s) + (digit - 0x30),
        decimal_number(s.push(digit)) == 10 * decimal_number(s) + (digit - 0x30),
        hex_number(Seq::empty()) == 0,
        decimal_number(Seq::empty()) == 0,
{
    assert(s.push(digit).drop_last() =~= s);
}

/// A number is written in decimal digits that read back as it, without a zero in
/// front unless it is zero.
pub proof fn law_decimal_reads_back(n: nat)
    ensures
        decimal_text(n).len() > 0,
        forall|i: int| 0 <= i < decimal_text(n).len() ==> '0' <= #[trigger] decimal_text(n)[i] <= '9',
        decimal_number(bytes_of_ascii(decimal_text(n))) == n,
        n > 0 ==> decimal_text(n)[0] != '0',
        n == 0 ==> decimal_text(n) == seq!['0'],
    decreases n,
{
    let bytes = bytes_of_ascii(decimal_text(n));
    if n >= 10 {
        law_decimal_reads_back(n / 10);
        let digit = (DIGIT_0 + n % 10) as u8;
        assert(decimal_text(n) =~= decimal_text(n / 10).push(digit as char));
        assert(bytes.drop_last() =~= bytes_of_ascii(decimal_text(n / 10)));
        assert(bytes.last() == digit);
        assert(decimal_number(bytes) == decimal_number(bytes.drop_last()) * 10 + n % 10);
        assert(decimal_text(n)[0] == decimal_text(n / 10)[0]);
    } else {
        assert(bytes =~= seq![(DIGIT_0 + n) as u8]);
        assert(bytes.drop_last() =~= Seq::empty());
        assert(decimal_number(bytes.drop_last()) == 0);
        if n == 0 {
            assert(decimal_text(n) =~= seq!['0']);
        }
    }
}

/// A numeral is read if there is at least one digit and nothing but digits, but for a
/// plus sign in front, which changes nothing.
pub proof fn law_numerals_are_digits(s: Seq<u8>)
    requires
        s.len() == 0 || s[0] != 0x2b,
    ensures
        parsed_hex(s) is Some <==> s.len() > 0 && forall|i: int|
            0 <= i < s.len() ==> is_hex_digit(#[trigger] s[i]),
        parsed_hex(s) is Some ==> parsed_hex(s)->0 == hex_number(s),
        parsed_decimal(s) is Some <==> s.len() > 0 && forall|i: int|
            0 <= i < s.len() ==> 0x30 <= #[trigger] s[i] <= 0x39,
        parsed_decimal(s) is Some ==> parsed_decimal(s)->0 == decimal_number(s),
        parsed_hex(seq![0x2bu8] + s) == parsed_hex(s),
        parsed_decimal(seq![0x2bu8] + s) == parsed_decimal(s),
{
    assert((seq![0x2bu8] + s).drop_first() =~= s);
}

/// Trimming takes the white space at the two ends away and nothing else: what is left
/// is a part of the text that does not begin or end with white space, and all around
/// it was white space.
pub proof fn law_trimming_takes_the_ends(s: Seq<char>)
    ensures
        exists|from: int, to: int|
            0 <= from <= to <= s.len() && #[trigger] s.subrange(from, to) == trimmed(s) && (forall|
                i: int,
            |
                0 <= i < from || to <= i < s.len() ==> white_space(#[trigger] s[i])),
        trimmed(s).len() > 0 ==> !white_space(trimmed(s)[0]) && !white_space(trimmed(s).last()),
{
    let from = lemma_leading(s);
    let rest = without_leading_space(s);
    let to = lemma_trailing(rest);
    assert(s.subrange(from, from + to) =~= trimmed(s));
    assert forall|i: int| 0 <= i < from || from + to <= i < s.len() implies white_space(
        #[trigger] s[i],
    ) by {
        if i >= from {
            assert(rest[i - from] == s[i]);
        }
    }
    if trimmed(s).len() > 0 {
        assert(trimmed(s)[0] == rest[0]);
    }
}

/// Of the ASCII characters the space, the tab, the line ends and two more are white
/// space.
pub proof fn law_ascii_white_space(c: char)
    requires
        (c as u32) < 0x80,
    ensures
        white_space(c) == (c == ' ' || c == '\t' || c == '\n' || c as u32 == 11 || c as u32 == 12
            || c == '\r'),
{
}

proof fn lemma_leading(s: Seq<char>) -> (from: int)
    ensures
        0 <= from <= s.len(),
        without_leading_space(s) == s.skip(from),
        forall|i: int| 0 <= i < from ==> white_space(#[trigger] s[i]),
        from < s.len() ==> !white_space(s[from]),
    decreases s.len(),
{
    if s.len() > 0 && white_space(s[0]) {
        let rest = s.drop_first();
        let from = lemma_leading(rest) + 1;
        assert(s.skip(from) =~= rest.skip(from - 1));
        assert forall|i: int| 0 <= i < from implies white_space(#[trigger] s[i]) by {
            if i > 0 {
                assert(rest[i - 1] == s[i]);
            }
        }
        from
    } else {
        assert(s.skip(0) =~= s);
        0
    }
}

proof fn lemma_trailing(s: Seq<char>) -> (to: int)
    ensures
        0 <= to <= s.len(),
        without_trailing_space(s) == s.take(to),
        forall|i: int| to <= i < s.len() ==> white_space(#[trigger] s[i]),
        to > 0 ==> !white_space(s[to - 1]),
    decreases s.len(),
{
    if s.len() > 0 && white_space(s.last()) {
        let front = s.drop_last();
        let to = lemma_trailing(front);
        assert(front.take(to) =~= s.take(to));
        assert forall|i: int| to <= i < s.len() implies white_space(#[trigger] s[i]) by {
            if i < front.len() {
                assert(front[i] == s[i]);
            }
        }
        to
    } else {
        assert(s.take(s.len() as int) =~= s);
        s.len() as int
    }
}

/// Filling up with zeros reaches the width and keeps the numeral at its end.
pub proof fn law_filling_reaches_the_width(numeral: Seq<char>, width: nat)
    ensures
        numeral.len() >= width ==> zero_filled(numeral, width) == numeral,
        numeral.len() < width ==> zero_filled(numeral, width).len() == width && zero_filled(
            numeral,
            width,
        ).skip(width - numeral.len()) == numeral && forall|i: int|
            0 <= i < width - numeral.len() ==> #[trigger] zero_filled(numeral, width)[i] == '0',
{
    if numeral.len() < width {
        assert(zero_filled(numeral, width).skip(width - numeral.len()) =~= numeral);
    }
}

/// The small letters and the capitals of ASCII correspond one for one, and other
/// characters have no case.
pub proof fn law_ascii_case(c: char)
    ensures
        'a' <= c <= 'z' ==> ascii_upper(c) as u32 == c as u32 - 32 && ascii_lower(ascii_upper(c))
            == c,
        'A' <= c <= 'Z' ==> ascii_lower(c) as u32 == c as u32 + 32 && ascii_upper(ascii_lower(c))
            == c,
        !('a' <= c <= 'z') ==> ascii_upper(c) == c,
        !('A' <= c <= 'Z') ==> ascii_lower(c) == c,
{
}

/// A character is found at its first place; where it is missing the place is behind the
/// text.
pub proof fn law_first_place_is_found(front: Seq<char>, c: char, back: Seq<char>)
    requires
        !front.contains(c),
    ensures
        find_char(front + seq![c] + back, c) == front.len(),
        find_char(front, c) == front.len(),
{
    let s = front + seq![c] + back;
    lemma_find_char(s, c);
    lemma_find_char(front, c);
    assert(s[front.len() as int] == c);
    let found = find_char(s, c);
    if found < front.len() {
        assert(front[found] == c);
        assert(front.contains(c));
    }
    let missing = find_char(front, c);
    if missing < front.len() {
        assert(front.contains(front[missing]));
    }
}

/// A text is bytes of ASCII if each of its characters is one, and then byte by byte.
pub proof fn law_ascii_texts_are_bytes(s: Seq<char>, i: int)
    requires
        0 <= i < s.len(),
    ensures
        s[i] as u32 >= 0x80 ==> ascii_bytes(s) is None,
        ascii_bytes(s) matches Some(bytes) ==> bytes.len() == s.len() && bytes[i] as u32
            == s[i] as u32,
        (forall|k: int| 0 <= k < s.len() ==> (#[trigger] s[k] as u32) < 0x80) ==> ascii_bytes(s)
            is Some,
{
    if ascii_bytes(s) is Some {
        assert((s[i] as u32) < 0x80);
        lemma_ascii_byte(s[i]);
    }
}

proof fn lemma_ascii_byte(c: char)
    requires
        (c as u32) < 0x80,
    ensures
        (c as u8) as u32 == c as u32,
{
}

} // verus!
