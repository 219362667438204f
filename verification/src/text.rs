//! Strings as sequences of characters.

use vstd::prelude::*;
use crate::digits::{
    all_digits, digit_char, digits_value, is_digit, lemma_quotient_smaller, radix_digits,
    to_digit,
};

verus! {

/// `String::push`: appends one character to `s`.
#[verifier::external_body]
pub(crate) fn push_char(s: &mut String, c: char)
    ensures
        final(s)@ == old(s)@.push(c),
{
    s.push(c)
}

/// The text that `String::from_utf8_lossy` makes of bytes.
pub uninterp spec fn utf8_lossy(bytes: Seq<u8>) -> Seq<char>;

/// `String::from_utf8_lossy`: the text that the bytes spell in UTF-8, with
/// the replacement character for what is no valid UTF-8.
#[verifier::external_body]
pub(crate) fn text_of_bytes_lossy(bytes: &[u8]) -> (r: String)
    ensures
        r@ == utf8_lossy(bytes@),
        vstd::utf8::valid_utf8(bytes@) ==> r@ == vstd::utf8::decode_utf8(bytes@),
{
    String::from_utf8_lossy(bytes).into_owned()
}

/// `std::string::FromUtf8Error`: why bytes are no text. Nothing is told of
/// what it holds.
#[verifier::external_type_specification]
#[verifier::external_body]
pub struct ExFromUtf8Error(std::string::FromUtf8Error);

/// `String::from_utf8`: the text that the bytes spell in UTF-8, where they
/// are valid UTF-8.
#[verifier::external_body]
pub(crate) fn text_of_bytes(bytes: Vec<u8>) -> (r: Result<String, std::string::FromUtf8Error>)
    ensures
        r is Ok <==> vstd::utf8::valid_utf8(bytes@),
        r matches Ok(text) ==> text@ == vstd::utf8::decode_utf8(bytes@),
{
    String::from_utf8(bytes)
}

/// The characters of `s`, in order.
pub fn chars_of(s: &str) -> (v: Vec<char>)
    ensures
        v@ == s@,
{
    let mut v: Vec<char> = Vec::new();
    for c in it: s.chars()
        invariant
            v@ == it.seq().take(it.index() as int),
            it.seq() == s@,
    {
        v.push(c);
    }
    v
}

/// The string made of the characters `chars[from..to]`.
pub fn string_of(chars: &[char], from: usize, to: usize) -> (s: String)
    requires
        from <= to <= chars@.len(),
    ensures
        s@ == chars@.subrange(from as int, to as int),
{
    let mut s = String::new();
    let mut i: usize = from;
    while i < to
        invariant
            from <= i <= to <= chars@.len(),
            s@ == chars@.subrange(from as int, i as int),
        decreases to - i,
    {
        push_char(&mut s, chars[i]);
        i += 1;
        assert(s@ =~= chars@.subrange(from as int, i as int));
    }
    s
}

/// Whether `a` and `b` hold the same characters.
pub fn same_text(a: &str, b: &str) -> (r: bool)
    ensures
        r == (a@ == b@),
{
    let x = chars_of(a);
    let y = chars_of(b);
    if x.len() != y.len() {
        return false;
    }
    let mut i: usize = 0;
    while i < x.len()
        invariant
            i <= x@.len(),
            x@ == a@,
            y@ == b@,
            x@.len() == y@.len(),
            forall|k: int| 0 <= k < i ==> x@[k] == y@[k],
        decreases x@.len() - i,
    {
        if x[i] != y[i] {
            assert(a@[i as int] != b@[i as int]);
            return false;
        }
        i += 1;
    }
    assert(x@ =~= y@);
    true
}

/// Whether a character is white space, as `char::is_whitespace` tells it.
pub uninterp spec fn whitespace(c: char) -> bool;

/// `char::is_whitespace`.
#[verifier::external_body]
pub(crate) fn is_whitespace(c: char) -> (r: bool)
    ensures
        r == whitespace(c),
{
    c.is_whitespace()
}

/// Where what is to be kept starts: behind the flags that are set at the
/// start.
pub open spec fn kept_from(flags: Seq<bool>) -> int
    decreases flags.len(),
{
    if flags.len() > 0 && flags[0] {
        1 + kept_from(flags.drop_first())
    } else {
        0
    }
}

/// Where what is to be kept ends: before the flags that are set at the
/// end, and not before `from`.
pub open spec fn kept_to(flags: Seq<bool>, from: int) -> int
    decreases flags.len(),
{
    if flags.len() > 0 && flags.len() > from && flags.last() {
        kept_to(flags.drop_last(), from)
    } else {
        flags.len() as int
    }
}

/// For each character whether it is white space.
pub open spec fn white_flags(s: Seq<char>) -> Seq<bool> {
    Seq::new(s.len(), |i: int| whitespace(s[i]))
}

/// `s` without the white space at its start and at its end.
pub open spec fn trimmed(s: Seq<char>) -> Seq<char> {
    let flags = white_flags(s);
    s.subrange(kept_from(flags), kept_to(flags, kept_from(flags)))
}

/// What is to be kept lies within the flags.
pub proof fn lemma_kept_bounds(flags: Seq<bool>, from: int)
    requires
        0 <= from <= flags.len(),
    ensures
        0 <= kept_from(flags) <= flags.len(),
        from <= kept_to(flags, from) <= flags.len(),
    decreases flags.len(),
{
    if flags.len() > 0 && flags[0] {
        lemma_kept_bounds(flags.drop_first(), 0);
    }
    if flags.len() > from && flags.last() {
        lemma_kept_bounds(flags.drop_last(), from);
    }
}

/// Where what is left starts and ends once the items whose flags are set
/// are dropped from the start and from the end.
pub fn kept_bounds(flags: &[bool]) -> (r: (usize, usize))
    ensures
        r.0 == kept_from(flags@),
        r.1 == kept_to(flags@, r.0 as int),
        r.0 <= r.1 <= flags@.len(),
{
    let mut from: usize = 0;
    assert(flags@.skip(0) =~= flags@);
    while from < flags.len() && flags[from]
        invariant
            from <= flags@.len(),
            kept_from(flags@) == from + kept_from(flags@.skip(from as int)),
        decreases flags@.len() - from,
    {
        assert(flags@.skip(from as int).drop_first() =~= flags@.skip(from + 1));
        from += 1;
    }
    let mut to: usize = flags.len();
    assert(flags@.take(to as int) =~= flags@);
    while to > from && flags[to - 1]
        invariant
            from <= to <= flags@.len(),
            kept_to(flags@, from as int) == kept_to(flags@.take(to as int), from as int),
        decreases to,
    {
        assert(flags@.take(to as int).drop_last() =~= flags@.take(to - 1));
        to -= 1;
    }
    (from, to)
}

/// Where `chars` starts and ends once the white space around it is left
/// out.
pub fn trim_bounds(chars: &[char]) -> (r: (usize, usize))
    ensures
        r.0 <= r.1 <= chars@.len(),
        trimmed(chars@) == chars@.subrange(r.0 as int, r.1 as int),
{
    let mut flags: Vec<bool> = Vec::new();
    let mut i: usize = 0;
    while i < chars.len()
        invariant
            i <= chars@.len(),
            flags@.len() == i,
            forall|k: int| 0 <= k < i ==> flags@[k] == whitespace(chars@[k]),
        decreases chars@.len() - i,
    {
        flags.push(is_whitespace(chars[i]));
        i += 1;
    }
    assert(flags@ =~= white_flags(chars@));
    kept_bounds(flags.as_slice())
}

/// The number that `s` names in digits of the radix, after an optional
/// `+`, where it lies in the range of `u64`.
pub open spec fn unsigned_of(s: Seq<char>, radix: nat) -> Option<u64> {
    let digits = if s.len() > 0 && s[0] == '+' {
        s.skip(1)
    } else {
        s
    };
    if digits.len() > 0 && all_digits(digits, radix) && digits_value(digits, radix) <= u64::MAX {
        Some(digits_value(digits, radix) as u64)
    } else {
        None
    }
}

/// The number that `s` names in decimal digits, after an optional `+`,
/// where it lies in the range of `u64`.
pub open spec fn decimal_u64(s: Seq<char>) -> Option<u64> {
    unsigned_of(s, 10)
}

/// The digits at the start of a string spell no more than the whole string.
pub proof fn lemma_digits_value_prefix(s: Seq<char>, i: int, radix: nat)
    requires
        0 <= i <= s.len(),
        radix >= 1,
    ensures
        digits_value(s.take(i), radix) <= digits_value(s, radix),
    decreases s.len(),
{
    if i == s.len() {
        assert(s.take(i) =~= s);
    } else {
        lemma_digits_value_prefix(s.drop_last(), i, radix);
        assert(s.drop_last().take(i) =~= s.take(i));
        assert(digits_value(s.drop_last(), radix) * radix >= digits_value(s.drop_last(), radix))
            by (nonlinear_arith)
            requires
                radix >= 1,
        ;
    }
}

/// Reads the number that `chars` names in digits of the radix, after an
/// optional `+`.
pub fn parse_unsigned(chars: &[char], radix: u32) -> (r: Option<u64>)
    requires
        2 <= radix <= 36,
    ensures
        r == unsigned_of(chars@, radix as nat),
{
    let from: usize = if chars.len() > 0 && chars[0] == '+' {
        1
    } else {
        0
    };
    if chars.len() == from {
        return None;
    }
    let ghost digits = chars@.skip(from as int);
    assert(chars@.skip(0) =~= chars@);
    let mut n: u64 = 0;
    let mut i: usize = from;
    assert(digits.take(0) =~= Seq::<char>::empty());
    while i < chars.len()
        invariant
            from <= i <= chars@.len(),
            from <= 1,
            from == 1 <==> chars@.len() > 0 && chars@[0] == '+',
            2 <= radix <= 36,
            digits == chars@.skip(from as int),
            all_digits(digits.take(i - from), radix as nat),
            n == digits_value(digits.take(i - from), radix as nat),
        decreases chars@.len() - i,
    {
        let d = match to_digit(chars[i], radix) {
            Some(d) => d,
            None => {
                assert(digits[i - from] == chars@[i as int]);
                assert(chars@.skip(0) =~= chars@);
                return None;
            },
        };
        proof {
            let next = digits.take(i + 1 - from);
            assert(next.drop_last() =~= digits.take(i - from));
            assert(next.last() == chars@[i as int]);
            lemma_digits_value_prefix(digits, i + 1 - from, radix as nat);
            assert forall|k: int| 0 <= k < next.len() implies is_digit(
                #[trigger] next[k],
                radix as nat,
            ) by {
                if k < next.len() - 1 {
                    assert(next[k] == digits.take(i - from)[k]);
                }
            }
            assert(digits_value(next, radix as nat) == n * radix + d);
            assert(chars@.skip(0) =~= chars@);
        }
        let scaled = match n.checked_mul(radix as u64) {
            Some(v) => v,
            None => {
                return None;
            },
        };
        n = match scaled.checked_add(d as u64) {
            Some(v) => v,
            None => {
                return None;
            },
        };
        i += 1;
    }
    assert(digits.take(digits.len() as int) =~= digits);
    Some(n)
}

/// Reads a number in decimal digits, after an optional `+`.
pub fn parse_decimal(s: &str) -> (r: Option<u64>)
    ensures
        r == decimal_u64(s@),
{
    let chars = chars_of(s);
    parse_unsigned(chars.as_slice(), 10)
}

/// The decimal digits of `n`.
pub fn decimal(n: u64) -> (r: String)
    ensures
        r@ == radix_digits(n as nat, 10),
{
    let mut reversed: Vec<char> = Vec::new();
    let mut rest: u64 = n;
    while rest >= 10
        invariant
            radix_digits(n as nat, 10) == radix_digits(rest as nat, 10) + reversed@.reverse(),
        decreases rest,
    {
        let d: u8 = (rest % 10) as u8;
        let c: char = (48 + d) as char;
        proof {
            let ghost before = reversed@;
            lemma_quotient_smaller(rest as nat, 10);
            assert(c == digit_char((rest % 10) as nat));
            assert(before.push(c).reverse() =~= seq![c] + before.reverse());
            assert(radix_digits(rest as nat, 10) + before.reverse() =~= radix_digits(
                (rest / 10) as nat,
                10,
            ) + (seq![c] + before.reverse()));
        }
        reversed.push(c);
        rest = rest / 10;
    }
    let last: char = (48 + rest as u8) as char;
    assert(last == digit_char(rest as nat));
    let mut r = String::new();
    push_char(&mut r, last);
    let mut i: usize = reversed.len();
    while i > 0
        invariant
            i <= reversed@.len(),
            r@ == seq![last] + reversed@.reverse().take(reversed@.len() - i),
        decreases i,
    {
        i -= 1;
        push_char(&mut r, reversed[i]);
        assert(r@ =~= seq![last] + reversed@.reverse().take(reversed@.len() - i));
    }
    assert(reversed@.reverse().take(reversed@.len() as int) =~= reversed@.reverse());
    r
}

} // verus!
