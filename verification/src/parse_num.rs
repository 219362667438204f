//! Number literals: an optional `-`, an optional radix prefix (`0x`, `0o`,
//! `0b`; without one the radix is ten), and digits. A literal is read into
//! the shortest two's-complement spelling of its number, most significant
//! byte first.
//!
//! A masked literal has `z` among its digits. It is read into two numbers:
//! the value, with zero for each `z`, and the mask, with zero for each `z`
//! and the highest digit of the radix for every other digit.

use vstd::prelude::*;
use crate::bigint::{
    bigint_digits, bigint_from_digits, bigint_from_u32, bigint_negate, bigint_signed_bytes,
};
use crate::bytes::{left_pad, sign_extended, signed_be_bytes};
use crate::digits::{
    all_digits, digit_char, digits_value, first_non_digit, is_digit, lemma_digit_char,
    lemma_first_non_digit, lemma_radix_digits_valid, lemma_radix_digits_value, radix_digits,
    to_digit,
};
use crate::masks::{lemma_value_within_mask, masked_by};
use crate::text::{chars_of, decimal, push_char, string_of};
use vstd::string::StringExecFns;

verus! {

/// Why a number literal was refused.
#[derive(Clone, Copy, Debug, PartialEq, Eq, Structural)]
pub enum ParseError {
    /// The literal starts neither with a radix prefix nor with a decimal
    /// digit.
    InvalidRadix,
    /// A character that is no digit of the radix.
    InvalidDigit(char, u32),
    /// A masked literal whose radix is no power of two.
    InvalidMaskRadix,
    /// A radix prefix with no digit behind it.
    NoDigits,
}

impl ParseError {
    /// The error in words.
    pub fn message(&self) -> (r: String)
        ensures
            *self is InvalidRadix ==> r@ == "could not determine radix"@,
            *self is InvalidMaskRadix ==> r@
                == "invald radix, expected radix of from 2^n for masked numbers"@,
            *self is NoDigits ==> r@ == "cannot parse integer from empty string"@,
            *self matches ParseError::InvalidDigit(c, radix) ==> r@ == invalid_digit_text(c, radix),
    {
        match self {
            ParseError::InvalidRadix => "could not determine radix".to_owned(),
            ParseError::InvalidMaskRadix => {
                "invald radix, expected radix of from 2^n for masked numbers".to_owned()
            },
            ParseError::NoDigits => "cannot parse integer from empty string".to_owned(),
            ParseError::InvalidDigit(c, radix) => invalid_digit_message(*c, *radix),
        }
    }
}

/// The words for a character that is no digit of the radix.
pub open spec fn invalid_digit_text(c: char, radix: u32) -> Seq<char> {
    "invalid digit "@ + seq![c] + " for radix "@ + radix_digits(radix as nat, 10)
}

/// The words for a character that is no digit of the radix.
fn invalid_digit_message(c: char, radix: u32) -> (r: String)
    ensures
        r@ == invalid_digit_text(c, radix),
{
    let mut r = "invalid digit ".to_owned();
    push_char(&mut r, c);
    r.append(" for radix ");
    let number = decimal(radix as u64);
    r.append(number.as_str());
    r
}

/// Whether the literal has a leading `-`.
pub open spec fn is_negative(s: Seq<char>) -> bool {
    s.len() > 0 && s[0] == '-'
}

/// The length of the sign: one or zero.
pub open spec fn sign_len(s: Seq<char>) -> nat {
    if is_negative(s) {
        1
    } else {
        0
    }
}

/// The radix that the start of `u` announces, and the length of the prefix
/// that announces it. `u` is a literal without its sign.
pub open spec fn radix_prefix(u: Seq<char>) -> Option<(u32, nat)> {
    if u.len() >= 2 && u[0] == '0' && u[1] == 'x' {
        Some((16u32, 2nat))
    } else if u.len() >= 2 && u[0] == '0' && u[1] == 'o' {
        Some((8u32, 2nat))
    } else if u.len() >= 2 && u[0] == '0' && u[1] == 'b' {
        Some((2u32, 2nat))
    } else if u.len() >= 1 && '0' <= u[0] <= '9' {
        Some((10u32, 0nat))
    } else {
        None
    }
}

/// The sign of a literal, its radix, and where its digits start.
pub open spec fn literal_head(s: Seq<char>) -> Result<(bool, u32, nat), ParseError> {
    match radix_prefix(s.skip(sign_len(s) as int)) {
        Some((radix, n)) => Ok((is_negative(s), radix, sign_len(s) + n)),
        None => Err(ParseError::InvalidRadix),
    }
}

/// `m` with the given sign.
pub open spec fn signed(negative: bool, m: nat) -> int {
    if negative {
        -(m as int)
    } else {
        m as int
    }
}

/// The bytes for a string of digits.
pub open spec fn digits_bytes(digits: Seq<char>, radix: u32, negative: bool) -> Result<
    Seq<u8>,
    ParseError,
> {
    if digits.len() == 0 {
        Err(ParseError::NoDigits)
    } else {
        Ok(signed_be_bytes(signed(negative, digits_value(digits, radix as nat))))
    }
}

/// What `parse_num` makes of the literal `s`.
pub open spec fn parse_num_spec(s: Seq<char>) -> Result<Seq<u8>, ParseError> {
    match literal_head(s) {
        Err(e) => Err(e),
        Ok((negative, radix, start)) => {
            let digits = s.skip(start as int);
            match first_non_digit(digits, radix as nat) {
                Some(c) => Err(ParseError::InvalidDigit(c, radix)),
                None => digits_bytes(digits, radix, negative),
            }
        },
    }
}

/// The digits of a masked literal with `0` in place of each `z`.
pub open spec fn value_digits(digits: Seq<char>) -> Seq<char> {
    digits.map_values(
        |c: char|
            if c == 'z' {
                '0'
            } else {
                c
            },
    )
}

/// The digits of a masked literal with `0` in place of each `z` and `top`
/// in place of every other character.
pub open spec fn mask_digits(digits: Seq<char>, top: char) -> Seq<char> {
    digits.map_values(
        |c: char|
            if c == 'z' {
                '0'
            } else {
                top
            },
    )
}

/// What `parse_num_mask` makes of the literal `s`: the mask, if `s` has a
/// `z`, and the value.
pub open spec fn parse_num_mask_spec(s: Seq<char>) -> Result<(Option<Seq<u8>>, Seq<u8>), ParseError> {
    if !s.contains('z') {
        match parse_num_spec(s) {
            Ok(value) => Ok((None, value)),
            Err(e) => Err(e),
        }
    } else {
        match literal_head(s) {
            Err(e) => Err(e),
            Ok((negative, radix, start)) => {
                let digits = s.skip(start as int);
                if radix == 10 {
                    Err(ParseError::InvalidMaskRadix)
                } else {
                    match first_non_digit(value_digits(digits), radix as nat) {
                        Some(c) => Err(ParseError::InvalidDigit(c, radix)),
                        None => Ok(
                            (
                                Some(
                                    signed_be_bytes(
                                        signed(
                                            negative,
                                            digits_value(
                                                mask_digits(digits, digit_char((radix - 1) as nat)),
                                                radix as nat,
                                            ),
                                        ),
                                    ),
                                ),
                                signed_be_bytes(
                                    signed(
                                        negative,
                                        digits_value(value_digits(digits), radix as nat),
                                    ),
                                ),
                            ),
                        ),
                    }
                }
            },
        }
    }
}

/// The bytes of a result as a sequence.
pub open spec fn bytes_view(r: Result<Vec<u8>, ParseError>) -> Result<Seq<u8>, ParseError> {
    match r {
        Ok(v) => Ok(v@),
        Err(e) => Err(e),
    }
}

/// Mask and value of a result as sequences.
pub open spec fn masked_view(r: Result<(Option<Vec<u8>>, Vec<u8>), ParseError>) -> Result<
    (Option<Seq<u8>>, Seq<u8>),
    ParseError,
> {
    match r {
        Ok((Some(mask), value)) => Ok((Some(mask@), value@)),
        Ok((None, value)) => Ok((None, value@)),
        Err(e) => Err(e),
    }
}

/// Reads the head of a literal: whether it is negative, its radix, and the
/// index of its first digit.
pub fn get_negative_radix_start(s: &[char]) -> (r: Result<(bool, u32, usize), ParseError>)
    ensures
        match literal_head(s@) {
            Ok((negative, radix, start)) => r == Ok::<(bool, u32, usize), ParseError>(
                (negative, radix, start as usize),
            ) && start <= s@.len() && (radix == 2 || radix == 8 || radix == 10 || radix == 16),
            Err(e) => r == Err::<(bool, u32, usize), ParseError>(e),
        },
{
    let negative = s.len() > 0 && s[0] == '-';
    let at: usize = if negative {
        1
    } else {
        0
    };
    if s.len() - at >= 1 {
        let first = s[at];
        assert(s@.skip(at as int)[0] == first);
        if s.len() - at >= 2 && first == '0' {
            let second = s[at + 1];
            assert(s@.skip(at as int)[1] == second);
            if second == 'x' {
                return Ok((negative, 16, at + 2));
            } else if second == 'o' {
                return Ok((negative, 8, at + 2));
            } else if second == 'b' {
                return Ok((negative, 2, at + 2));
            }
        }
        if '0' <= first && first <= '9' {
            return Ok((negative, 10, at));
        }
    }
    Err(ParseError::InvalidRadix)
}

/// The first of `chars[from..]` that is no digit of the radix, with `0` for
/// `z` where `masked` is set.
fn find_non_digit(chars: &[char], from: usize, radix: u32, masked: bool) -> (r: Option<char>)
    requires
        from <= chars@.len(),
        2 <= radix <= 36,
    ensures
        r == first_non_digit(
            if masked {
                value_digits(chars@.skip(from as int))
            } else {
                chars@.skip(from as int)
            },
            radix as nat,
        ),
{
    let ghost digits = if masked {
        value_digits(chars@.skip(from as int))
    } else {
        chars@.skip(from as int)
    };
    let mut i: usize = chars.len();
    let mut found: Option<char> = None;
    while i > from
        invariant
            from <= i <= chars@.len(),
            2 <= radix <= 36,
            digits == if masked {
                value_digits(chars@.skip(from as int))
            } else {
                chars@.skip(from as int)
            },
            found == first_non_digit(digits.skip(i - from), radix as nat),
        decreases i,
    {
        i -= 1;
        let c = if masked && chars[i] == 'z' {
            '0'
        } else {
            chars[i]
        };
        assert(digits.skip(i - from)[0] == c);
        assert(digits.skip(i - from).drop_first() =~= digits.skip(i + 1 - from));
        if to_digit(c, radix).is_none() {
            found = Some(c);
        }
    }
    assert(digits.skip(0) =~= digits);
    found
}

/// The bytes of the number that `digits` spells, negated where `negative`
/// is set.
fn str_to_vec_radix_negative(digits: &str, radix: u32, negative: bool) -> (r: Result<
    Vec<u8>,
    ParseError,
>)
    requires
        2 <= radix <= 36,
        all_digits(digits@, radix as nat),
    ensures
        bytes_view(r) == digits_bytes(digits@, radix, negative),
{
    match bigint_from_digits(digits, radix) {
        Ok(n) => {
            let n = if negative {
                bigint_negate(n)
            } else {
                n
            };
            Ok(bigint_signed_bytes(&n))
        },
        Err(_) => Err(ParseError::NoDigits),
    }
}

/// Reads a number literal into the shortest two's-complement spelling of
/// its number, most significant byte first.
pub fn parse_num(string: &str) -> (r: Result<Vec<u8>, ParseError>)
    ensures
        bytes_view(r) == parse_num_spec(string@),
{
    let chars = chars_of(string);
    let (negative, radix, start) = match get_negative_radix_start(chars.as_slice()) {
        Ok(head) => head,
        Err(e) => {
            return Err(e);
        },
    };
    match find_non_digit(chars.as_slice(), start, radix, false) {
        Some(c) => {
            return Err(ParseError::InvalidDigit(c, radix));
        },
        None => {},
    }
    proof {
        lemma_first_non_digit(chars@.skip(start as int), radix as nat);
    }
    let digits = string_of(chars.as_slice(), start, chars.len());
    str_to_vec_radix_negative(digits.as_str(), radix, negative)
}

/// Whether `c` is among `chars`.
fn has_char(chars: &[char], c: char) -> (r: bool)
    ensures
        r == chars@.contains(c),
{
    let mut i: usize = 0;
    while i < chars.len()
        invariant
            i <= chars@.len(),
            forall|k: int| 0 <= k < i ==> chars@[k] != c,
        decreases chars@.len() - i,
    {
        if chars[i] == c {
            return true;
        }
        i += 1;
    }
    false
}

/// Nothing before the first digit of a literal is a `z`.
proof fn lemma_head_has_no_z(s: Seq<char>, k: int)
    requires
        literal_head(s) is Ok,
        0 <= k < literal_head(s)->Ok_0.2,
        k < s.len(),
    ensures
        s[k] != 'z',
{
    let u = s.skip(sign_len(s) as int);
    if k >= sign_len(s) {
        assert(u[k - sign_len(s)] == s[k]);
    }
}

/// Reads a literal that may be masked. Without a `z` it is read as
/// `parse_num` reads it, and there is no mask. With a `z` the radix has to be
/// a power of two, and the result holds the mask and the value.
pub fn parse_num_mask(s: &str) -> (r: Result<(Option<Vec<u8>>, Vec<u8>), ParseError>)
    ensures
        masked_view(r) == parse_num_mask_spec(s@),
        r matches Ok(pair) ==> (pair.0 is None <==> !s@.contains('z')),
        r matches Ok((Some(mask), value)) ==> is_negative(s@) || masked_by(value@, mask@),
{
    let chars = chars_of(s);
    if !has_char(chars.as_slice(), 'z') {
        return match parse_num(s) {
            Ok(value) => Ok((None, value)),
            Err(e) => Err(e),
        };
    }
    let (negative, radix, start) = match get_negative_radix_start(chars.as_slice()) {
        Ok(head) => head,
        Err(e) => {
            return Err(e);
        },
    };
    if radix == 10 {
        return Err(ParseError::InvalidMaskRadix);
    }
    let top_text = bigint_digits(&bigint_from_u32(radix - 1), radix);
    let top = top_text.as_str().get_char(0);
    let ghost digits = chars@.skip(start as int);
    proof {
        lemma_digit_char((radix - 1) as nat);
        let k = choose|k: int| 0 <= k < chars@.len() && chars@[k] == 'z';
        if k < start {
            lemma_head_has_no_z(chars@, k);
        }
        assert(digits.len() > 0);
    }
    match find_non_digit(chars.as_slice(), start, radix, true) {
        Some(c) => {
            return Err(ParseError::InvalidDigit(c, radix));
        },
        None => {},
    }
    let mut mask_chars: Vec<char> = Vec::new();
    let mut value_chars: Vec<char> = Vec::new();
    let mut i: usize = start;
    while i < chars.len()
        invariant
            start <= i <= chars@.len(),
            digits == chars@.skip(start as int),
            mask_chars@ == mask_digits(digits.take(i - start), top),
            value_chars@ == value_digits(digits.take(i - start)),
        decreases chars@.len() - i,
    {
        let c = chars[i];
        if c == 'z' {
            mask_chars.push('0');
            value_chars.push('0');
        } else {
            mask_chars.push(top);
            value_chars.push(c);
        }
        i += 1;
        assert(digits.take(i - start).drop_last() =~= digits.take(i - 1 - start));
        assert(mask_chars@ =~= mask_digits(digits.take(i - start), top));
        assert(value_chars@ =~= value_digits(digits.take(i - start)));
    }
    let mask_string = string_of(mask_chars.as_slice(), 0, mask_chars.len());
    let value_string = string_of(value_chars.as_slice(), 0, value_chars.len());
    proof {
        assert(digits.take(digits.len() as int) =~= digits);
        assert(mask_chars@.subrange(0, mask_chars@.len() as int) =~= mask_chars@);
        assert(value_chars@.subrange(0, value_chars@.len() as int) =~= value_chars@);
        lemma_first_non_digit(value_digits(digits), radix as nat);
        assert(is_digit('0', radix as nat));
        assert(is_digit(top, radix as nat));
        assert(all_digits(mask_string@, radix as nat));
    }
    let mask = match str_to_vec_radix_negative(mask_string.as_str(), radix, negative) {
        Ok(mask) => mask,
        Err(e) => {
            return Err(e);
        },
    };
    let value = match str_to_vec_radix_negative(value_string.as_str(), radix, negative) {
        Ok(value) => value,
        Err(e) => {
            return Err(e);
        },
    };
    proof {
        if !is_negative(s@) {
            lemma_value_within_mask(s@);
        }
    }
    Ok((Some(mask), value))
}

/// What `parse_num_padded` makes of the literal `s`.
pub open spec fn parse_num_padded_spec(s: Seq<char>, width: Option<usize>) -> Result<
    Seq<u8>,
    ParseError,
> {
    match (parse_num_spec(s), width) {
        (Ok(bytes), Some(w)) => Ok(sign_extended(bytes, w as nat)),
        (r, _) => r,
    }
}

/// Reads a number literal as `parse_num` does, and extends the bytes on the
/// left to `width` bytes where a width is asked for: with `0x00` for a
/// number that is not negative, with `0xFF` for a negative one. Bytes that
/// are as long as `width` or longer are left as they are.
pub fn parse_num_padded(s: &str, width: Option<usize>) -> (r: Result<Vec<u8>, ParseError>)
    ensures
        bytes_view(r) == parse_num_padded_spec(s@, width),
{
    let bytes = match parse_num(s) {
        Ok(bytes) => bytes,
        Err(e) => {
            return Err(e);
        },
    };
    match width {
        Some(w) => {
            let fill: u8 = if bytes.len() > 0 && bytes[0] >= 128 {
                0xFF
            } else {
                0
            };
            Ok(left_pad(bytes, w, fill))
        },
        None => Ok(bytes),
    }
}

/// The prefix that announces a radix in a literal; none for ten.
pub open spec fn radix_marker(radix: nat) -> Seq<char> {
    if radix == 16 {
        seq!['0', 'x']
    } else if radix == 8 {
        seq!['0', 'o']
    } else if radix == 2 {
        seq!['0', 'b']
    } else {
        Seq::<char>::empty()
    }
}

/// The literal for `n` in the given radix: `-` for a negative number, the
/// prefix of the radix, and the digits of the magnitude.
pub open spec fn literal_of(n: int, radix: nat) -> Seq<char> {
    let sign = if n < 0 {
        seq!['-']
    } else {
        Seq::<char>::empty()
    };
    let magnitude = if n < 0 {
        (-n) as nat
    } else {
        n as nat
    };
    sign + radix_marker(radix) + radix_digits(magnitude, radix)
}

/// The digits of a number in radix ten start with a decimal digit, and a
/// second digit is no letter.
proof fn lemma_decimal_digits_head(m: nat)
    ensures
        radix_digits(m, 10).len() >= 1,
        '0' <= radix_digits(m, 10)[0] <= '9',
        radix_digits(m, 10).len() >= 2 ==> '0' <= radix_digits(m, 10)[1] <= '9',
{
    let digits = radix_digits(m, 10);
    lemma_radix_digits_valid(m, 10);
    assert(is_digit(digits[0], 10));
    if digits.len() >= 2 {
        assert(is_digit(digits[1], 10));
    }
}

/// The head of the literal for a number: its sign, its radix, and the
/// digits of its magnitude after the prefix.
proof fn lemma_literal_head(n: int, radix: nat)
    requires
        radix == 2 || radix == 8 || radix == 10 || radix == 16,
    ensures
        literal_head(literal_of(n, radix)) matches Ok((negative, r, start)) && negative == (n < 0)
            && r == radix && literal_of(n, radix).skip(start as int) == radix_digits(
            if n < 0 {
                (-n) as nat
            } else {
                n as nat
            },
            radix,
        ),
{
    let s = literal_of(n, radix);
    let magnitude = if n < 0 {
        (-n) as nat
    } else {
        n as nat
    };
    let digits = radix_digits(magnitude, radix);
    let marker = radix_marker(radix);
    lemma_radix_digits_valid(magnitude, radix);
    assert(is_digit(digits[0], radix));
    let u = marker + digits;
    if n < 0 {
        assert(s =~= seq!['-'] + u);
        assert(s[0] == '-');
        assert(s.skip(1) =~= u);
    } else {
        assert(s =~= u);
        assert(s[0] != '-') by {
            if radix == 10 {
                assert(s[0] == digits[0]);
            } else {
                assert(s[0] == '0');
            }
        }
        assert(s.skip(0) =~= u);
    }
    assert(is_negative(s) == (n < 0));
    assert(s.skip(sign_len(s) as int) == u);
    if radix == 10 {
        lemma_decimal_digits_head(magnitude);
        assert(u =~= digits);
        assert(radix_prefix(u) == Some((10u32, 0nat)));
        assert(s.skip(sign_len(s) as int) == digits);
    } else {
        assert(u[0] == '0');
        assert(u[1] == marker[1]);
        assert(radix_prefix(u) == Some((radix as u32, 2nat)));
        assert(s.skip((sign_len(s) + 2) as int) =~= digits);
    }
}

/// Writing a number as a literal in radix 2, 8, 10 or 16 and reading the
/// literal gives the shortest two's-complement spelling of the number.
pub proof fn lemma_parse_num_of_literal(n: int, radix: nat)
    requires
        radix == 2 || radix == 8 || radix == 10 || radix == 16,
    ensures
        parse_num_spec(literal_of(n, radix)) == Ok::<Seq<u8>, ParseError>(signed_be_bytes(n)),
{
    let magnitude = if n < 0 {
        (-n) as nat
    } else {
        n as nat
    };
    let digits = radix_digits(magnitude, radix);
    lemma_literal_head(n, radix);
    lemma_radix_digits_valid(magnitude, radix);
    lemma_radix_digits_value(magnitude, radix);
    lemma_first_non_digit(digits, radix);
}

} // verus!
