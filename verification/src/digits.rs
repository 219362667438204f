//! Digits of number literals in the radices 2 to 36.

use vstd::prelude::*;

verus! {

/// The value of `c` as a digit: `0`-`9`, then the letters of either case
/// from ten on. `None` for every other character.
pub open spec fn digit_of(c: char) -> Option<nat> {
    if '0' <= c <= '9' {
        Some((c as nat - '0' as nat) as nat)
    } else if 'a' <= c <= 'z' {
        Some((c as nat - 'a' as nat + 10) as nat)
    } else if 'A' <= c <= 'Z' {
        Some((c as nat - 'A' as nat + 10) as nat)
    } else {
        None
    }
}

/// Whether `c` is a digit of the given radix.
pub open spec fn is_digit(c: char, radix: nat) -> bool {
    digit_of(c) matches Some(d) && d < radix
}

/// Whether every character of `s` is a digit of the given radix.
pub open spec fn all_digits(s: Seq<char>, radix: nat) -> bool {
    forall|i: int| 0 <= i < s.len() ==> is_digit(#[trigger] s[i], radix)
}

/// The first character of `s` that is no digit of the given radix.
pub open spec fn first_non_digit(s: Seq<char>, radix: nat) -> Option<char>
    decreases s.len(),
{
    if s.len() == 0 {
        None
    } else if !is_digit(s[0], radix) {
        Some(s[0])
    } else {
        first_non_digit(s.drop_first(), radix)
    }
}

/// The number that the digit string `s` spells in the given radix, most
/// significant digit first. A character that is no digit counts as zero.
pub open spec fn digits_value(s: Seq<char>, radix: nat) -> nat
    decreases s.len(),
{
    if s.len() == 0 {
        0
    } else {
        digits_value(s.drop_last(), radix) * radix + match digit_of(s.last()) {
            Some(d) => d,
            None => 0,
        }
    }
}

/// The character for the digit `d`, in lower case from ten on.
pub open spec fn digit_char(d: nat) -> char {
    if d < 10 {
        (48 + d) as char
    } else {
        (87 + d) as char
    }
}

/// The digits of `m` in the given radix, most significant digit first,
/// without leading zeros; zero is the single digit `0`.
pub open spec fn radix_digits(m: nat, radix: nat) -> Seq<char>
    decreases m,
{
    if m < radix || radix < 2 {
        seq![digit_char(m)]
    } else {
        proof {
            lemma_quotient_smaller(m, radix);
        }
        radix_digits(m / radix, radix).push(digit_char(m % radix))
    }
}

/// Dividing by two or more makes a positive number smaller, and the
/// remainder stays below the divisor.
pub proof fn lemma_quotient_smaller(m: nat, radix: nat)
    by (nonlinear_arith)
    requires
        radix >= 2,
        m >= 1,
    ensures
        m / radix < m,
        m % radix < radix,
        m == (m / radix) * radix + m % radix,
{
}

/// `digit_char` and `digit_of` undo each other below 36.
pub proof fn lemma_digit_char(d: nat)
    requires
        d < 36,
    ensures
        digit_of(digit_char(d)) == Some(d),
        d < 10 ==> '0' <= digit_char(d) <= '9',
        d >= 10 ==> 'a' <= digit_char(d) <= 'z',
{
}

/// Nothing in a string of digits is the first non-digit, and the other way
/// round.
pub proof fn lemma_first_non_digit(s: Seq<char>, radix: nat)
    ensures
        first_non_digit(s, radix) is None <==> all_digits(s, radix),
        first_non_digit(s, radix) matches Some(c) ==> !is_digit(c, radix) && s.contains(c),
    decreases s.len(),
{
    if s.len() == 0 {
    } else if !is_digit(s[0], radix) {
        assert(s.contains(s[0]));
    } else {
        let t = s.drop_first();
        lemma_first_non_digit(t, radix);
        if all_digits(t, radix) {
            assert forall|i: int| 0 <= i < s.len() implies is_digit(#[trigger] s[i], radix) by {
                if i > 0 {
                    assert(s[i] == t[i - 1]);
                }
            }
        } else {
            let i = choose|i: int| 0 <= i < t.len() && !is_digit(#[trigger] t[i], radix);
            assert(s[i + 1] == t[i]);
        }
        match first_non_digit(t, radix) {
            Some(c) => {
                let j = choose|j: int| 0 <= j < t.len() && t[j] == c;
                assert(s[j + 1] == c);
            },
            None => {},
        }
    }
}

/// The digits of a number are digits of the radix, at least one of them.
pub proof fn lemma_radix_digits_valid(m: nat, radix: nat)
    requires
        2 <= radix <= 36,
    ensures
        radix_digits(m, radix).len() >= 1,
        all_digits(radix_digits(m, radix), radix),
    decreases m,
{
    if m < radix {
        lemma_digit_char(m);
    } else {
        lemma_quotient_smaller(m, radix);
        lemma_radix_digits_valid(m / radix, radix);
        lemma_digit_char(m % radix);
    }
}

/// Reading the digits of a number gives the number back.
pub proof fn lemma_radix_digits_value(m: nat, radix: nat)
    requires
        2 <= radix <= 36,
    ensures
        digits_value(radix_digits(m, radix), radix) == m,
    decreases m,
{
    if m < radix {
        lemma_digit_char(m);
        assert(radix_digits(m, radix).drop_last() =~= Seq::<char>::empty());
        assert(digits_value(Seq::<char>::empty(), radix) == 0);
        assert(digits_value(Seq::<char>::empty(), radix) * radix == 0) by (nonlinear_arith)
            requires
                digits_value(Seq::<char>::empty(), radix) == 0,
        ;
    } else {
        let hi = radix_digits(m / radix, radix);
        lemma_quotient_smaller(m, radix);
        lemma_radix_digits_value(m / radix, radix);
        lemma_digit_char(m % radix);
        assert(radix_digits(m, radix).drop_last() =~= hi);
    }
}

/// The value of `c` as a digit of `radix`, if it is one.
pub fn to_digit(c: char, radix: u32) -> (r: Option<u32>)
    requires
        2 <= radix <= 36,
    ensures
        r is Some <==> is_digit(c, radix as nat),
        r matches Some(d) ==> digit_of(c) == Some(d as nat),
{
    let code: u32 = c as u32;
    let found: Option<u32> = if '0' <= c && c <= '9' {
        Some(code - 48)
    } else if 'a' <= c && c <= 'z' {
        Some(code - 97 + 10)
    } else if 'A' <= c && c <= 'Z' {
        Some(code - 65 + 10)
    } else {
        None
    };
    match found {
        Some(d) => if d < radix {
            Some(d)
        } else {
            None
        },
        None => None,
    }
}

} // verus!
