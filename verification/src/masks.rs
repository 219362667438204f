//! Masks: which bits of a value a write may touch.
//!
//! A number lies within a mask when each bit that is set in the number is
//! set in the mask too. The module carries that relation from the digits of
//! a masked literal over the two numbers to their bytes.

use vstd::prelude::*;
use crate::bytes::signed_be_bytes;
use crate::digits::{all_digits, digit_char, digit_of, digits_value, is_digit, lemma_digit_char};
use crate::parse_num::{
    is_negative, literal_head, mask_digits, parse_num_mask_spec, value_digits,
};

verus! {

/// Whether each bit that is set in `v` is set in `m`.
pub open spec fn bits_within(v: nat, m: nat) -> bool
    decreases v,
{
    if v == 0 {
        true
    } else {
        v % 2 <= m % 2 && bits_within(v / 2, m / 2)
    }
}

/// Whether `r` is a power of two.
pub open spec fn is_power_of_two(r: nat) -> bool
    decreases r,
{
    r == 1 || (r >= 2 && r % 2 == 0 && is_power_of_two(r / 2))
}

/// Whether `value`, lined up with the end of `mask`, has no bit set that
/// `mask` has not: byte for byte, `value & mask == value`.
pub open spec fn masked_by(value: Seq<u8>, mask: Seq<u8>) -> bool {
    value.len() <= mask.len() && forall|i: int|
        0 <= i < value.len() ==> (#[trigger] value[i]) & mask[mask.len() - value.len() + i]
            == value[i]
}

/// The least of three lengths.
pub open spec fn least_len(a: nat, b: nat, c: nat) -> nat {
    if a <= b && a <= c {
        a
    } else if b <= c {
        b
    } else {
        c
    }
}

/// The bytes that a masked write puts into a register: byte for byte from
/// the left, `value` where the mask is set and `current` where it is not.
/// There are as many bytes as the shortest of the three has.
pub open spec fn merged(mask: Seq<u8>, value: Seq<u8>, current: Seq<u8>) -> Seq<u8> {
    Seq::new(
        least_len(mask.len(), value.len(), current.len()),
        |i: int| (value[i] & mask[i]) | (current[i] & !mask[i]),
    )
}

/// A merged byte has the bits of the value where the mask is set, and the
/// bits that were there where it is not.
pub proof fn lemma_merged_byte(mask: u8, value: u8, current: u8)
    ensures
        ((value & mask) | (current & !mask)) & mask == value & mask,
        ((value & mask) | (current & !mask)) & !mask == current & !mask,
{
    assert(((value & mask) | (current & !mask)) & mask == value & mask) by (bit_vector);
    assert(((value & mask) | (current & !mask)) & !mask == current & !mask) by (bit_vector);
}

/// Merges `value` into `current` under `mask`. What lies outside the mask
/// stays as it is in `current`.
pub fn merge_masked(mask: &[u8], value: &[u8], current: &[u8]) -> (r: Vec<u8>)
    ensures
        r@ == merged(mask@, value@, current@),
        forall|i: int|
            0 <= i < r@.len() ==> (#[trigger] r@[i]) & !mask@[i] == current@[i] & !mask@[i],
        forall|i: int| 0 <= i < r@.len() ==> (#[trigger] r@[i]) & mask@[i] == value@[i] & mask@[i],
{
    let mut r: Vec<u8> = Vec::new();
    let mut i: usize = 0;
    while i < mask.len() && i < value.len() && i < current.len()
        invariant
            i <= least_len(mask@.len(), value@.len(), current@.len()),
            r@.len() == i,
            forall|k: int|
                0 <= k < i ==> r@[k] == (value@[k] & mask@[k]) | (current@[k] & !mask@[k]),
        decreases mask@.len() - i,
    {
        r.push((value[i] & mask[i]) | (current[i] & !mask[i]));
        i += 1;
    }
    assert(r@ =~= merged(mask@, value@, current@));
    assert forall|i: int| 0 <= i < r@.len() implies (#[trigger] r@[i]) & !mask@[i] == current@[i]
        & !mask@[i] && r@[i] & mask@[i] == value@[i] & mask@[i] by {
        lemma_merged_byte(mask@[i], value@[i], current@[i]);
    }
    r
}

/// A number within a mask is not greater than the mask.
pub proof fn lemma_within_is_le(v: nat, m: nat)
    requires
        bits_within(v, m),
    ensures
        v <= m,
    decreases v,
{
    if v != 0 {
        lemma_within_is_le(v / 2, m / 2);
    }
}

/// Every number below a power of two lies within the power less one.
pub proof fn lemma_within_ones(x: nat, r: nat)
    requires
        is_power_of_two(r),
        x < r,
    ensures
        bits_within(x, (r - 1) as nat),
    decreases r,
{
    if r != 1 && x != 0 {
        lemma_within_ones(x / 2, r / 2);
        assert((r - 1) as nat / 2 == (r / 2 - 1) as nat);
    }
}

/// Two numbers written in a radix that is a power of two: the first lies
/// within the second exactly if its last digit and the digits before it do.
pub proof fn lemma_within_by_digit(a: nat, x: nat, b: nat, y: nat, r: nat)
    requires
        is_power_of_two(r),
        x < r,
        y < r,
    ensures
        bits_within(a * r + x, b * r + y) <==> bits_within(a, b) && bits_within(x, y),
    decreases r,
{
    if r == 1 {
        assert(a * 1 + 0 == a && b * 1 + 0 == b) by (nonlinear_arith);
    } else {
        let h = r / 2;
        let v = a * r + x;
        let m = b * r + y;
        assert(a * r == 2 * (a * h) && b * r == 2 * (b * h)) by (nonlinear_arith)
            requires
                r == 2 * h,
        ;
        assert(v / 2 == a * h + x / 2);
        assert(m / 2 == b * h + y / 2);
        assert(v % 2 == x % 2 && m % 2 == y % 2);
        lemma_within_by_digit(a, x / 2, b, y / 2, h);
        if v == 0 {
            assert(a * r >= a) by (nonlinear_arith)
                requires
                    r >= 1,
            ;
        }
    }
}

/// Byte for byte, lying within a mask is `x & y == x`.
pub proof fn lemma_within_byte(x: u8, y: u8)
    requires
        bits_within(x as nat, y as nat),
    ensures
        x & y == x,
    decreases x,
{
    if x == 0 {
        assert(0u8 & y == 0u8) by (bit_vector);
    } else {
        let hx: u8 = x >> 1;
        let hy: u8 = y >> 1;
        assert(hx == x / 2 && hy == y / 2 && x & 1 == x % 2 && y & 1 == y % 2) by (bit_vector)
            requires
                hx == x >> 1,
                hy == y >> 1,
        ;
        lemma_within_byte(hx, hy);
        assert(x & y == x) by (bit_vector)
            requires
                hx == x >> 1,
                hy == y >> 1,
                hx & hy == hx,
                x & 1 <= y & 1,
        ;
    }
}

/// The digits of a masked literal of a radix that is a power of two: the
/// value they spell lies within the mask they spell.
pub proof fn lemma_digits_within(digits: Seq<char>, r: nat)
    requires
        is_power_of_two(r),
        2 <= r <= 36,
        all_digits(value_digits(digits), r),
    ensures
        bits_within(
            digits_value(value_digits(digits), r),
            digits_value(mask_digits(digits, digit_char((r - 1) as nat)), r),
        ),
    decreases digits.len(),
{
    let top = digit_char((r - 1) as nat);
    let vd = value_digits(digits);
    let md = mask_digits(digits, top);
    if digits.len() != 0 {
        let rest = digits.drop_last();
        assert(vd.drop_last() =~= value_digits(rest));
        assert(md.drop_last() =~= mask_digits(rest, top));
        assert forall|i: int| 0 <= i < rest.len() implies is_digit(
            #[trigger] value_digits(rest)[i],
            r,
        ) by {
            assert(value_digits(rest)[i] == vd[i]);
        }
        lemma_digits_within(rest, r);
        lemma_digit_char((r - 1) as nat);
        assert(is_digit(vd[digits.len() - 1], r));
        let x = digit_of(vd.last())->Some_0;
        let y = digit_of(md.last())->Some_0;
        if digits.last() == 'z' {
            assert(x == 0 && y == 0);
        } else {
            lemma_within_ones(x, r);
        }
        lemma_within_by_digit(
            digits_value(value_digits(rest), r),
            x,
            digits_value(mask_digits(rest, top), r),
            y,
            r,
        );
    }
}

/// Two numbers of which the first lies within the second: so do their
/// spellings in bytes.
pub proof fn lemma_bytes_within(v: nat, m: nat)
    requires
        bits_within(v, m),
    ensures
        masked_by(signed_be_bytes(v as int), signed_be_bytes(m as int)),
    decreases v,
{
    reveal_with_fuel(is_power_of_two, 10);
    assert(is_power_of_two(256));
    let x = v % 256;
    let y = m % 256;
    lemma_within_by_digit(v / 256, x, m / 256, y, 256);
    lemma_within_byte(x as u8, y as u8);
    lemma_within_is_le(v, m);
    let bv = signed_be_bytes(v as int);
    let bm = signed_be_bytes(m as int);
    assert(bm.len() >= 1 && bm.last() == y as u8);
    if v < 128 {
    } else {
        lemma_bytes_within(v / 256, m / 256);
        let hv = signed_be_bytes(v as int / 256);
        let hm = signed_be_bytes(m as int / 256);
        assert(bv == hv.push(x as u8));
        assert(bm == hm.push(y as u8));
        assert forall|i: int| 0 <= i < bv.len() implies (#[trigger] bv[i]) & bm[bm.len() - bv.len()
            + i] == bv[i] by {
            if i < hv.len() {
                assert(bv[i] == hv[i]);
                assert(bm[bm.len() - bv.len() + i] == hm[hm.len() - hv.len() + i]);
            }
        }
    }
}

/// The value of a masked literal that is not negative has no bit set
/// outside its mask: byte for byte from the right, `value & mask == value`.
pub proof fn lemma_value_within_mask(s: Seq<char>)
    requires
        !is_negative(s),
        parse_num_mask_spec(s) matches Ok((Some(_), _)),
    ensures
        ({
            let parsed = parse_num_mask_spec(s)->Ok_0;
            masked_by(parsed.1, parsed.0->Some_0)
        }),
{
    let (negative, radix, start) = literal_head(s)->Ok_0;
    let digits = s.skip(start as int);
    reveal_with_fuel(is_power_of_two, 6);
    assert(is_power_of_two(radix as nat));
    crate::digits::lemma_first_non_digit(value_digits(digits), radix as nat);
    lemma_digits_within(digits, radix as nat);
    lemma_bytes_within(
        digits_value(value_digits(digits), radix as nat),
        digits_value(mask_digits(digits, digit_char((radix - 1) as nat)), radix as nat),
    );
}

} // verus!
