//! Big-endian byte strings and the integers they stand for.

use vstd::prelude::*;

verus! {

/// The unsigned integer that `b` spells, most significant byte first.
pub open spec fn be_value(b: Seq<u8>) -> nat
    decreases b.len(),
{
    if b.len() == 0 {
        0
    } else {
        be_value(b.drop_last()) * 256 + b.last() as nat
    }
}

/// The signed integer that `b` spells in two's complement, most significant
/// byte first. The empty string spells zero.
pub open spec fn signed_be_value(b: Seq<u8>) -> int
    decreases b.len(),
{
    if b.len() == 0 {
        0
    } else if b.len() == 1 {
        if b[0] < 128 {
            b[0] as int
        } else {
            b[0] - 256
        }
    } else {
        signed_be_value(b.drop_last()) * 256 + b.last()
    }
}

/// The shortest two's-complement spelling of `n`, most significant byte
/// first. It has at least one byte.
pub open spec fn signed_be_bytes(n: int) -> Seq<u8>
    decreases (if n >= 0 { n } else { -n }),
{
    if -128 <= n < 128 {
        seq![(n % 256) as u8]
    } else {
        signed_be_bytes(n / 256).push((n % 256) as u8)
    }
}

/// `signed_be_bytes` is never empty, and its first byte carries the sign.
pub proof fn lemma_signed_be_bytes_shape(n: int)
    ensures
        signed_be_bytes(n).len() >= 1,
        n >= 0 <==> signed_be_bytes(n)[0] < 128,
    decreases (if n >= 0 { n } else { -n }),
{
    if -128 <= n < 128 {
    } else {
        lemma_signed_be_bytes_shape(n / 256);
    }
}

/// Reading back the shortest spelling of `n` gives `n`.
pub proof fn lemma_signed_be_roundtrip(n: int)
    ensures
        signed_be_value(signed_be_bytes(n)) == n,
    decreases (if n >= 0 { n } else { -n }),
{
    if -128 <= n < 128 {
    } else {
        let hi = signed_be_bytes(n / 256);
        let b = signed_be_bytes(n);
        lemma_signed_be_bytes_shape(n / 256);
        lemma_signed_be_roundtrip(n / 256);
        assert(b.drop_last() =~= hi);
    }
}

/// No spelling of a number is shorter than `signed_be_bytes` of it.
pub proof fn lemma_signed_be_bytes_shortest(b: Seq<u8>)
    requires
        b.len() >= 1,
    ensures
        signed_be_bytes(signed_be_value(b)).len() <= b.len(),
    decreases b.len(),
{
    if b.len() > 1 {
        let n = signed_be_value(b);
        let rest = b.drop_last();
        lemma_signed_be_bytes_shortest(rest);
        assert(n == signed_be_value(rest) * 256 + b.last());
        assert(n / 256 == signed_be_value(rest));
    }
}

/// `b` with as many copies of `fill` in front as it takes to reach `width`
/// bytes; `b` itself where it has that many already.
pub open spec fn left_padded(b: Seq<u8>, width: nat, fill: u8) -> Seq<u8> {
    if b.len() >= width {
        b
    } else {
        Seq::new((width - b.len()) as nat, |i: int| fill) + b
    }
}

/// The byte that extends `b` to the left without changing the signed number
/// it spells.
pub open spec fn sign_fill(b: Seq<u8>) -> u8 {
    if b.len() > 0 && b[0] >= 128 {
        0xFF
    } else {
        0
    }
}

/// `b` extended by its sign to `width` bytes.
pub open spec fn sign_extended(b: Seq<u8>, width: nat) -> Seq<u8> {
    left_padded(b, width, sign_fill(b))
}

/// One more sign byte in front leaves the signed number as it is.
proof fn lemma_sign_byte(b: Seq<u8>)
    requires
        b.len() >= 1,
    ensures
        signed_be_value(seq![sign_fill(b)] + b) == signed_be_value(b),
    decreases b.len(),
{
    let e = seq![sign_fill(b)] + b;
    assert(e.len() == b.len() + 1);
    assert(e.last() == b.last());
    if b.len() == 1 {
        let f = seq![sign_fill(b)];
        assert(e.drop_last() =~= f);
        assert(signed_be_value(f) == if b[0] >= 128 { -1int } else { 0int });
        assert(signed_be_value(e) == signed_be_value(f) * 256 + b[0]);
    } else {
        let t = b.drop_last();
        assert(sign_fill(t) == sign_fill(b));
        assert(e.drop_last() =~= seq![sign_fill(t)] + t);
        lemma_sign_byte(t);
        assert(signed_be_value(e) == signed_be_value(e.drop_last()) * 256 + e.last());
        assert(signed_be_value(b) == signed_be_value(t) * 256 + b.last());
    }
}

/// Extending a spelling by its sign leaves the signed number as it is.
pub proof fn lemma_sign_extended_value(b: Seq<u8>, width: nat)
    requires
        b.len() >= 1,
    ensures
        signed_be_value(sign_extended(b, width)) == signed_be_value(b),
        sign_extended(b, width).len() == if b.len() >= width { b.len() } else { width },
    decreases width,
{
    if b.len() >= width {
    } else {
        let shorter = sign_extended(b, (width - 1) as nat);
        lemma_sign_extended_value(b, (width - 1) as nat);
        assert(sign_fill(shorter) == sign_fill(b));
        assert(sign_extended(b, width) =~= seq![sign_fill(shorter)] + shorter);
        lemma_sign_byte(shorter);
    }
}

/// A spelling of at most `n` bytes stays below `256^n`; for eight bytes that
/// is the range of `u64`.
pub proof fn lemma_be_value_bound(b: Seq<u8>)
    requires
        b.len() <= 8,
    ensures
        be_value(b) <= u64::MAX,
        b.len() <= 7 ==> be_value(b) < 0x100_0000_0000_0000,
    decreases b.len(),
{
    reveal_with_fuel(be_value, 9);
    if b.len() > 0 {
        let t = b.drop_last();
        if t.len() > 0 {
            let t2 = t.drop_last();
            if t2.len() > 0 {
                let t3 = t2.drop_last();
                if t3.len() > 0 {
                    let t4 = t3.drop_last();
                    if t4.len() > 0 {
                        let t5 = t4.drop_last();
                        if t5.len() > 0 {
                            let t6 = t5.drop_last();
                            if t6.len() > 0 {
                                let t7 = t6.drop_last();
                                assert(t7.len() <= 1);
                            }
                        }
                    }
                }
            }
        }
    }
}

/// The unsigned number that at most eight bytes spell, most significant
/// byte first.
pub fn be_to_u64(bytes: &[u8]) -> (r: u64)
    requires
        bytes@.len() <= 8,
    ensures
        r == be_value(bytes@),
{
    let mut r: u64 = 0;
    let mut i: usize = 0;
    while i < bytes.len()
        invariant
            i <= bytes@.len() <= 8,
            r == be_value(bytes@.take(i as int)),
        decreases bytes@.len() - i,
    {
        proof {
            let next = bytes@.take(i + 1);
            assert(next.drop_last() =~= bytes@.take(i as int));
            lemma_be_value_bound(next);
        }
        r = r * 256 + bytes[i] as u64;
        i += 1;
    }
    assert(bytes@.take(bytes@.len() as int) =~= bytes@);
    r
}

/// A zero byte in front leaves the unsigned number as it is.
pub proof fn lemma_be_value_skip_zero(b: Seq<u8>)
    requires
        b.len() >= 1,
        b[0] == 0,
    ensures
        be_value(b) == be_value(b.skip(1)),
    decreases b.len(),
{
    if b.len() == 1 {
        assert(b.drop_last() =~= Seq::<u8>::empty());
        assert(b.skip(1) =~= Seq::<u8>::empty());
        assert(be_value(Seq::<u8>::empty()) == 0);
    } else {
        lemma_be_value_skip_zero(b.drop_last());
        assert(b.drop_last().skip(1) =~= b.skip(1).drop_last());
    }
}

/// Zero bytes in front leave the unsigned number as it is.
pub proof fn lemma_be_value_padded(b: Seq<u8>, width: nat)
    ensures
        be_value(left_padded(b, width, 0)) == be_value(b),
    decreases width,
{
    if b.len() < width {
        let shorter = left_padded(b, (width - 1) as nat, 0);
        lemma_be_value_padded(b, (width - 1) as nat);
        let padded = left_padded(b, width, 0);
        lemma_be_value_skip_zero(padded);
        assert(padded.skip(1) =~= shorter);
    }
}

/// A spelling that is not negative spells the same number signed and
/// unsigned.
pub proof fn lemma_signed_is_unsigned(b: Seq<u8>)
    requires
        b.len() >= 1,
        b[0] < 128,
    ensures
        signed_be_value(b) == be_value(b),
    decreases b.len(),
{
    if b.len() == 1 {
        assert(b.drop_last() =~= Seq::<u8>::empty());
        assert(be_value(Seq::<u8>::empty()) == 0);
    } else {
        lemma_signed_is_unsigned(b.drop_last());
    }
}

/// Nine bytes or more that do not start with zero spell a number beyond
/// the range of `u64`.
pub proof fn lemma_be_value_large(b: Seq<u8>)
    requires
        b.len() >= 9,
        b[0] >= 1,
    ensures
        be_value(b) > u64::MAX,
    decreases b.len(),
{
    let t = b.drop_last();
    if b.len() == 9 {
        reveal_with_fuel(be_value, 10);
        let t1 = t.drop_last();
        let t2 = t1.drop_last();
        let t3 = t2.drop_last();
        let t4 = t3.drop_last();
        let t5 = t4.drop_last();
        let t6 = t5.drop_last();
        let t7 = t6.drop_last();
        assert(t7 =~= seq![b[0]]);
        assert(be_value(t7) >= 1);
    } else {
        lemma_be_value_large(t);
    }
}

/// The shortest unsigned spelling of `n`, most significant byte first. It
/// has at least one byte.
pub open spec fn be_bytes(n: nat) -> Seq<u8>
    decreases n,
{
    if n < 256 {
        seq![n as u8]
    } else {
        be_bytes(n / 256).push((n % 256) as u8)
    }
}

/// Reading back the shortest unsigned spelling of `n` gives `n`.
pub proof fn lemma_be_bytes_value(n: nat)
    ensures
        be_value(be_bytes(n)) == n,
        be_bytes(n).len() >= 1,
    decreases n,
{
    if n < 256 {
        assert(be_bytes(n).drop_last() =~= Seq::<u8>::empty());
        assert(be_value(Seq::<u8>::empty()) == 0);
    } else {
        lemma_be_bytes_value(n / 256);
        assert(be_bytes(n).drop_last() =~= be_bytes(n / 256));
    }
}

/// The shortest unsigned spelling of `n`, most significant byte first.
pub fn u128_to_be(n: u128) -> (r: Vec<u8>)
    ensures
        r@ == be_bytes(n as nat),
{
    let mut reversed: Vec<u8> = Vec::new();
    let mut rest: u128 = n;
    while rest >= 256
        invariant
            be_bytes(n as nat) == be_bytes(rest as nat) + reversed@.reverse(),
        decreases rest,
    {
        let b: u8 = (rest % 256) as u8;
        proof {
            let ghost before = reversed@;
            assert(before.push(b).reverse() =~= seq![b] + before.reverse());
            assert(be_bytes(rest as nat) + before.reverse() =~= be_bytes((rest / 256) as nat) + (
            seq![b] + before.reverse()));
        }
        reversed.push(b);
        rest = rest / 256;
    }
    let mut r: Vec<u8> = Vec::new();
    r.push(rest as u8);
    let mut i: usize = reversed.len();
    while i > 0
        invariant
            i <= reversed@.len(),
            r@ == seq![rest as u8] + reversed@.reverse().take(reversed@.len() - i),
        decreases i,
    {
        i -= 1;
        r.push(reversed[i]);
        assert(r@ =~= seq![rest as u8] + reversed@.reverse().take(reversed@.len() - i));
    }
    assert(reversed@.reverse().take(reversed@.len() as int) =~= reversed@.reverse());
    r
}

/// The character for a hexadecimal digit, in upper case.
pub open spec fn hex_char(d: nat) -> char {
    if d < 10 {
        (48 + d) as char
    } else {
        (55 + d) as char
    }
}

/// Two hexadecimal digits in upper case for each byte of `b`.
pub open spec fn hex_digits(b: Seq<u8>) -> Seq<char>
    decreases b.len(),
{
    if b.len() == 0 {
        Seq::<char>::empty()
    } else {
        hex_digits(b.drop_last()).push(hex_char(b.last() as nat / 16)).push(
            hex_char(b.last() as nat % 16),
        )
    }
}

/// Bytes as they are shown: `0x` and two hexadecimal digits in upper case
/// for each byte; nothing at all for no bytes.
pub open spec fn hex_text(b: Seq<u8>) -> Seq<char> {
    if b.len() == 0 {
        Seq::<char>::empty()
    } else {
        seq!['0', 'x'] + hex_digits(b)
    }
}

/// The character for the hexadecimal digit `d`, in upper case.
fn hex_char_of(d: u8) -> (c: char)
    requires
        d < 16,
    ensures
        c == hex_char(d as nat),
{
    if d < 10 {
        (48 + d) as char
    } else {
        (55 + d) as char
    }
}

/// Appends two hexadecimal digits in upper case for each byte to `s`.
pub fn push_hex_digits(s: &mut String, bytes: &[u8])
    ensures
        final(s)@ == old(s)@ + hex_digits(bytes@),
{
    let mut i: usize = 0;
    while i < bytes.len()
        invariant
            i <= bytes@.len(),
            s@ == old(s)@ + hex_digits(bytes@.take(i as int)),
        decreases bytes@.len() - i,
    {
        let b = bytes[i];
        proof {
            assert(bytes@.take(i + 1).drop_last() =~= bytes@.take(i as int));
        }
        crate::text::push_char(s, hex_char_of(b / 16));
        crate::text::push_char(s, hex_char_of(b % 16));
        i += 1;
        assert(s@ =~= old(s)@ + hex_digits(bytes@.take(i as int)));
    }
    assert(bytes@.take(bytes@.len() as int) =~= bytes@);
}

/// Shows bytes: `0x` and two hexadecimal digits in upper case for each
/// byte; the empty string for no bytes.
pub fn to_hex(v: Vec<u8>) -> (r: String)
    ensures
        r@ == hex_text(v@),
{
    let mut r = String::new();
    if v.len() > 0 {
        crate::text::push_char(&mut r, '0');
        crate::text::push_char(&mut r, 'x');
        push_hex_digits(&mut r, v.as_slice());
    }
    r
}

/// Pads `bytes` on the left with `fill` to `width` bytes.
pub fn left_pad(bytes: Vec<u8>, width: usize, fill: u8) -> (r: Vec<u8>)
    ensures
        r@ == left_padded(bytes@, width as nat, fill),
{
    if bytes.len() >= width {
        return bytes;
    }
    let missing: usize = width - bytes.len();
    let mut r: Vec<u8> = Vec::new();
    let mut i: usize = 0;
    while i < missing
        invariant
            i <= missing,
            r@ == Seq::new(i as nat, |k: int| fill),
        decreases missing - i,
    {
        r.push(fill);
        i += 1;
        assert(r@ =~= Seq::new(i as nat, |k: int| fill));
    }
    let mut j: usize = 0;
    while j < bytes.len()
        invariant
            j <= bytes@.len(),
            r@ == Seq::new(missing as nat, |k: int| fill) + bytes@.take(j as int),
        decreases bytes@.len() - j,
    {
        r.push(bytes[j]);
        j += 1;
        assert(r@ =~= Seq::new(missing as nat, |k: int| fill) + bytes@.take(j as int));
    }
    assert(bytes@.take(bytes@.len() as int) =~= bytes@);
    r
}

} // verus!
