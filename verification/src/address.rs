//! Addresses: where on a device a value lies, and which of its bits are
//! meant.
//!
//! An address is written as a base with an optional slice in brackets:
//! `0x1234`, `0x1234[3:10]`, `0x1234[:8]`, `0x1234[3:]`, `0x1234[3]`,
//! `gain[1]`. The base is a number literal or the name of a register; the
//! bounds of the slice are number literals.

use vstd::prelude::*;
use vstd::string::StrSliceExecFns;

use crate::error::{Error, ErrorView};
use crate::named_map::NamedMap;
use crate::parse_num::{parse_num, parse_num_padded, parse_num_spec};
use crate::register::Register;
use crate::text::{chars_of, string_of};

verus! {

/// A place on a device: the number of the place as bytes, most significant
/// byte first, and the bits `slice_start..slice_end` of the value that lies
/// there.
#[derive(Debug, PartialEq, Eq)]
pub struct Address {
    pub base: Vec<u8>,
    pub slice_start: u8,
    pub slice_end: u8,
}

impl Clone for Address {
    fn clone(&self) -> (r: Self)
        ensures
            r@ == self@,
    {
        Address {
            base: self.base.clone(),
            slice_start: self.slice_start,
            slice_end: self.slice_end,
        }
    }
}

/// An `Address` with its base as a sequence.
pub struct AddressView {
    pub base: Seq<u8>,
    pub slice_start: u8,
    pub slice_end: u8,
}

impl View for Address {
    type V = AddressView;

    open spec fn view(&self) -> AddressView {
        AddressView { base: self.base@, slice_start: self.slice_start, slice_end: self.slice_end }
    }
}

/// The slice of an address as it is written.
pub enum SliceSyntax {
    /// No brackets.
    Whole,
    /// One bit: `[b]`.
    Single(Seq<char>),
    /// A range, either bound of which may be left out: `[s:e]`.
    Range(Option<Seq<char>>, Option<Seq<char>>),
}

/// An address as it is written: the base and the slice.
pub struct AddressSyntax {
    pub base: Seq<char>,
    pub slice: SliceSyntax,
}

/// The slice of an address as text.
#[derive(Debug, PartialEq, Eq)]
pub enum SliceText {
    Whole,
    Single(String),
    Range(Option<String>, Option<String>),
}

/// The parts of an address as text.
#[derive(Debug, PartialEq, Eq)]
pub struct AddressText {
    pub base: String,
    pub slice: SliceText,
}

/// A text that may be left out, as characters.
pub open spec fn text_view(t: Option<String>) -> Option<Seq<char>> {
    match t {
        Some(s) => Some(s@),
        None => None,
    }
}

impl View for SliceText {
    type V = SliceSyntax;

    open spec fn view(&self) -> SliceSyntax {
        match self {
            SliceText::Whole => SliceSyntax::Whole,
            SliceText::Single(b) => SliceSyntax::Single(b@),
            SliceText::Range(s, e) => SliceSyntax::Range(text_view(*s), text_view(*e)),
        }
    }
}

impl View for AddressText {
    type V = AddressSyntax;

    open spec fn view(&self) -> AddressSyntax {
        AddressSyntax { base: self.base@, slice: self.slice@ }
    }
}

/// Whether `t` holds a bracket.
pub open spec fn has_bracket(t: Seq<char>) -> bool {
    t.contains('[') || t.contains(']')
}

/// The index of the first `c` in `t`; the length of `t` where there is
/// none.
pub open spec fn first_index(t: Seq<char>, c: char) -> int
    decreases t.len(),
{
    if t.len() == 0 {
        0
    } else if t[0] == c {
        0
    } else {
        1 + first_index(t.drop_first(), c)
    }
}

/// The index of the last `c` in `t`; `-1` where there is none.
pub open spec fn last_index(t: Seq<char>, c: char) -> int
    decreases t.len(),
{
    if t.len() == 0 {
        -1
    } else if t.last() == c {
        t.len() - 1
    } else {
        last_index(t.drop_last(), c)
    }
}

/// A text, or nothing where it is empty.
pub open spec fn non_empty(t: Seq<char>) -> Option<Seq<char>> {
    if t.len() == 0 {
        None
    } else {
        Some(t)
    }
}

/// What stands between the brackets of an address. With a colon it is a
/// range, split at the last colon; without one it is a single bit, which
/// cannot be empty.
pub open spec fn slice_syntax(inner: Seq<char>) -> Option<SliceSyntax> {
    if inner.contains(':') {
        let k = last_index(inner, ':');
        Some(SliceSyntax::Range(non_empty(inner.take(k)), non_empty(inner.skip(k + 1))))
    } else if inner.len() > 0 {
        Some(SliceSyntax::Single(inner))
    } else {
        None
    }
}

/// The parts of the address `s`: a base that is not empty and holds no
/// bracket, and after it nothing or one pair of brackets that reaches to the
/// end and holds no bracket. `None` for every other text.
pub open spec fn address_syntax(s: Seq<char>) -> Option<AddressSyntax> {
    if !has_bracket(s) {
        if s.len() > 0 {
            Some(AddressSyntax { base: s, slice: SliceSyntax::Whole })
        } else {
            None
        }
    } else {
        let open = first_index(s, '[');
        let base = s.take(open);
        let inner = s.subrange(open + 1, s.len() - 1);
        if 0 < open < s.len() - 1 && s.last() == ']' && !has_bracket(base) && !has_bracket(inner) {
            match slice_syntax(inner) {
                Some(slice) => Some(AddressSyntax { base, slice }),
                None => None,
            }
        } else {
            None
        }
    }
}

/// `first_index` is the first place where `c` stands.
pub proof fn lemma_first_index(t: Seq<char>, c: char)
    ensures
        0 <= first_index(t, c) <= t.len(),
        forall|i: int| 0 <= i < first_index(t, c) ==> t[i] != c,
        first_index(t, c) < t.len() ==> t[first_index(t, c)] == c,
        first_index(t, c) == t.len() <==> !t.contains(c),
    decreases t.len(),
{
    if t.len() == 0 {
    } else if t[0] == c {
        assert(t.contains(c));
    } else {
        let rest = t.drop_first();
        lemma_first_index(rest, c);
        assert forall|i: int| 0 <= i < first_index(t, c) implies t[i] != c by {
            if i > 0 {
                assert(t[i] == rest[i - 1]);
            }
        }
        if first_index(t, c) < t.len() {
            assert(t[first_index(t, c)] == rest[first_index(rest, c)]);
            assert(t.contains(c));
        }
    }
}

/// `last_index` is the last place where `c` stands.
pub proof fn lemma_last_index(t: Seq<char>, c: char)
    ensures
        -1 <= last_index(t, c) < t.len(),
        forall|i: int| last_index(t, c) < i < t.len() ==> t[i] != c,
        last_index(t, c) >= 0 ==> t[last_index(t, c)] == c,
        last_index(t, c) == -1 <==> !t.contains(c),
    decreases t.len(),
{
    if t.len() == 0 {
    } else if t.last() == c {
        assert(t[t.len() - 1] == c);
    } else {
        let rest = t.drop_last();
        lemma_last_index(rest, c);
        if last_index(t, c) >= 0 {
            assert(t[last_index(t, c)] == rest[last_index(rest, c)]);
        }
        assert forall|i: int| last_index(t, c) < i < t.len() implies t[i] != c by {
            if i < rest.len() {
                assert(t[i] == rest[i]);
            }
        }
        if t.contains(c) {
            let i = choose|i: int| 0 <= i < t.len() && t[i] == c;
            assert(rest[i] == c);
        }
    }
}

/// The first index in `from..to` where `c` stands in `chars`; `to` where
/// there is none.
fn find_first(chars: &[char], from: usize, to: usize, c: char) -> (r: usize)
    requires
        from <= to <= chars@.len(),
    ensures
        r == from + first_index(chars@.subrange(from as int, to as int), c),
        from <= r <= to,
{
    let ghost t = chars@.subrange(from as int, to as int);
    proof {
        lemma_first_index(t, c);
    }
    let mut i: usize = from;
    while i < to
        invariant
            from <= i <= to <= chars@.len(),
            t == chars@.subrange(from as int, to as int),
            forall|k: int| 0 <= k < i - from ==> t[k] != c,
            0 <= first_index(t, c) <= t.len(),
            forall|k: int| 0 <= k < first_index(t, c) ==> t[k] != c,
            first_index(t, c) < t.len() ==> t[first_index(t, c)] == c,
        decreases to - i,
    {
        if chars[i] == c {
            assert(t[i - from] == c);
            return i;
        }
        i += 1;
    }
    to
}

/// The last index in `from..to` where `c` stands in `chars`; `None` where
/// there is none.
fn find_last(chars: &[char], from: usize, to: usize, c: char) -> (r: Option<usize>)
    requires
        from <= to <= chars@.len(),
    ensures
        r matches Some(i) ==> i == from + last_index(chars@.subrange(from as int, to as int), c)
            && from <= i < to,
        r is None <==> last_index(chars@.subrange(from as int, to as int), c) == -1,
{
    let ghost t = chars@.subrange(from as int, to as int);
    proof {
        lemma_last_index(t, c);
    }
    let mut i: usize = to;
    while i > from
        invariant
            from <= i <= to <= chars@.len(),
            t == chars@.subrange(from as int, to as int),
            forall|k: int| i - from <= k < t.len() ==> t[k] != c,
            -1 <= last_index(t, c) < t.len(),
            forall|k: int| last_index(t, c) < k < t.len() ==> t[k] != c,
            last_index(t, c) >= 0 ==> t[last_index(t, c)] == c,
        decreases i,
    {
        i -= 1;
        if chars[i] == c {
            assert(t[i - from] == c);
            return Some(i);
        }
    }
    None
}

/// Whether a bracket stands in `chars[from..to]`.
fn any_bracket(chars: &[char], from: usize, to: usize) -> (r: bool)
    requires
        from <= to <= chars@.len(),
    ensures
        r == has_bracket(chars@.subrange(from as int, to as int)),
{
    let ghost t = chars@.subrange(from as int, to as int);
    let mut i: usize = from;
    while i < to
        invariant
            from <= i <= to <= chars@.len(),
            t == chars@.subrange(from as int, to as int),
            forall|k: int| 0 <= k < i - from ==> t[k] != '[' && t[k] != ']',
        decreases to - i,
    {
        if chars[i] == '[' || chars[i] == ']' {
            assert(t[i - from] == chars@[i as int]);
            return true;
        }
        i += 1;
    }
    false
}

/// The text `chars[from..to]`, or nothing where it is empty.
fn text_or_none(chars: &[char], from: usize, to: usize) -> (r: Option<String>)
    requires
        from <= to <= chars@.len(),
    ensures
        text_view(r) == non_empty(chars@.subrange(from as int, to as int)),
{
    if from == to {
        None
    } else {
        Some(string_of(chars, from, to))
    }
}

/// Splits an address into its base and its slice, as texts.
pub fn split_address(s: &str) -> (r: Option<AddressText>)
    ensures
        match address_syntax(s@) {
            Some(syntax) => r matches Some(text) && text@ == syntax,
            None => r is None,
        },
{
    let chars = chars_of(s);
    let n = chars.len();
    assert(chars@.subrange(0, n as int) =~= s@);
    if !any_bracket(chars.as_slice(), 0, n) {
        if n == 0 {
            return None;
        }
        return Some(AddressText { base: string_of(chars.as_slice(), 0, n), slice: SliceText::Whole });
    }
    let open = find_first(chars.as_slice(), 0, n, '[');
    if open == 0 || n - open <= 1 {
        return None;
    }
    assert(s@.take(open as int) =~= chars@.subrange(0, open as int));
    if chars[n - 1] != ']' || any_bracket(chars.as_slice(), 0, open) || any_bracket(
        chars.as_slice(),
        open + 1,
        n - 1,
    ) {
        return None;
    }
    let ghost inner = s@.subrange(open + 1, n - 1);
    let slice = match find_last(chars.as_slice(), open + 1, n - 1, ':') {
        Some(colon) => {
            proof {
                lemma_last_index(inner, ':');
                assert(inner.take(colon - open - 1) =~= chars@.subrange(
                    open + 1,
                    colon as int,
                ));
                assert(inner.skip(colon - open) =~= chars@.subrange(colon + 1, n - 1));
            }
            SliceText::Range(
                text_or_none(chars.as_slice(), open + 1, colon),
                text_or_none(chars.as_slice(), colon + 1, n - 1),
            )
        },
        None => {
            proof {
                lemma_last_index(inner, ':');
            }
            if open + 2 == n {
                return None;
            }
            SliceText::Single(string_of(chars.as_slice(), open + 1, n - 1))
        },
    };
    Some(AddressText { base: string_of(chars.as_slice(), 0, open), slice })
}

/// The bit position that the literal `text` names in a slice: the one byte
/// that the literal is read into. `None` where it cannot be read or takes
/// more than one byte.
pub open spec fn slice_index(text: Seq<char>) -> Option<u8> {
    match parse_num_spec(text) {
        Ok(bytes) => if bytes.len() == 1 {
            Some(bytes[0])
        } else {
            None
        },
        Err(_) => None,
    }
}

/// The register that a base names, if it names one: the base is no number
/// literal, there are registers to look among, and one of them has the name.
pub open spec fn named_register(base: Seq<char>, registers: Option<&NamedMap<Register>>) -> Option<
    Register,
> {
    match (parse_num_spec(base), registers) {
        (Err(_), Some(map)) => map.lookup(base),
        _ => None,
    }
}

/// The bytes of a base: those of the number where it is a number literal,
/// those of the register where it names one, else the name itself in UTF-8.
pub open spec fn base_bytes(base: Seq<char>, registers: Option<&NamedMap<Register>>) -> Seq<u8> {
    match parse_num_spec(base) {
        Ok(bytes) => bytes,
        Err(_) => match named_register(base, registers) {
            Some(register) => register.spec_address().base@,
            None => vstd::utf8::encode_utf8(base),
        },
    }
}

/// The end of a slice in brackets that names none, after the start `start`.
/// With a width in bytes it is `start + 8 * width - 1`; without one it is
/// the end of the named register; without either there is none.
pub open spec fn open_end(start: u8, width: Option<u8>, register: Option<Register>) -> Option<int> {
    match width {
        Some(w) => Some(start + 8 * w - 1),
        None => match register {
            Some(r) => Some(r.spec_address().slice_end as int),
            None => None,
        },
    }
}

/// The bits that an address without brackets means: the bits `0..8 * width`
/// where a width is given, else the slice of the named register.
pub open spec fn whole_slice(width: Option<u8>, register: Option<Register>) -> Option<(int, int)> {
    match width {
        Some(w) => Some((0int, 8 * w)),
        None => match register {
            Some(r) => Some(
                (r.spec_address().slice_start as int, r.spec_address().slice_end as int),
            ),
            None => None,
        },
    }
}

/// Start and end of the slice that is written as `slice`, as far as they
/// can be told.
pub open spec fn slice_bounds(
    slice: SliceSyntax,
    width: Option<u8>,
    register: Option<Register>,
) -> Option<(int, int)> {
    match slice {
        SliceSyntax::Whole => whole_slice(width, register),
        SliceSyntax::Single(bit) => match slice_index(bit) {
            Some(b) => Some((b as int, b + 1)),
            None => None,
        },
        SliceSyntax::Range(from, to) => {
            let start = match from {
                Some(text) => slice_index(text),
                None => Some(0u8),
            };
            match start {
                Some(s) => {
                    let end = match to {
                        Some(text) => match slice_index(text) {
                            Some(e) => Some(e as int),
                            None => None,
                        },
                        None => open_end(s, width, register),
                    };
                    match end {
                        Some(e) => Some((s as int, e)),
                        None => None,
                    }
                },
                None => None,
            }
        },
    }
}

/// The address that the text `s` means, with the registers that a base may
/// name and the width in bytes of the value. `None` where `s` is no
/// address, where a bound cannot be told, where the end lies before the
/// start or beyond 255.
pub open spec fn parse_address_spec(
    s: Seq<char>,
    registers: Option<&NamedMap<Register>>,
    width: Option<u8>,
) -> Option<AddressView> {
    match address_syntax(s) {
        Some(syntax) => {
            match slice_bounds(syntax.slice, width, named_register(syntax.base, registers)) {
                Some((start, end)) => if start <= end <= 255 {
                    Some(
                        AddressView {
                            base: base_bytes(syntax.base, registers),
                            slice_start: start as u8,
                            slice_end: end as u8,
                        },
                    )
                } else {
                    None
                },
                None => None,
            }
        },
        None => None,
    }
}

/// What parsing the text `s` returns: the address that it means, or
/// `BadAddress` with the text.
pub open spec fn parse_address_result(
    s: Seq<char>,
    registers: Option<&NamedMap<Register>>,
    width: Option<u8>,
    r: Result<Address, Error>,
) -> bool {
    match parse_address_spec(s, registers, width) {
        Some(address) => r matches Ok(a) && a@ == address && a.wf(),
        None => r matches Err(e) && e@ == ErrorView::BadAddress(s),
    }
}

/// The width in bytes that a count of bytes stands for in an address: the
/// count itself up to 255. A larger count stands for no width that an
/// address can hold, and is taken as 255.
pub open spec fn width_of(amount: usize) -> u8 {
    if amount <= 255 {
        amount as u8
    } else {
        255
    }
}

/// The bit position that the literal `text` names.
fn read_slice_index(text: &str) -> (r: Option<u8>)
    ensures
        r == slice_index(text@),
{
    match parse_num(text) {
        Ok(bytes) => if bytes.len() == 1 {
            Some(bytes[0])
        } else {
            None
        },
        Err(_) => None,
    }
}

impl Address {
    /// Whether the slice ends where it starts or after it.
    pub open spec fn wf(&self) -> bool {
        self.slice_start <= self.slice_end
    }

    /// The number of bytes that hold the bits of the slice.
    pub open spec fn byte_count(&self) -> nat {
        ((self.slice_end - self.slice_start + 7) / 8) as nat
    }

    fn parse_internal(
        s: &str,
        register_set: Option<&NamedMap<Register>>,
        width: Option<u8>,
    ) -> (r: Result<Address, Error>)
        ensures
            parse_address_result(s@, register_set, width, r),
    {
        let text = match split_address(s) {
            Some(text) => text,
            None => {
                return Err(Error::BadAddress(s.to_owned()));
            },
        };
        let name = text.base.as_str();
        let (base, register): (Vec<u8>, Option<&Register>) = match parse_num_padded(name, None) {
            Ok(bytes) => (bytes, None),
            Err(_) => {
                let found = match register_set {
                    Some(set) => set.get(name),
                    None => None,
                };
                match found {
                    Some(reg) => (reg.address().base.clone(), Some(reg)),
                    None => (name.as_bytes_vec(), None),
                }
            },
        };
        let ghost named = named_register(text@.base, register_set);
        assert(base@ == base_bytes(text@.base, register_set));
        assert(match named {
            Some(reg) => register == Some(&reg),
            None => register is None,
        });
        let bounds: Option<(u8, u16)> = match &text.slice {
            SliceText::Whole => match width {
                Some(w) => Some((0u8, 8 * (w as u16))),
                None => match register {
                    Some(reg) => Some((reg.address().slice_start, reg.address().slice_end as u16)),
                    None => None,
                },
            },
            SliceText::Single(bit) => match read_slice_index(bit.as_str()) {
                Some(b) => Some((b, b as u16 + 1)),
                None => None,
            },
            SliceText::Range(from, to) => {
                let start = match from {
                    Some(t) => read_slice_index(t.as_str()),
                    None => Some(0u8),
                };
                match start {
                    Some(st) => {
                        let end: Option<u16> = match to {
                            Some(t) => match read_slice_index(t.as_str()) {
                                Some(e) => Some(e as u16),
                                None => None,
                            },
                            None => match width {
                                Some(w) => if st as u16 + 8 * (w as u16) >= 1 {
                                    Some(st as u16 + 8 * (w as u16) - 1)
                                } else {
                                    None
                                },
                                None => match register {
                                    Some(reg) => Some(reg.address().slice_end as u16),
                                    None => None,
                                },
                            },
                        };
                        match end {
                            Some(e) => Some((st, e)),
                            None => None,
                        }
                    },
                    None => None,
                }
            },
        };
        match bounds {
            Some((start, end)) => {
                if start as u16 <= end && end <= 255 {
                    Ok(Address { base, slice_start: start, slice_end: end as u8 })
                } else {
                    Err(Error::BadAddress(s.to_owned()))
                }
            },
            None => Err(Error::BadAddress(s.to_owned())),
        }
    }

    /// Reads the address of a function. Its base may name one of the
    /// registers `regs`: the address then has that register's base, and
    /// where it leaves a bound open, that register's slice.
    pub fn parse_named(address: &str, regs: &NamedMap<Register>) -> (r: Result<Address, Error>)
        ensures
            parse_address_result(address@, Some(regs), None, r),
    {
        Address::parse_internal(address, Some(regs), None)
    }

    /// Reads the address of a register whose value is `width` bytes wide,
    /// where the width is known.
    pub fn parse_with(address: &str, width: Option<u8>) -> (r: Result<Address, Error>)
        ensures
            parse_address_result(address@, None, width, r),
    {
        Address::parse_internal(address, None, width)
    }

    /// Reads the address of a register whose value is `amount` bytes wide.
    pub fn parse(address: &str, amount: usize) -> (r: Result<Address, Error>)
        ensures
            parse_address_result(address@, None, Some(width_of(amount)), r),
    {
        let width: u8 = if amount <= 255 {
            amount as u8
        } else {
            255
        };
        Address::parse_internal(address, None, Some(width))
    }

    /// The base as a number, most significant byte first.
    pub fn as_u64(&self) -> (r: u64)
        requires
            self.base@.len() <= 8,
        ensures
            r == crate::bytes::be_value(self.base@),
    {
        crate::bytes::be_to_u64(self.base.as_slice())
    }

    /// The number of bytes that hold the bits of the slice.
    pub fn bytes(&self) -> (r: usize)
        requires
            self.wf(),
        ensures
            r == self.byte_count(),
            r * 8 >= self.slice_end - self.slice_start > r * 8 - 8,
    {
        let bits = self.slice_end - self.slice_start;
        let extra_byte: u8 = if bits % 8 > 0 {
            1
        } else {
            0
        };
        (extra_byte + bits / 8) as usize
    }
}

} // verus!
