//! The keys of value maps: byte values, and the wildcard that stands for
//! every byte value without an entry of its own.

use vstd::prelude::*;
use crate::bytes::{hex_digits, push_hex_digits};
use crate::parse_num::{parse_num_padded, parse_num_spec, ParseError};
use crate::text::{push_char, same_text};

verus! {

/// A key of a value map.
#[derive(Debug, PartialEq, Eq, Hash)]
pub enum Value {
    /// The bytes of a value.
    Value(Vec<u8>),
    /// The wildcard.
    Any,
}

impl View for Value {
    type V = Option<Seq<u8>>;

    open spec fn view(&self) -> Option<Seq<u8>> {
        match self {
            Value::Value(bytes) => Some(bytes@),
            Value::Any => None,
        }
    }
}

impl Clone for Value {
    fn clone(&self) -> (r: Self)
        ensures
            r@ == self@,
    {
        match self {
            Value::Value(bytes) => Value::Value(bytes.clone()),
            Value::Any => Value::Any,
        }
    }
}

/// A key as it is shown: `0x` and two hexadecimal digits for each byte, or
/// `Any`.
pub open spec fn value_text(v: Option<Seq<u8>>) -> Seq<char> {
    match v {
        Some(bytes) => seq!['0', 'x'] + hex_digits(bytes),
        None => seq!['A', 'n', 'y'],
    }
}

/// The key that the text `s` names: the wildcard for `Any` and `any`, else
/// the bytes of the number literal.
pub open spec fn value_of_text(s: Seq<char>) -> Result<Option<Seq<u8>>, ParseError> {
    if s == seq!['A', 'n', 'y'] || s == seq!['a', 'n', 'y'] {
        Ok(None)
    } else {
        match parse_num_spec(s) {
            Ok(bytes) => Ok(Some(bytes)),
            Err(e) => Err(e),
        }
    }
}

/// Whether `a` and `b` hold the same bytes.
pub fn same_bytes(a: &[u8], b: &[u8]) -> (r: bool)
    ensures
        r == (a@ == b@),
{
    if a.len() != b.len() {
        return false;
    }
    let mut i: usize = 0;
    while i < a.len()
        invariant
            i <= a@.len(),
            a@.len() == b@.len(),
            forall|k: int| 0 <= k < i ==> a@[k] == b@[k],
        decreases a@.len() - i,
    {
        if a[i] != b[i] {
            return false;
        }
        i += 1;
    }
    assert(a@ =~= b@);
    true
}

impl Value {
    /// Shows the key: `0x` and two hexadecimal digits in upper case for each
    /// byte, or `Any`.
    pub fn to_string(&self) -> (r: String)
        ensures
            r@ == value_text(self@),
    {
        let mut r = String::new();
        match self {
            Value::Value(bytes) => {
                push_char(&mut r, '0');
                push_char(&mut r, 'x');
                push_hex_digits(&mut r, bytes.as_slice());
            },
            Value::Any => {
                push_char(&mut r, 'A');
                push_char(&mut r, 'n');
                push_char(&mut r, 'y');
            },
        }
        r
    }

    /// Reads a key: `Any` or `any` for the wildcard, else a number literal.
    pub fn from_str(s: &str) -> (r: Result<Value, ParseError>)
        ensures
            match value_of_text(s@) {
                Ok(v) => r matches Ok(key) && key@ == v,
                Err(e) => r == Err::<Value, ParseError>(e),
            },
    {
        proof {
            reveal_strlit("Any");
            reveal_strlit("any");
            assert("Any"@ =~= seq!['A', 'n', 'y']);
            assert("any"@ =~= seq!['a', 'n', 'y']);
        }
        if same_text(s, "Any") || same_text(s, "any") {
            return Ok(Value::Any);
        }
        match parse_num_padded(s, None) {
            Ok(bytes) => Ok(Value::Value(bytes)),
            Err(e) => Err(e),
        }
    }

    /// Whether two keys are the same.
    pub fn same(&self, other: &Value) -> (r: bool)
        ensures
            r == (self@ == other@),
    {
        match (self, other) {
            (Value::Value(a), Value::Value(b)) => same_bytes(a.as_slice(), b.as_slice()),
            (Value::Any, Value::Any) => true,
            _ => false,
        }
    }
}

} // verus!
