//! Value maps: tables that say which words or numbers stand for the bytes
//! of a register.
//!
//! A map gives keywords, fixed numbers or floating numbers to its keys. A
//! key is a byte value or the wildcard, which stands for every byte value
//! without an entry of its own.

use vstd::prelude::*;
use vstd::string::StrSliceExecFns;

use vstd::utf8::encode_utf8;
use crate::bytes::{
    be_bytes, be_value, left_pad, lemma_be_bytes_value, lemma_be_value_large,
    lemma_be_value_padded, lemma_be_value_skip_zero, u128_to_be,
};
use crate::digits::radix_digits;
use crate::endian::read_u64_be;
use crate::error::{bytes_result, text_result, Error, ErrorView};
use crate::keywords::KeywordTable;
use crate::fuseable::{
    is_dir_of_leaf, leaf_is_dir, leaf_read, names_view, read_of_leaf, rest_of, Fuseable, Reading,
    ReadingView, Writing, WritingView,
};
use crate::named_map::{
    distinct_names, index_of_name, lemma_index_of_name, lemma_index_of_name_at,
};
use crate::text::same_text;
use crate::value::value_text;
use crate::bimap::{no_pairs, paired};
use crate::parse_num::{parse_num, parse_num_padded, parse_num_spec, ParseError};
use crate::text::{chars_of, decimal, decimal_u64, parse_decimal, trim_bounds, trimmed};
use crate::value::Value;
use crate::value_table::ValueTable;

verus! {

/// A table of the words or numbers that stand for bytes.
#[derive(Debug)]
pub enum ValueMap {
    /// A keyword for each key, and one key for each keyword.
    Keywords(KeywordTable),
    /// A floating number for each key, held as it is shown.
    Floating(ValueTable<String>),
    /// A whole number for each key.
    Fixed(ValueTable<u64>),
}

/// The first index of `wanted` in `values`.
pub open spec fn first_with_value(values: Seq<u64>, wanted: u64) -> Option<int>
    decreases values.len(),
{
    if values.len() == 0 {
        None
    } else if values[0] == wanted {
        Some(0)
    } else {
        match first_with_value(values.drop_first(), wanted) {
            Some(i) => Some(i + 1),
            None => None,
        }
    }
}

/// The number that the literal `s` names, where it lies in the range of
/// `u64`.
pub open spec fn literal_u64(s: Seq<char>) -> Result<u64, ErrorView> {
    match parse_num_spec(s) {
        Err(e) => Err(ErrorView::Parse(e)),
        Ok(bytes) => if bytes.len() >= 1 && bytes[0] < 128 && be_value(bytes) <= u64::MAX {
            Ok(be_value(bytes) as u64)
        } else {
            Err(ErrorView::UnknownValue)
        },
    }
}

/// Reads a number literal that names a number in the range of `u64`.
pub fn parse_u64(s: &str) -> (r: Result<u64, Error>)
    ensures
        match literal_u64(s@) {
            Ok(n) => r matches Ok(v) && v == n,
            Err(e) => r matches Err(x) && x@ == e,
        },
{
    let bytes = match parse_num(s) {
        Ok(bytes) => bytes,
        Err(e) => {
            return Err(Error::Parse(e));
        },
    };
    if bytes.len() == 0 || bytes[0] >= 128 {
        return Err(Error::UnknownValue);
    }
    let mut start: usize = 0;
    assert(bytes@.skip(0) =~= bytes@);
    while start < bytes.len() && bytes[start] == 0
        invariant
            start <= bytes@.len(),
            be_value(bytes@.skip(start as int)) == be_value(bytes@),
        decreases bytes@.len() - start,
    {
        proof {
            lemma_be_value_skip_zero(bytes@.skip(start as int));
            assert(bytes@.skip(start as int).skip(1) =~= bytes@.skip(start + 1));
        }
        start += 1;
    }
    if bytes.len() - start > 8 {
        proof {
            lemma_be_value_large(bytes@.skip(start as int));
        }
        return Err(Error::UnknownValue);
    }
    let mut tail: Vec<u8> = Vec::new();
    let mut i: usize = start;
    while i < bytes.len()
        invariant
            start <= i <= bytes@.len(),
            tail@ == bytes@.subrange(start as int, i as int),
        decreases bytes@.len() - i,
    {
        tail.push(bytes[i]);
        i += 1;
        assert(tail@ =~= bytes@.subrange(start as int, i as int));
    }
    assert(tail@ =~= bytes@.skip(start as int));
    let padded = left_pad(tail, 8, 0);
    proof {
        lemma_be_value_padded(bytes@.skip(start as int), 8);
        assert(padded@.take(8) =~= padded@);
        crate::bytes::lemma_be_value_bound(padded@);
    }
    match read_u64_be(padded.as_slice()) {
        Ok(n) => Ok(n),
        Err(_) => Err(Error::UnknownValue),
    }
}

impl ValueMap {
    /// Whether the map has an entry under the key `k`.
    pub open spec fn has_key(&self, k: Option<Seq<u8>>) -> bool {
        match self {
            ValueMap::Keywords(t) => t@.dom().contains(k),
            ValueMap::Floating(t) => t.lookup(k) is Some,
            ValueMap::Fixed(t) => t.lookup(k) is Some,
        }
    }

    /// What stands under the key `k`, as it is shown: the keyword, or the
    /// number in decimal digits.
    pub open spec fn text_of(&self, k: Option<Seq<u8>>) -> Seq<char> {
        match self {
            ValueMap::Keywords(t) => t@[k],
            ValueMap::Floating(t) => t.lookup(k)->Some_0@,
            ValueMap::Fixed(t) => radix_digits(t.lookup(k)->Some_0 as nat, 10),
        }
    }

    /// The word or number for the bytes `v`: that of their own entry, else
    /// that of the wildcard.
    pub open spec fn lookup_spec(&self, v: Seq<u8>) -> Result<Seq<char>, ErrorView> {
        if self.has_key(Some(v)) {
            Ok(self.text_of(Some(v)))
        } else if self.has_key(None) {
            Ok(self.text_of(None))
        } else {
            Err(ErrorView::UnknownValue)
        }
    }

    /// Whether `n` is the least number from one on whose shortest unsigned
    /// spelling is no key of the map.
    pub open spec fn is_fresh(&self, n: nat) -> bool {
        &&& n >= 1
        &&& !self.has_key(Some(be_bytes(n)))
        &&& forall|m: nat| 1 <= m < n ==> self.has_key(Some(#[trigger] be_bytes(m)))
    }

    /// The bytes that stand for the wildcard in a write: the shortest
    /// unsigned spelling of the least number from one on that is no key.
    pub open spec fn fresh_bytes(&self) -> Seq<u8> {
        be_bytes(choose|n: nat| self.is_fresh(n))
    }

    /// The bytes to write for the key `k`: its own, or fresh ones for the
    /// wildcard.
    pub open spec fn bytes_of(&self, k: Option<Seq<u8>>) -> Seq<u8> {
        match k {
            Some(bytes) => bytes,
            None => self.fresh_bytes(),
        }
    }

    /// The bytes for the word or number `s`. A keyword is looked up; a
    /// number literal stands for the first key that has that number. Which
    /// floating number lies nearest to `s` is not told here.
    pub open spec fn encode_spec(&self, s: Seq<char>) -> Result<Seq<u8>, ErrorView> {
        match self {
            ValueMap::Keywords(t) => {
                if exists|k: Option<Seq<u8>>| t@.dom().contains(k) && t@[k] == s {
                    Ok(self.bytes_of(choose|k: Option<Seq<u8>>| t@.dom().contains(k) && t@[k] == s))
                } else {
                    Err(ErrorView::UnknownKey)
                }
            },
            ValueMap::Fixed(t) => match literal_u64(s) {
                Err(e) => Err(e),
                Ok(wanted) => match first_with_value(t.values(), wanted) {
                    Some(i) => Ok(self.bytes_of(t.keys()[i])),
                    None => Err(ErrorView::UnknownValue),
                },
            },
            ValueMap::Floating(_) => Err(
                ErrorView::Unsupported("encode"@, "Floating"@),
            ),
        }
    }

    /// The bytes of the entry at `index`, for a map of numbers: the key's
    /// own, or fresh ones for the wildcard.
    pub open spec fn encode_entry_spec(&self, index: usize) -> Result<Seq<u8>, ErrorView> {
        match self {
            ValueMap::Keywords(_) => Err(ErrorView::Unsupported("encode_entry"@, "Keywords"@)),
            ValueMap::Fixed(t) => if index < t.keys().len() {
                Ok(self.bytes_of(t.keys()[index as int]))
            } else {
                Err(ErrorView::NoEntries)
            },
            ValueMap::Floating(t) => if index < t.keys().len() {
                Ok(self.bytes_of(t.keys()[index as int]))
            } else {
                Err(ErrorView::NoEntries)
            },
        }
    }

    /// The keys of the map, in the order in which they came.
    pub open spec fn keys(&self) -> Seq<Option<Seq<u8>>> {
        match self {
            ValueMap::Keywords(t) => t.keys(),
            ValueMap::Floating(t) => t.keys(),
            ValueMap::Fixed(t) => t.keys(),
        }
    }

    /// The keys of the map as they are shown.
    pub open spec fn key_names(&self) -> Seq<Seq<char>> {
        Seq::new(self.keys().len(), |i: int| value_text(self.keys()[i]))
    }

    /// The number of keys.
    pub fn key_count(&self) -> (r: usize)
        ensures
            r == self.keys().len(),
    {
        match self {
            ValueMap::Keywords(t) => t.count(),
            ValueMap::Floating(t) => t.len(),
            ValueMap::Fixed(t) => t.len(),
        }
    }

    /// The key at `i`.
    pub fn key_at(&self, i: usize) -> (r: &Value)
        requires
            i < self.keys().len(),
        ensures
            r@ == self.keys()[i as int],
            self.has_key(r@),
    {
        match self {
            ValueMap::Keywords(t) => t.key_at(i),
            ValueMap::Floating(t) => t.key_at(i),
            ValueMap::Fixed(t) => t.key_at(i),
        }
    }

    /// What stands under `key`, as it is shown.
    pub fn text_at(&self, key: &Value) -> (r: String)
        requires
            self.has_key(key@),
        ensures
            r@ == self.text_of(key@),
    {
        match self {
            ValueMap::Keywords(t) => match t.word_of(key) {
                Some(word) => word.clone(),
                None => String::new(),
            },
            ValueMap::Floating(t) => match t.get(key) {
                Some(text) => text.clone(),
                None => String::new(),
            },
            ValueMap::Fixed(t) => match t.get(key) {
                Some(n) => decimal(*n),
                None => String::new(),
            },
        }
    }

    /// The index of the key that is shown as `name`.
    pub fn find_name(&self, name: &str) -> (r: Option<usize>)
        ensures
            r matches Some(i) ==> index_of_name(self.key_names(), name@) == Some(i as int) && i
                < self.keys().len(),
            r is None ==> index_of_name(self.key_names(), name@) is None,
    {
        let ghost names = self.key_names();
        let mut i: usize = self.key_count();
        assert(names.take(i as int) =~= names);
        while i > 0
            invariant
                i <= self.keys().len(),
                names == self.key_names(),
                index_of_name(names, name@) == index_of_name(names.take(i as int), name@),
            decreases i,
        {
            i -= 1;
            assert(names.take(i + 1).drop_last() =~= names.take(i as int));
            assert(names.take(i + 1).last() == names[i as int]);
            let shown = self.key_at(i).to_string();
            if same_text(shown.as_str(), name) {
                return Some(i);
            }
        }
        None
    }

    /// The number of entries.
    pub fn len(&self) -> (r: usize)
        ensures
            self.counts(r),
    {
        match self {
            ValueMap::Keywords(t) => {
                let n = t.len();
                assert(self.key_set() =~= t@.dom());
                n
            },
            ValueMap::Floating(t) => {
                let n = t.len();
                proof {
                    lemma_table_keys(t.keys());
                    assert(self.key_set() =~= Set::new(
                        |k: Option<Seq<u8>>| index_of_name(t.keys(), k) is Some,
                    ));
                }
                n
            },
            ValueMap::Fixed(t) => {
                let n = t.len();
                proof {
                    lemma_table_keys(t.keys());
                    assert(self.key_set() =~= Set::new(
                        |k: Option<Seq<u8>>| index_of_name(t.keys(), k) is Some,
                    ));
                }
                n
            },
        }
    }

    /// The keys of the map.
    pub open spec fn key_set(&self) -> Set<Option<Seq<u8>>> {
        Set::new(|k: Option<Seq<u8>>| self.has_key(k))
    }

    /// Whether the map has `n` entries.
    pub open spec fn counts(&self, n: usize) -> bool {
        self.key_set().finite() && self.key_set().len() == n
    }

    /// Whether the map has an entry for the bytes `bytes` themselves.
    pub fn has_value(&self, bytes: &Vec<u8>) -> (r: bool)
        ensures
            r == self.has_key(Some(bytes@)),
    {
        let key = Value::Value(bytes.clone());
        match self {
            ValueMap::Keywords(t) => t.word_of(&key).is_some(),
            ValueMap::Floating(t) => t.get(&key).is_some(),
            ValueMap::Fixed(t) => t.get(&key).is_some(),
        }
    }

    /// Bytes that are no key of the map: the shortest unsigned spelling of
    /// the least number from one on that is none.
    pub fn fresh_value(&self) -> (r: Vec<u8>)
        ensures
            r@ == self.fresh_bytes(),
            !self.has_key(Some(r@)),
    {
        let count = self.len();
        let mut n: u128 = 1;
        let mut candidate = u128_to_be(n);
        while self.has_value(&candidate)
            invariant
                1 <= n <= count + 1,
                self.counts(count),
                candidate@ == be_bytes(n as nat),
                forall|m: nat| 1 <= m < n ==> self.has_key(Some(#[trigger] be_bytes(m))),
            decreases count + 1 - n,
        {
            proof {
                lemma_taken_bound(self.key_set(), (n + 1) as nat);
            }
            n = n + 1;
            candidate = u128_to_be(n);
        }
        proof {
            assert(self.is_fresh(n as nat));
            let chosen = choose|k: nat| self.is_fresh(k);
            assert(self.is_fresh(chosen));
            assert(chosen == n);
        }
        candidate
    }

    /// The bytes to write for `key`.
    fn bytes_for(&self, key: &Value) -> (r: Vec<u8>)
        ensures
            r@ == self.bytes_of(key@),
    {
        match key {
            Value::Value(bytes) => bytes.clone(),
            Value::Any => self.fresh_value(),
        }
    }

    /// The word or number that stands for the bytes: that
    /// of their own entry, else that of the wildcard.
    pub fn lookup(&self, v: Vec<u8>) -> (r: Result<String, Error>)
        ensures
            text_result(r) == self.lookup_spec(v@),
    {
        let key = Value::Value(v);
        let any = Value::Any;
        match self {
            ValueMap::Keywords(t) => match t.word_of(&key) {
                Some(word) => Ok(word.clone()),
                None => match t.word_of(&any) {
                    Some(word) => Ok(word.clone()),
                    None => Err(Error::UnknownValue),
                },
            },
            ValueMap::Floating(t) => match t.get(&key) {
                Some(text) => Ok(text.clone()),
                None => match t.get(&any) {
                    Some(text) => Ok(text.clone()),
                    None => Err(Error::UnknownValue),
                },
            },
            ValueMap::Fixed(t) => match t.get(&key) {
                Some(n) => Ok(decimal(*n)),
                None => match t.get(&any) {
                    Some(n) => Ok(decimal(*n)),
                    None => Err(Error::UnknownValue),
                },
            },
        }
    }

    /// The bytes to write for a word or number. The wildcard is
    /// written as bytes that are no key of the map.
    #[verifier::loop_isolation(false)]
    pub fn encode(&self, s: String) -> (r: Result<Vec<u8>, Error>)
        ensures
            bytes_result(r) == self.encode_spec(s@),
    {
        match self {
            ValueMap::Keywords(t) => match t.key_of(&s) {
                Some(key) => {
                    proof {
                        let chosen = choose|k: Option<Seq<u8>>| t@.dom().contains(k) && t@[k] == s@;
                        assert(t@.dom().contains(key@) && t@[key@] == s@);
                        assert(chosen == key@);
                    }
                    Ok(self.bytes_for(&key))
                },
                None => Err(Error::UnknownKey),
            },
            ValueMap::Floating(_) => Err(
                Error::Unsupported("encode".to_owned(), "Floating".to_owned()),
            ),
            ValueMap::Fixed(t) => {
                let wanted = match parse_u64(s.as_str()) {
                    Ok(n) => n,
                    Err(e) => {
                        return Err(e);
                    },
                };
                let count = t.len();
                let mut i: usize = 0;
                assert(t.values().skip(0) =~= t.values());
                while i < count
                    invariant
                        i <= count,
                        count == t.keys().len(),
                        t.wf(),
                        first_with_value(t.values(), wanted) == match first_with_value(
                            t.values().skip(i as int),
                            wanted,
                        ) {
                            Some(k) => Some(k + i),
                            None => None,
                        },
                    decreases count - i,
                {
                    assert(t.values().skip(i as int)[0] == t.values()[i as int]);
                    assert(t.values().skip(i as int).drop_first() =~= t.values().skip(i + 1));
                    if *t.value_at(i) == wanted {
                        return Ok(self.bytes_for(t.key_at(i)));
                    }
                    i += 1;
                }
                Err(Error::UnknownValue)
            },
        }
    }

    /// The bytes to write for the entry at `index` of a map of numbers.
    pub fn encode_entry(&self, index: usize) -> (r: Result<Vec<u8>, Error>)
        ensures
            bytes_result(r) == self.encode_entry_spec(index),
    {
        match self {
            ValueMap::Keywords(_) => Err(
                Error::Unsupported("encode_entry".to_owned(), "Keywords".to_owned()),
            ),
            ValueMap::Floating(t) => if index < t.len() {
                Ok(self.bytes_for(t.key_at(index)))
            } else {
                Err(Error::NoEntries)
            },
            ValueMap::Fixed(t) => if index < t.len() {
                Ok(self.bytes_for(t.key_at(index)))
            } else {
                Err(Error::NoEntries)
            },
        }
    }
}

/// An entry of a value map as it is configured: the key, the value, and
/// the value as a floating number is shown, where the value is such a
/// number.
#[derive(Debug)]
pub struct MapEntry {
    pub key: String,
    pub value: String,
    pub float: Option<String>,
}

/// The key that the configured text `k` names: the wildcard for `_` with
/// white space around it, else the bytes of the number literal.
pub open spec fn config_key(k: Seq<char>) -> Result<Option<Seq<u8>>, ParseError> {
    if trimmed(k) == seq!['_'] {
        Ok(None)
    } else {
        match parse_num_spec(k) {
            Ok(bytes) => Ok(Some(bytes)),
            Err(e) => Err(e),
        }
    }
}

/// Whether each configured key is the wildcard or a number literal.
pub open spec fn numeric_keys(entries: Seq<MapEntry>) -> bool {
    forall|i: int| 0 <= i < entries.len() ==> config_key(#[trigger] entries[i].key@) is Ok
}

/// Whether each configured value is a whole number in decimal digits.
pub open spec fn all_fixed(entries: Seq<MapEntry>) -> bool {
    forall|i: int| 0 <= i < entries.len() ==> decimal_u64(#[trigger] entries[i].value@) is Some
}

/// Whether each configured value is a floating number.
pub open spec fn all_floating(entries: Seq<MapEntry>) -> bool {
    forall|i: int| 0 <= i < entries.len() ==> (#[trigger] entries[i]).float is Some
}

/// The key of an entry: what its text names where all keys are numeric,
/// else its text in UTF-8.
pub open spec fn entry_key(e: MapEntry, numeric: bool) -> Option<Seq<u8>> {
    if numeric {
        config_key(e.key@)->Ok_0
    } else {
        Some(encode_utf8(e.key@))
    }
}

/// A table after `value` was put under `key`.
pub open spec fn put<T>(
    table: (Seq<Option<Seq<u8>>>, Seq<T>),
    key: Option<Seq<u8>>,
    value: T,
) -> (Seq<Option<Seq<u8>>>, Seq<T>) {
    match index_of_name(table.0, key) {
        Some(i) => (table.0, table.1.update(i, value)),
        None => (table.0.push(key), table.1.push(value)),
    }
}

/// The table of whole numbers that the first `n` entries make.
pub open spec fn fixed_table(entries: Seq<MapEntry>, numeric: bool, n: nat) -> (
    Seq<Option<Seq<u8>>>,
    Seq<u64>,
)
    decreases n,
{
    if n == 0 {
        (Seq::empty(), Seq::empty())
    } else {
        let e = entries[n - 1];
        put(
            fixed_table(entries, numeric, (n - 1) as nat),
            entry_key(e, numeric),
            decimal_u64(e.value@)->Some_0,
        )
    }
}

/// The table of floating numbers that the first `n` entries make.
pub open spec fn floating_table(entries: Seq<MapEntry>, numeric: bool, n: nat) -> (
    Seq<Option<Seq<u8>>>,
    Seq<String>,
)
    decreases n,
{
    if n == 0 {
        (Seq::empty(), Seq::empty())
    } else {
        let e = entries[n - 1];
        put(floating_table(entries, numeric, (n - 1) as nat), entry_key(e, numeric), e.float->Some_0)
    }
}

/// The table of keywords that the first `n` entries make.
pub open spec fn keyword_table(entries: Seq<MapEntry>, numeric: bool, n: nat) -> Map<
    Option<Seq<u8>>,
    Seq<char>,
>
    decreases n,
{
    if n == 0 {
        no_pairs()
    } else {
        let e = entries[n - 1];
        paired(keyword_table(entries, numeric, (n - 1) as nat), entry_key(e, numeric), e.value@)
    }
}

/// Whether `map` is the value map that the entries describe.
pub open spec fn built_from(map: ValueMap, entries: Seq<MapEntry>) -> bool {
    let numeric = numeric_keys(entries);
    if all_fixed(entries) {
        map matches ValueMap::Fixed(t) && (t.keys(), t.values()) == fixed_table(
            entries,
            numeric,
            entries.len(),
        )
    } else if all_floating(entries) {
        map matches ValueMap::Floating(t) && (t.keys(), t.values()) == floating_table(
            entries,
            numeric,
            entries.len(),
        )
    } else {
        map matches ValueMap::Keywords(t) && t@ == keyword_table(entries, numeric, entries.len())
    }
}

/// Reads a configured key: `_` for the wildcard, else a number literal.
pub fn key_of_config(k: &str) -> (r: Result<Value, ParseError>)
    ensures
        match config_key(k@) {
            Ok(v) => r matches Ok(key) && key@ == v,
            Err(e) => r == Err::<Value, ParseError>(e),
        },
{
    let chars = chars_of(k);
    let (from, to) = trim_bounds(chars.as_slice());
    if to - from == 1 && chars[from] == '_' {
        assert(chars@.subrange(from as int, to as int) =~= seq!['_']);
        return Ok(Value::Any);
    }
    assert(chars@.subrange(from as int, to as int) != seq!['_']) by {
        if chars@.subrange(from as int, to as int) == seq!['_'] {
            assert(chars@.subrange(from as int, to as int).len() == 1);
            assert(chars@.subrange(from as int, to as int)[0] == '_');
        }
    }
    match parse_num_padded(k, None) {
        Ok(bytes) => Ok(Value::Value(bytes)),
        Err(e) => Err(e),
    }
}

/// The keys of the entries: what their texts name where each is the
/// wildcard or a number literal, else their texts in UTF-8.
#[verifier::loop_isolation(false)]
pub fn convert_keys(entries: &Vec<MapEntry>) -> (r: Vec<Value>)
    ensures
        r@.len() == entries@.len(),
        forall|i: int|
            0 <= i < r@.len() ==> (#[trigger] r@[i])@ == entry_key(
                entries@[i],
                numeric_keys(entries@),
            ),
{
    let mut keys: Vec<Value> = Vec::new();
    let mut i: usize = 0;
    let mut numeric = true;
    while i < entries.len() && numeric
        invariant
            i <= entries@.len(),
            numeric ==> keys@.len() == i,
            numeric ==> forall|k: int|
                0 <= k < i ==> config_key(#[trigger] entries@[k].key@) == Ok::<
                    Option<Seq<u8>>,
                    ParseError,
                >(keys@[k]@),
            !numeric ==> !numeric_keys(entries@),
        decreases entries@.len() - i + if numeric { 1int } else { 0int },
    {
        match key_of_config(entries[i].key.as_str()) {
            Ok(key) => {
                keys.push(key);
                i += 1;
            },
            Err(_) => {
                numeric = false;
            },
        }
    }
    if numeric {
        return keys;
    }
    let mut raw: Vec<Value> = Vec::new();
    let mut j: usize = 0;
    while j < entries.len()
        invariant
            j <= entries@.len(),
            raw@.len() == j,
            forall|k: int| 0 <= k < j ==> (#[trigger] raw@[k])@ == Some(encode_utf8(entries@[k].key@)),
        decreases entries@.len() - j,
    {
        raw.push(Value::Value(entries[j].key.as_str().as_bytes_vec()));
        j += 1;
    }
    raw
}

/// Whether `keys` are the keys of the entries.
pub open spec fn keys_of(keys: Seq<Value>, entries: Seq<MapEntry>, numeric: bool) -> bool {
    &&& keys.len() == entries.len()
    &&& forall|i: int| 0 <= i < keys.len() ==> (#[trigger] keys[i])@ == entry_key(entries[i], numeric)
}

/// The table of whole numbers that the entries make, where each value is a
/// whole number.
fn build_fixed(entries: &Vec<MapEntry>, keys: &Vec<Value>, Ghost(numeric): Ghost<bool>) -> (r: Option<
    ValueTable<u64>,
>)
    requires
        keys_of(keys@, entries@, numeric),
    ensures
        r is Some <==> all_fixed(entries@),
        r matches Some(t) ==> (t.keys(), t.values()) == fixed_table(
            entries@,
            numeric,
            entries@.len(),
        ),
{
    let mut table: ValueTable<u64> = ValueTable::new();
    let mut i: usize = 0;
    while i < entries.len()
        invariant
            i <= entries@.len(),
            keys_of(keys@, entries@, numeric),
            (table.keys(), table.values()) == fixed_table(entries@, numeric, i as nat),
            forall|k: int| 0 <= k < i ==> decimal_u64(#[trigger] entries@[k].value@) is Some,
        decreases entries@.len() - i,
    {
        match parse_decimal(entries[i].value.as_str()) {
            Some(number) => {
                table.insert(keys[i].clone(), number);
                i += 1;
            },
            None => {
                return None;
            },
        }
    }
    Some(table)
}

/// The table of floating numbers that the entries make, where each value is
/// a floating number.
fn build_floating(entries: &Vec<MapEntry>, keys: &Vec<Value>, Ghost(numeric): Ghost<bool>) -> (r:
    Option<ValueTable<String>>)
    requires
        keys_of(keys@, entries@, numeric),
    ensures
        r is Some <==> all_floating(entries@),
        r matches Some(t) ==> (t.keys(), t.values()) == floating_table(
            entries@,
            numeric,
            entries@.len(),
        ),
{
    let mut table: ValueTable<String> = ValueTable::new();
    let mut i: usize = 0;
    while i < entries.len()
        invariant
            i <= entries@.len(),
            keys_of(keys@, entries@, numeric),
            (table.keys(), table.values()) == floating_table(entries@, numeric, i as nat),
            forall|k: int| 0 <= k < i ==> (#[trigger] entries@[k]).float is Some,
        decreases entries@.len() - i,
    {
        match &entries[i].float {
            Some(text) => {
                table.insert(keys[i].clone(), text.clone());
                i += 1;
            },
            None => {
                return None;
            },
        }
    }
    Some(table)
}

/// The table of keywords that the entries make.
fn build_keywords(entries: &Vec<MapEntry>, keys: &Vec<Value>, Ghost(numeric): Ghost<bool>) -> (r:
    KeywordTable)
    requires
        keys_of(keys@, entries@, numeric),
    ensures
        r@ == keyword_table(entries@, numeric, entries@.len()),
{
    let mut table = KeywordTable::new();
    let mut i: usize = 0;
    while i < entries.len()
        invariant
            i <= entries@.len(),
            keys_of(keys@, entries@, numeric),
            table@ == keyword_table(entries@, numeric, i as nat),
        decreases entries@.len() - i,
    {
        table.insert(keys[i].clone(), entries[i].value.clone());
        i += 1;
    }
    table
}

/// Builds the value map that the entries describe. Whole numbers make a map
/// of fixed numbers; else floating numbers make a map of floating numbers;
/// else the values are keywords. Where a key or a keyword comes twice, the
/// later entry stands.
pub fn deser_valuemap(entries: Vec<MapEntry>) -> (r: ValueMap)
    ensures
        built_from(r, entries@),
{
    let keys = convert_keys(&entries);
    let ghost numeric = numeric_keys(entries@);
    match build_fixed(&entries, &keys, Ghost(numeric)) {
        Some(table) => {
            return ValueMap::Fixed(table);
        },
        None => {},
    }
    match build_floating(&entries, &keys, Ghost(numeric)) {
        Some(table) => {
            return ValueMap::Floating(table);
        },
        None => {},
    }
    ValueMap::Keywords(build_keywords(&entries, &keys, Ghost(numeric)))
}

impl Fuseable for ValueMap {
    open spec fn is_dir_spec(&self, path: Seq<Seq<char>>) -> Result<bool, ErrorView> {
        if path.len() == 0 {
            Ok(true)
        } else {
            match index_of_name(self.key_names(), path[0]) {
                Some(i) => leaf_is_dir("String"@, path.skip(1)),
                None => Err(ErrorView::NotFound(path[0])),
            }
        }
    }

    open spec fn read_spec(&self, path: Seq<Seq<char>>) -> Result<ReadingView, ErrorView> {
        if path.len() == 0 {
            Ok(ReadingView::Entries(self.key_names()))
        } else {
            match index_of_name(self.key_names(), path[0]) {
                Some(i) => leaf_read("String"@, self.text_of(self.keys()[i]), path.skip(1)),
                None => Err(ErrorView::NotFound(path[0])),
            }
        }
    }

    open spec fn write_spec(&self, path: Seq<Seq<char>>, value: Seq<u8>) -> Result<
        WritingView,
        ErrorView,
    > {
        Err(ErrorView::Unsupported("write"@, "ValueMap"@))
    }

    fn is_dir(&self, path: &[&str]) -> (r: Result<bool, Error>) {
        if path.len() == 0 {
            return Ok(true);
        }
        match self.find_name(path[0]) {
            Some(_) => is_dir_of_leaf("String", rest_of(path)),
            None => Err(Error::NotFound(path[0].to_owned())),
        }
    }

    fn read<'a>(&'a self, path: &[&str]) -> (r: Result<Reading<'a>, Error>) {
        if path.len() == 0 {
            let n = self.key_count();
            let mut names: Vec<String> = Vec::new();
            let mut i: usize = 0;
            while i < n
                invariant
                    i <= n,
                    n == self.keys().len(),
                    names@.len() == i,
                    forall|k: int| 0 <= k < i ==> names@[k]@ == value_text(self.keys()[k]),
                decreases n - i,
            {
                names.push(self.key_at(i).to_string());
                i += 1;
            }
            assert(names_view(names@) =~= self.key_names());
            return Ok(Reading::Entries(names));
        }
        match self.find_name(path[0]) {
            Some(i) => {
                let key = self.key_at(i);
                read_of_leaf("String", self.text_at(key), rest_of(path))
            },
            None => Err(Error::NotFound(path[0].to_owned())),
        }
    }

    fn write(&self, path: &[&str], value: Vec<u8>) -> (r: Result<Writing, Error>) {
        Err(Error::Unsupported("write".to_owned(), "ValueMap".to_owned()))
    }
}

/// In a map of keywords, the keyword of a byte value is written as that
/// byte value.
pub proof fn lemma_keyword_round_trip(map: ValueMap, bytes: Seq<u8>)
    requires
        map matches ValueMap::Keywords(t) && t.wf(),
        map.has_key(Some(bytes)),
    ensures
        map.lookup_spec(bytes) == Ok::<Seq<char>, ErrorView>(map.text_of(Some(bytes))),
        map.encode_spec(map.text_of(Some(bytes))) == Ok::<Seq<u8>, ErrorView>(bytes),
{
    let t = map->Keywords_0;
    let word = t@[Some(bytes)];
    let chosen = choose|k: Option<Seq<u8>>| t@.dom().contains(k) && t@[k] == word;
    assert(t@.dom().contains(Some(bytes)) && t@[Some(bytes)] == word);
    assert(chosen == Some(bytes));
}

/// The decimal digits of a number in the range of `u64` are a literal for
/// that number.
pub proof fn lemma_literal_of_decimal(v: u64)
    ensures
        literal_u64(radix_digits(v as nat, 10)) == Ok::<u64, ErrorView>(v),
{
    let bytes = crate::bytes::signed_be_bytes(v as int);
    crate::parse_num::lemma_parse_num_of_literal(v as int, 10);
    assert(crate::parse_num::literal_of(v as int, 10) =~= radix_digits(v as nat, 10));
    crate::bytes::lemma_signed_be_bytes_shape(v as int);
    crate::bytes::lemma_signed_be_roundtrip(v as int);
    crate::bytes::lemma_signed_is_unsigned(bytes);
}

/// In a map of fixed numbers, the number of a byte value is written as
/// that byte value, where no earlier entry has the same number.
pub proof fn lemma_fixed_round_trip(map: ValueMap, i: int, bytes: Seq<u8>)
    requires
        map matches ValueMap::Fixed(t) && t.wf() && 0 <= i < t.keys().len() && t.keys()[i]
            == Some(bytes) && first_with_value(t.values(), t.values()[i]) == Some(i),
    ensures
        map.lookup_spec(bytes) == Ok::<Seq<char>, ErrorView>(map.text_of(Some(bytes))),
        map.encode_spec(map.text_of(Some(bytes))) == Ok::<Seq<u8>, ErrorView>(bytes),
{
    let t = map->Fixed_0;
    lemma_index_of_name_at(t.keys(), i);
    lemma_literal_of_decimal(t.values()[i]);
}

/// The keys of a table are as many as its entries.
proof fn lemma_table_keys(keys: Seq<Option<Seq<u8>>>)
    requires
        distinct_names(keys),
    ensures
        Set::new(|k: Option<Seq<u8>>| index_of_name(keys, k) is Some).finite(),
        Set::new(|k: Option<Seq<u8>>| index_of_name(keys, k) is Some).len() == keys.len(),
{
    let set = Set::new(|k: Option<Seq<u8>>| index_of_name(keys, k) is Some);
    assert(keys.no_duplicates());
    keys.unique_seq_to_set();
    assert(set =~= keys.to_set()) by {
        assert forall|k: Option<Seq<u8>>| set.contains(k) <==> keys.to_set().contains(k) by {
            lemma_index_of_name(keys, k);
        }
    }
}

/// Where the spellings of all numbers from one up to `n` are keys, there
/// are at least that many keys.
proof fn lemma_taken_bound(keys: Set<Option<Seq<u8>>>, n: nat)
    requires
        keys.finite(),
        n >= 1,
        forall|m: nat| 1 <= m < n ==> keys.contains(Some(#[trigger] be_bytes(m))),
    ensures
        n - 1 <= keys.len(),
{
    let taken = Seq::new((n - 1) as nat, |i: int| Some(be_bytes((i + 1) as nat)));
    assert forall|i: int, j: int| 0 <= i < taken.len() && 0 <= j < taken.len() && i != j implies taken[i]
        != taken[j] by {
        lemma_be_bytes_value((i + 1) as nat);
        lemma_be_bytes_value((j + 1) as nat);
    }
    taken.unique_seq_to_set();
    assert(taken.to_set().subset_of(keys)) by {
        assert forall|k: Option<Seq<u8>>| taken.to_set().contains(k) implies keys.contains(k) by {
            let i = choose|i: int| 0 <= i < taken.len() && taken[i] == k;
            assert(keys.contains(Some(be_bytes((i + 1) as nat))));
        }
    }
    vstd::set_lib::lemma_len_subset(taken.to_set(), keys);
}

} // verus!
