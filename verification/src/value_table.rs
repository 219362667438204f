//! Tables from keys to values that keep the order in which the keys came.

use vstd::prelude::*;
use crate::named_map::{distinct_names, index_of_name, lemma_index_of_name, lemma_index_of_name_at};
use crate::value::Value;

verus! {

/// A table from keys to values. No key occurs twice, and the entries keep
/// the order in which their keys were first inserted.
#[derive(Debug)]
pub struct ValueTable<T> {
    pub(crate) keys: Vec<Value>,
    pub(crate) values: Vec<T>,
}

impl<T> ValueTable<T> {
    #[verifier::type_invariant]
    spec fn inv(&self) -> bool {
        &&& self.keys@.len() == self.values@.len()
        &&& distinct_names(self.keys())
    }

    /// The keys, in order.
    pub closed spec fn keys(&self) -> Seq<Option<Seq<u8>>> {
        Seq::new(self.keys@.len(), |i: int| self.keys@[i]@)
    }

    /// The values, in the order of their keys.
    pub closed spec fn values(&self) -> Seq<T> {
        self.values@
    }

    /// Whether there is a value for each key and no key occurs twice.
    pub open spec fn wf(&self) -> bool {
        &&& self.keys().len() == self.values().len()
        &&& distinct_names(self.keys())
    }

    /// The value that stands under `key`.
    pub open spec fn lookup(&self, key: Option<Seq<u8>>) -> Option<T> {
        match index_of_name(self.keys(), key) {
            Some(i) => Some(self.values()[i]),
            None => None,
        }
    }

    /// A table without entries.
    pub fn new() -> (r: Self)
        ensures
            r.keys() == Seq::<Option<Seq<u8>>>::empty(),
            r.values() == Seq::<T>::empty(),
            r.wf(),
    {
        let r = ValueTable { keys: Vec::new(), values: Vec::new() };
        assert(r.keys() =~= Seq::<Option<Seq<u8>>>::empty());
        r
    }

    /// The number of entries.
    pub fn len(&self) -> (r: usize)
        ensures
            r == self.keys().len(),
            self.wf(),
    {
        proof {
            use_type_invariant(self);
        }
        self.keys.len()
    }

    /// The index of the entry under `key`.
    pub fn position(&self, key: &Value) -> (r: Option<usize>)
        ensures
            self.wf(),
            r matches Some(i) ==> index_of_name(self.keys(), key@) == Some(i as int) && i
                < self.keys().len(),
            r is None ==> index_of_name(self.keys(), key@) is None,
    {
        proof {
            use_type_invariant(self);
            lemma_index_of_name(self.keys(), key@);
        }
        let mut i: usize = 0;
        while i < self.keys.len()
            invariant
                i <= self.keys@.len(),
                self.wf(),
                self.keys().len() == self.keys@.len(),
                forall|k: int| 0 <= k < self.keys@.len() ==> self.keys()[k] == self.keys@[k]@,
                forall|k: int| 0 <= k < i ==> self.keys()[k] != key@,
            decreases self.keys@.len() - i,
        {
            if self.keys[i].same(key) {
                proof {
                    lemma_index_of_name_at(self.keys(), i as int);
                }
                return Some(i);
            }
            i += 1;
        }
        None
    }

    /// The value under `key`.
    pub fn get(&self, key: &Value) -> (r: Option<&T>)
        ensures
            self.wf(),
            match self.lookup(key@) {
                Some(v) => r == Some(&v),
                None => r is None,
            },
    {
        proof {
            use_type_invariant(self);
        }
        match self.position(key) {
            Some(i) => Some(&self.values[i]),
            None => None,
        }
    }

    /// The key of the entry at `i`.
    pub fn key_at(&self, i: usize) -> (r: &Value)
        requires
            i < self.keys().len(),
        ensures
            r@ == self.keys()[i as int],
            self.wf(),
            self.lookup(r@) == Some(self.values()[i as int]),
    {
        proof {
            use_type_invariant(self);
            lemma_index_of_name_at(self.keys(), i as int);
        }
        &self.keys[i]
    }

    /// The value of the entry at `i`.
    pub fn value_at(&self, i: usize) -> (r: &T)
        requires
            i < self.values().len(),
        ensures
            *r == self.values()[i as int],
    {
        &self.values[i]
    }

    /// Puts `value` under `key`: in place of the value that stood there, or
    /// as a new last entry.
    pub fn insert(&mut self, key: Value, value: T)
        ensures
            final(self).wf(),
            match index_of_name(old(self).keys(), key@) {
                Some(i) => {
                    &&& final(self).keys() == old(self).keys()
                    &&& final(self).values() == old(self).values().update(i, value)
                },
                None => {
                    &&& final(self).keys() == old(self).keys().push(key@)
                    &&& final(self).values() == old(self).values().push(value)
                },
            },
    {
        proof {
            use_type_invariant(&*self);
        }
        let found = self.position(&key);
        let ghost before = self.keys();
        let mut taken = ValueTable::new();
        core::mem::swap(self, &mut taken);
        let ValueTable { mut keys, mut values } = taken;
        match found {
            Some(i) => {
                values.set(i, value);
            },
            None => {
                proof {
                    lemma_index_of_name(before, key@);
                }
                keys.push(key);
                values.push(value);
            },
        }
        let ghost after = Seq::new(keys@.len(), |i: int| keys@[i]@);
        assert(after =~= if found is Some {
            before
        } else {
            before.push(key@)
        });
        *self = ValueTable { keys, values };
        assert(self.keys() =~= after);
    }
}

} // verus!
