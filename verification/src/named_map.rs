//! Maps from names to values that keep the order in which the names came.

use vstd::prelude::*;
use crate::text::same_text;

verus! {

/// The index of `name` among `names`, if it is there; the last such index
/// where there are several.
pub open spec fn index_of_name<K>(names: Seq<K>, name: K) -> Option<int>
    decreases names.len(),
{
    if names.len() == 0 {
        None
    } else if names.last() == name {
        Some(names.len() - 1)
    } else {
        index_of_name(names.drop_last(), name)
    }
}

/// Whether no name occurs twice.
pub open spec fn distinct_names<K>(names: Seq<K>) -> bool {
    forall|i: int, j: int| 0 <= i < j < names.len() ==> names[i] != names[j]
}

/// `index_of_name` finds a name exactly if it is there, and then at a place
/// where it stands.
pub proof fn lemma_index_of_name<K>(names: Seq<K>, name: K)
    ensures
        index_of_name(names, name) is Some <==> names.contains(name),
        index_of_name(names, name) matches Some(i) ==> 0 <= i < names.len() && names[i] == name,
    decreases names.len(),
{
    if names.len() == 0 {
    } else if names.last() == name {
        assert(names[names.len() - 1] == name);
    } else {
        let rest = names.drop_last();
        lemma_index_of_name(rest, name);
        if names.contains(name) {
            let i = choose|i: int| 0 <= i < names.len() && names[i] == name;
            assert(rest[i] == name);
        }
        if rest.contains(name) {
            let i = choose|i: int| 0 <= i < rest.len() && rest[i] == name;
            assert(names[i] == name);
        }
    }
}

/// Among distinct names, a name is found at the one place where it stands.
pub proof fn lemma_index_of_name_at<K>(names: Seq<K>, i: int)
    requires
        distinct_names(names),
        0 <= i < names.len(),
    ensures
        index_of_name(names, names[i]) == Some(i),
{
    lemma_index_of_name(names, names[i]);
    assert(names.contains(names[i]));
}

/// A map from names to values. No name occurs twice, and the entries keep
/// the order in which their names were first inserted.
#[derive(Debug)]
pub struct NamedMap<T> {
    pub(crate) names: Vec<String>,
    pub(crate) values: Vec<T>,
}

impl<T> NamedMap<T> {
    #[verifier::type_invariant]
    spec fn inv(&self) -> bool {
        &&& self.names@.len() == self.values@.len()
        &&& distinct_names(self.names())
    }

    /// The names, in order.
    pub closed spec fn names(&self) -> Seq<Seq<char>> {
        Seq::new(self.names@.len(), |i: int| self.names@[i]@)
    }

    /// The values, in the order of their names.
    pub closed spec fn values(&self) -> Seq<T> {
        self.values@
    }

    /// Whether there is a value for each name and no name occurs twice.
    pub open spec fn wf(&self) -> bool {
        &&& self.names().len() == self.values().len()
        &&& distinct_names(self.names())
    }

    /// The value that stands under `name`.
    pub open spec fn lookup(&self, name: Seq<char>) -> Option<T> {
        match index_of_name(self.names(), name) {
            Some(i) => Some(self.values()[i]),
            None => None,
        }
    }

    /// A map without entries.
    pub fn new() -> (r: Self)
        ensures
            r.names() == Seq::<Seq<char>>::empty(),
            r.values() == Seq::<T>::empty(),
            r.wf(),
    {
        let r = NamedMap { names: Vec::new(), values: Vec::new() };
        assert(r.names() =~= Seq::<Seq<char>>::empty());
        r
    }

    /// Takes the map apart into its names and its values.
    pub fn into_parts(self) -> (r: (Vec<String>, Vec<T>))
        ensures
            self.wf(),
            r.0.deep_view() == self.names(),
            r.1@ == self.values(),
    {
        proof {
            use_type_invariant(&self);
        }
        let NamedMap { names, values } = self;
        assert(names.deep_view() =~= Seq::new(names@.len(), |i: int| names@[i]@));
        (names, values)
    }

    /// Puts a map together of distinct names and as many values.
    pub fn from_parts(names: Vec<String>, values: Vec<T>) -> (r: Self)
        requires
            names@.len() == values@.len(),
            distinct_names(names.deep_view()),
        ensures
            r.names() == names.deep_view(),
            r.values() == values@,
            r.wf(),
    {
        assert(names.deep_view() =~= Seq::new(names@.len(), |i: int| names@[i]@));
        NamedMap { names, values }
    }

    /// The number of entries.
    pub fn len(&self) -> (r: usize)
        ensures
            r == self.names().len(),
            self.wf(),
    {
        proof {
            use_type_invariant(self);
        }
        self.names.len()
    }

    /// The index of the entry under `name`.
    pub fn position(&self, name: &str) -> (r: Option<usize>)
        ensures
            self.wf(),
            r matches Some(i) ==> index_of_name(self.names(), name@) == Some(i as int) && i
                < self.names().len(),
            r is None ==> index_of_name(self.names(), name@) is None,
    {
        proof {
            use_type_invariant(self);
            lemma_index_of_name(self.names(), name@);
        }
        let mut i: usize = 0;
        while i < self.names.len()
            invariant
                i <= self.names@.len(),
                self.wf(),
                self.names().len() == self.names@.len(),
                forall|k: int| 0 <= k < self.names@.len() ==> self.names()[k] == self.names@[k]@,
                forall|k: int| 0 <= k < i ==> self.names()[k] != name@,
            decreases self.names@.len() - i,
        {
            if same_text(self.names[i].as_str(), name) {
                proof {
                    lemma_index_of_name_at(self.names(), i as int);
                }
                return Some(i);
            }
            i += 1;
        }
        None
    }

    /// The value under `name`.
    pub fn get(&self, name: &str) -> (r: Option<&T>)
        ensures
            self.wf(),
            match self.lookup(name@) {
                Some(v) => r == Some(&v),
                None => r is None,
            },
    {
        proof {
            use_type_invariant(self);
        }
        match self.position(name) {
            Some(i) => {
                Some(&self.values[i])
            },
            None => None,
        }
    }

    /// The name of the entry at `i`.
    pub fn name_at(&self, i: usize) -> (r: &String)
        requires
            i < self.names().len(),
        ensures
            r@ == self.names()[i as int],
    {
        &self.names[i]
    }

    /// The value of the entry at `i`.
    pub fn value_at(&self, i: usize) -> (r: &T)
        requires
            i < self.values().len(),
        ensures
            *r == self.values()[i as int],
    {
        &self.values[i]
    }

    /// Puts `value` under `name`: in place of the value that stood there, or
    /// as a new last entry.
    pub fn insert(&mut self, name: String, value: T)
        ensures
            final(self).wf(),
            match index_of_name(old(self).names(), name@) {
                Some(i) => {
                    &&& final(self).names() == old(self).names()
                    &&& final(self).values() == old(self).values().update(i, value)
                },
                None => {
                    &&& final(self).names() == old(self).names().push(name@)
                    &&& final(self).values() == old(self).values().push(value)
                },
            },
    {
        proof {
            use_type_invariant(&*self);
        }
        let found = self.position(name.as_str());
        let ghost before = self.names();
        let mut taken = NamedMap::new();
        core::mem::swap(self, &mut taken);
        let NamedMap { mut names, mut values } = taken;
        match found {
            Some(i) => {
                values.set(i, value);
            },
            None => {
                proof {
                    lemma_index_of_name(before, name@);
                }
                names.push(name);
                values.push(value);
            },
        }
        let ghost after = Seq::new(names@.len(), |i: int| names@[i]@);
        assert(after =~= if found is Some {
            before
        } else {
            before.push(name@)
        });
        *self = NamedMap { names, values };
        assert(self.names() =~= after);
    }

    /// The names, in order.
    pub fn keys(&self) -> (r: Vec<String>)
        ensures
            r.deep_view() == self.names(),
    {
        let mut r: Vec<String> = Vec::new();
        let mut i: usize = 0;
        while i < self.names.len()
            invariant
                i <= self.names@.len(),
                r@.len() == i,
                forall|k: int| 0 <= k < i ==> r@[k]@ == self.names@[k]@,
            decreases self.names@.len() - i,
        {
            r.push(self.names[i].clone());
            i += 1;
        }
        assert(r.deep_view() =~= self.names());
        r
    }
}

} // verus!
