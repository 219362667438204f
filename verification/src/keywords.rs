//! Keywords for byte values: each key has one keyword, and each keyword
//! one key.

use vstd::prelude::*;
use isomorphism::BiMap;
use crate::bimap::{
    bimap_get_left, bimap_get_right, bimap_insert, bimap_len, bimap_new, keyword_pairs,
    left_view, no_pairs, paired,
};
use crate::named_map::distinct_names;
use crate::value::Value;

verus! {

/// Whether no two keys share a keyword.
pub open spec fn one_to_one(pairs: Map<Option<Seq<u8>>, Seq<char>>) -> bool {
    forall|a: Option<Seq<u8>>, b: Option<Seq<u8>>|
        pairs.dom().contains(a) && pairs.dom().contains(b) && #[trigger] pairs[a]
            == #[trigger] pairs[b] ==> a == b
}

/// Whether `keys` names each key of `pairs` once.
pub open spec fn lists_keys(pairs: Map<Option<Seq<u8>>, Seq<char>>, keys: Seq<Option<Seq<u8>>>) -> bool {
    &&& distinct_names(keys)
    &&& forall|k: Option<Seq<u8>>| pairs.dom().contains(k) <==> keys.contains(k)
}

/// The keys `keys` without the one that has the keyword `right`, unless
/// that is `left`.
pub open spec fn kept_keys(
    keys: Seq<Option<Seq<u8>>>,
    before: Map<Option<Seq<u8>>, Seq<char>>,
    left: Option<Seq<u8>>,
    right: Seq<char>,
) -> Seq<Option<Seq<u8>>>
    decreases keys.len(),
{
    if keys.len() == 0 {
        keys
    } else {
        let rest = kept_keys(keys.drop_last(), before, left, right);
        if keys.last() == left || before[keys.last()] != right {
            rest.push(keys.last())
        } else {
            rest
        }
    }
}

/// The keys `keys` after `left` was paired with `right`: the key that had
/// `right` is gone, and `left` stands where it stood or at the end.
pub open spec fn paired_keys(
    keys: Seq<Option<Seq<u8>>>,
    before: Map<Option<Seq<u8>>, Seq<char>>,
    left: Option<Seq<u8>>,
    right: Seq<char>,
) -> Seq<Option<Seq<u8>>> {
    let kept = kept_keys(keys, before, left, right);
    if keys.contains(left) {
        kept
    } else {
        kept.push(left)
    }
}

/// What is kept of distinct keys is distinct, and it is what was there and
/// was to be kept.
pub proof fn lemma_kept_keys(
    keys: Seq<Option<Seq<u8>>>,
    before: Map<Option<Seq<u8>>, Seq<char>>,
    left: Option<Seq<u8>>,
    right: Seq<char>,
)
    requires
        distinct_names(keys),
    ensures
        distinct_names(kept_keys(keys, before, left, right)),
        forall|k: Option<Seq<u8>>|
            kept_keys(keys, before, left, right).contains(k) <==> keys.contains(k) && (k == left
                || before[k] != right),
    decreases keys.len(),
{
    let kept = kept_keys(keys, before, left, right);
    if keys.len() > 0 {
        let rest = keys.drop_last();
        let inner = kept_keys(rest, before, left, right);
        lemma_kept_keys(rest, before, left, right);
        let last = keys.last();
        assert forall|k: Option<Seq<u8>>| keys.contains(k) <==> rest.contains(k) || k == last by {
            if keys.contains(k) {
                let i = choose|i: int| 0 <= i < keys.len() && keys[i] == k;
                if i < rest.len() {
                    assert(rest[i] == k);
                }
            }
            if rest.contains(k) {
                let i = choose|i: int| 0 <= i < rest.len() && rest[i] == k;
                assert(keys[i] == k);
            }
            if k == last {
                assert(keys[keys.len() - 1] == k);
            }
        }
        assert(!rest.contains(last)) by {
            if rest.contains(last) {
                let i = choose|i: int| 0 <= i < rest.len() && rest[i] == last;
                assert(keys[i] == keys[keys.len() - 1]);
            }
        }
        if last == left || before[last] != right {
            assert forall|k: Option<Seq<u8>>| kept.contains(k) <==> inner.contains(k) || k
                == last by {
                if kept.contains(k) {
                    let i = choose|i: int| 0 <= i < kept.len() && kept[i] == k;
                    if i < inner.len() {
                        assert(inner[i] == k);
                    }
                }
                if inner.contains(k) {
                    let i = choose|i: int| 0 <= i < inner.len() && inner[i] == k;
                    assert(kept[i] == k);
                }
                if k == last {
                    assert(kept[kept.len() - 1] == k);
                }
            }
            assert forall|i: int, j: int| 0 <= i < j < kept.len() implies kept[i] != kept[j] by {
                if j == inner.len() {
                    assert(inner.contains(inner[i]));
                }
            }
        }
    }
}

/// Pairing a key with a keyword keeps finitely many pairs finitely many and
/// a one-to-one table one to one.
pub proof fn lemma_paired(
    before: Map<Option<Seq<u8>>, Seq<char>>,
    left: Option<Seq<u8>>,
    right: Seq<char>,
)
    requires
        before.dom().finite(),
        one_to_one(before),
    ensures
        paired(before, left, right).dom().finite(),
        one_to_one(paired(before, left, right)),
{
    let after = paired(before, left, right);
    assert(after.dom().subset_of(before.dom().insert(left)));
    vstd::set_lib::lemma_set_subset_finite(before.dom().insert(left), after.dom());
}

/// A table of keywords. Each key has one keyword, and no keyword belongs to
/// two keys. The keys keep the order in which they came.
#[derive(Debug)]
pub struct KeywordTable {
    pub(crate) pairs: BiMap<Option<Vec<u8>>, String>,
    pub(crate) order: Vec<Value>,
}

impl View for KeywordTable {
    type V = Map<Option<Seq<u8>>, Seq<char>>;

    closed spec fn view(&self) -> Map<Option<Seq<u8>>, Seq<char>> {
        keyword_pairs(self.pairs)
    }
}

/// The key of a left item.
fn key_of_left(left: &Option<Vec<u8>>) -> (r: Value)
    ensures
        r@ == left_view(*left),
{
    match left {
        Some(bytes) => Value::Value(bytes.clone()),
        None => Value::Any,
    }
}

/// The left item of a key.
fn left_of_key(key: &Value) -> (r: Option<Vec<u8>>)
    ensures
        left_view(r) == key@,
{
    match key {
        Value::Value(bytes) => Some(bytes.clone()),
        Value::Any => None,
    }
}

/// The keys as sequences.
pub open spec fn key_views(keys: Seq<Value>) -> Seq<Option<Seq<u8>>> {
    Seq::new(keys.len(), |i: int| keys[i]@)
}

/// The keys `order` without the key that has the keyword `right`, and with
/// `left` where it stood or at the end.
fn reorder(
    order: Vec<Value>,
    evicted: Option<&Value>,
    left: &Value,
    Ghost(before): Ghost<Map<Option<Seq<u8>>, Seq<char>>>,
    Ghost(right): Ghost<Seq<char>>,
) -> (r: Vec<Value>)
    requires
        lists_keys(before, key_views(order@)),
        one_to_one(before),
        match evicted {
            Some(k) => before.dom().contains(k@) && before[k@] == right,
            None => forall|k: Option<Seq<u8>>| before.dom().contains(k) ==> before[k] != right,
        },
    ensures
        key_views(r@) == paired_keys(key_views(order@), before, left@, right),
        lists_keys(paired(before, left@, right), key_views(r@)),
{
    let ghost keys = key_views(order@);
    let mut r: Vec<Value> = Vec::new();
    let mut found = false;
    let mut i: usize = 0;
    assert(keys.take(0) =~= Seq::<Option<Seq<u8>>>::empty());
    while i < order.len()
        invariant
            i <= order@.len(),
            keys == key_views(order@),
            key_views(r@) == kept_keys(keys.take(i as int), before, left@, right),
            found == keys.take(i as int).contains(left@),
            lists_keys(before, keys),
            one_to_one(before),
            match evicted {
                Some(k) => before.dom().contains(k@) && before[k@] == right,
                None => forall|k: Option<Seq<u8>>| before.dom().contains(k) ==> before[k] != right,
            },
        decreases order@.len() - i,
    {
        let key = &order[i];
        let is_left = key.same(left);
        let is_evicted = match evicted {
            Some(k) => key.same(k),
            None => false,
        };
        proof {
            let next = keys.take(i + 1);
            assert(next.drop_last() =~= keys.take(i as int));
            assert(next.last() == key@);
            assert(keys[i as int] == key@);
            assert(keys.contains(key@));
            assert(before.dom().contains(key@));
            assert(is_evicted == (before[key@] == right));
            if next.contains(left@) && !is_left {
                let j = choose|j: int| 0 <= j < next.len() && next[j] == left@;
                assert(keys.take(i as int)[j] == left@);
            }
            if found {
                let j = choose|j: int| 0 <= j < i && keys.take(i as int)[j] == left@;
                assert(next[j] == left@);
            }
            if is_left {
                assert(next[i as int] == left@);
            }
        }
        if is_left || !is_evicted {
            r.push(key.clone());
            assert(key_views(r@) =~= kept_keys(keys.take(i as int), before, left@, right).push(
                key@,
            ));
        }
        if is_left {
            found = true;
        }
        i += 1;
    }
    assert(keys.take(order@.len() as int) =~= keys);
    let ghost kept = kept_keys(keys, before, left@, right);
    if !found {
        r.push(left.clone());
        assert(key_views(r@) =~= kept.push(left@));
    }
    proof {
        let after = paired(before, left@, right);
        let result = key_views(r@);
        lemma_kept_keys(keys, before, left@, right);
        if !found {
            assert forall|k: Option<Seq<u8>>| result.contains(k) <==> kept.contains(k) || k
                == left@ by {
                if result.contains(k) {
                    let m = choose|m: int| 0 <= m < result.len() && result[m] == k;
                    if m < kept.len() {
                        assert(kept[m] == k);
                    }
                }
                if kept.contains(k) {
                    let m = choose|m: int| 0 <= m < kept.len() && kept[m] == k;
                    assert(result[m] == k);
                }
                if k == left@ {
                    assert(result[result.len() - 1] == k);
                }
            }
            assert forall|a: int, b: int| 0 <= a < b < result.len() implies result[a]
                != result[b] by {
                if b == kept.len() {
                    assert(kept.contains(kept[a]));
                }
            }
        }
        assert(distinct_names(result));
        assert forall|k: Option<Seq<u8>>| after.dom().contains(k) <==> result.contains(k) by {
            assert(before.dom().contains(k) <==> keys.contains(k));
            assert(kept.contains(k) <==> keys.contains(k) && (k == left@ || before[k] != right));
            assert(after.dom().contains(k) <==> k == left@ || (before.dom().contains(k)
                && before[k] != right));
            if found {
                assert(keys.contains(left@));
            } else {
                assert(result.contains(k) <==> kept.contains(k) || k == left@);
            }
        }
    }
    r
}

impl KeywordTable {
    #[verifier::type_invariant]
    spec fn inv(&self) -> bool {
        &&& keyword_pairs(self.pairs).dom().finite()
        &&& one_to_one(keyword_pairs(self.pairs))
        &&& lists_keys(keyword_pairs(self.pairs), key_views(self.order@))
    }

    /// The keys, in the order in which they came.
    pub closed spec fn keys(&self) -> Seq<Option<Seq<u8>>> {
        key_views(self.order@)
    }

    /// Whether the table is finite and one to one, and its keys are listed
    /// once each.
    pub open spec fn wf(&self) -> bool {
        &&& self@.dom().finite()
        &&& one_to_one(self@)
        &&& lists_keys(self@, self.keys())
    }

    /// A table without keywords.
    pub fn new() -> (r: Self)
        ensures
            r@ == no_pairs(),
            r.keys() == Seq::<Option<Seq<u8>>>::empty(),
            r.wf(),
    {
        let r = KeywordTable { pairs: bimap_new(), order: Vec::new() };
        assert(key_views(r.order@) =~= Seq::<Option<Seq<u8>>>::empty());
        r
    }

    /// The number of keywords.
    pub fn len(&self) -> (r: usize)
        ensures
            r == self@.dom().len(),
            self.wf(),
    {
        proof {
            use_type_invariant(self);
        }
        bimap_len(&self.pairs)
    }

    /// Gives `key` the keyword `word`. The keyword that `key` had and the
    /// key that had `word` leave the table.
    pub fn insert(&mut self, key: Value, word: String)
        ensures
            final(self)@ == paired(old(self)@, key@, word@),
            final(self).keys() == paired_keys(old(self).keys(), old(self)@, key@, word@),
            final(self).wf(),
    {
        proof {
            use_type_invariant(&*self);
            lemma_paired(self@, key@, word@);
        }
        let ghost before = self@;
        let left = left_of_key(&key);
        let mut taken = KeywordTable::new();
        core::mem::swap(self, &mut taken);
        let KeywordTable { mut pairs, order } = taken;
        let evicted = match bimap_get_right(&pairs, &word) {
            Some(l) => Some(key_of_left(l)),
            None => None,
        };
        let order = reorder(order, evicted.as_ref(), &key, Ghost(before), Ghost(word@));
        bimap_insert(&mut pairs, left, word);
        *self = KeywordTable { pairs, order };
    }

    /// The keyword of `key`.
    pub fn word_of(&self, key: &Value) -> (r: Option<&String>)
        ensures
            self.wf(),
            r is Some <==> self@.dom().contains(key@),
            r matches Some(word) ==> word@ == self@[key@],
    {
        proof {
            use_type_invariant(self);
        }
        let left = left_of_key(key);
        bimap_get_left(&self.pairs, &left)
    }

    /// The key that has the keyword `word`.
    pub fn key_of(&self, word: &String) -> (r: Option<Value>)
        ensures
            self.wf(),
            r is None <==> (forall|k: Option<Seq<u8>>|
                self@.dom().contains(k) ==> self@[k] != word@),
            r matches Some(key) ==> self@.dom().contains(key@) && self@[key@] == word@,
    {
        proof {
            use_type_invariant(self);
        }
        match bimap_get_right(&self.pairs, word) {
            Some(left) => Some(key_of_left(left)),
            None => None,
        }
    }

    /// The number of keys.
    pub fn count(&self) -> (r: usize)
        ensures
            r == self.keys().len(),
            self.wf(),
    {
        proof {
            use_type_invariant(self);
        }
        self.order.len()
    }

    /// The key at `i`, in the order in which the keys came.
    pub fn key_at(&self, i: usize) -> (r: &Value)
        requires
            i < self.keys().len(),
        ensures
            r@ == self.keys()[i as int],
            self@.dom().contains(r@),
    {
        proof {
            use_type_invariant(self);
            assert(self.keys().contains(self.keys()[i as int]));
        }
        &self.order[i]
    }
}

} // verus!
