//! Keywords and the byte values they stand for, one to one.
//!
//! The pairs are held by the bidirectional hash map of the `isomorphism`
//! crate. Nothing here is proved: each function states what the crate's own
//! source shows of the call it makes.

use vstd::prelude::*;
use isomorphism::BiMap;

verus! {

/// `isomorphism::BiMap`: a hash map that is looked up from either side.
/// What it holds is told by `keyword_pairs`.
#[verifier::external_type_specification]
#[verifier::external_body]
#[verifier::reject_recursive_types(L)]
#[verifier::reject_recursive_types(R)]
#[verifier::reject_recursive_types(LH)]
#[verifier::reject_recursive_types(RH)]
#[verifier::reject_recursive_types(B)]
pub struct ExBiMap<L, R, LH, RH, B>(BiMap<L, R, LH, RH, B>);

/// The pairs that a map holds: each left item with the right item that
/// belongs to it. `None` on the left is the wildcard.
pub uninterp spec fn keyword_pairs(m: BiMap<Option<Vec<u8>>, String>) -> Map<
    Option<Seq<u8>>,
    Seq<char>,
>;

/// No pairs at all.
pub open spec fn no_pairs() -> Map<Option<Seq<u8>>, Seq<char>> {
    Map::empty()
}

/// The pairs of `before` after `left` and `right` were inserted: what was
/// paired with either is gone, and the two are paired.
pub open spec fn paired(
    before: Map<Option<Seq<u8>>, Seq<char>>,
    left: Option<Seq<u8>>,
    right: Seq<char>,
) -> Map<Option<Seq<u8>>, Seq<char>> {
    Map::new(
        |k: Option<Seq<u8>>| k == left || (before.dom().contains(k) && before[k] != right),
        |k: Option<Seq<u8>>|
            if k == left {
                right
            } else {
                before[k]
            },
    )
}

/// The bytes of a left item as a sequence.
pub open spec fn left_view(left: Option<Vec<u8>>) -> Option<Seq<u8>> {
    match left {
        Some(bytes) => Some(bytes@),
        None => None,
    }
}

/// `BiMap::new`: a map without pairs.
#[verifier::external_body]
pub(crate) fn bimap_new() -> (r: BiMap<Option<Vec<u8>>, String>)
    ensures
        keyword_pairs(r) == no_pairs(),
{
    BiMap::new()
}

/// `BiMap::insert`: removes the pair of `left` and the pair of `right`,
/// where there are such, and pairs the two.
#[verifier::external_body]
pub(crate) fn bimap_insert(m: &mut BiMap<Option<Vec<u8>>, String>, left: Option<Vec<u8>>, right: String)
    ensures
        keyword_pairs(*final(m)) == paired(keyword_pairs(*old(m)), left_view(left), right@),
{
    m.insert(left, right);
}

/// `BiMap::get_left`: the right item that is paired with `left`.
#[verifier::external_body]
pub(crate) fn bimap_get_left<'a>(m: &'a BiMap<Option<Vec<u8>>, String>, left: &Option<Vec<u8>>) -> (r:
    Option<&'a String>)
    ensures
        r is Some <==> keyword_pairs(*m).dom().contains(left_view(*left)),
        r matches Some(right) ==> right@ == keyword_pairs(*m)[left_view(*left)],
{
    m.get_left(left)
}

/// `BiMap::get_right`: the left item that is paired with `right`.
#[verifier::external_body]
pub(crate) fn bimap_get_right<'a>(m: &'a BiMap<Option<Vec<u8>>, String>, right: &String) -> (r:
    Option<&'a Option<Vec<u8>>>)
    ensures
        r is None <==> (forall|k: Option<Seq<u8>>|
            keyword_pairs(*m).dom().contains(k) ==> keyword_pairs(*m)[k] != right@),
        r matches Some(left) ==> keyword_pairs(*m).dom().contains(left_view(*left)),
        r matches Some(left) ==> keyword_pairs(*m)[left_view(*left)] == right@,
{
    m.get_right(right)
}

/// `BiMap::len`: the number of pairs.
#[verifier::external_body]
pub(crate) fn bimap_len(m: &BiMap<Option<Vec<u8>>, String>) -> (r: usize)
    ensures
        r == keyword_pairs(*m).dom().len(),
{
    m.len()
}

} // verus!
