//! One-to-one maps between object ids and what they are paired with, kept in
//! bimap's `BiMap`.

use crate::rocket_league::RLObject;
use bimap::{BiHashMap, BiMap};
use vstd::prelude::*;

verus! {

/// bimap's `BiHashMap`, the type that `BiMap` names with std's hashers. Its
/// fields are not read: what a map holds is known through [`actor_pairs`]
/// and [`object_pairs`] alone.
#[verifier::external_type_specification]
#[verifier::external_body]
#[verifier::reject_recursive_types(L)]
#[verifier::reject_recursive_types(R)]
#[verifier::reject_recursive_types(LS)]
#[verifier::reject_recursive_types(RS)]
pub struct ExBiHashMap<L, R, LS, RS>(BiHashMap<L, R, LS, RS>);

/// The pairs of an actor map: each object id on the left with the actor id
/// on its right.
pub uninterp spec fn actor_pairs(map: BiMap<i32, i32>) -> Map<i32, i32>;

/// The pairs of an object map: each object id on the left with the tracked
/// object on its right.
pub uninterp spec fn object_pairs(map: BiMap<i32, RLObject>) -> Map<i32, RLObject>;

/// `pairs` without the pair that has `right` on its right.
pub open spec fn unlink_right<L, R>(pairs: Map<L, R>, right: R) -> Map<L, R> {
    Map::new(|left: L| pairs.contains_key(left) && pairs[left] != right, |left: L| pairs[left])
}

/// `pairs` after `left` and `right` have been paired: what either of them
/// was paired with before is gone.
pub open spec fn link<L, R>(pairs: Map<L, R>, left: L, right: R) -> Map<L, R> {
    unlink_right(pairs, right).insert(left, right)
}

/// The left value that `pairs` has beside `right`, if there is one.
pub open spec fn left_of<L, R>(pairs: Map<L, R>, right: R) -> Option<L> {
    if exists|left: L| pairs.contains_pair(left, right) {
        Some(choose|left: L| pairs.contains_pair(left, right))
    } else {
        None
    }
}

/// No two left values of `pairs` share a right value.
pub open spec fn one_to_one<L, R>(pairs: Map<L, R>) -> bool {
    forall|a: L, b: L|
        pairs.contains_key(a) && pairs.contains_key(b) && pairs[a] == pairs[b] ==> a == b
}

/// Pairing two values keeps a map one-to-one.
pub proof fn lemma_link_one_to_one<L, R>(pairs: Map<L, R>, left: L, right: R)
    requires
        one_to_one(pairs),
    ensures
        one_to_one(link(pairs, left, right)),
        link(pairs, left, right).contains_pair(left, right),
        left_of(link(pairs, left, right), right) == Some(left),
{
    assert(link(pairs, left, right).contains_pair(left, right));
}

/// Taking a right value out keeps a map one-to-one, and leaves that value
/// without a partner.
pub proof fn lemma_unlink_right_one_to_one<L, R>(pairs: Map<L, R>, right: R)
    requires
        one_to_one(pairs),
    ensures
        one_to_one(unlink_right(pairs, right)),
        left_of(unlink_right(pairs, right), right) is None,
{
}

/// bimap's `BiMap::new`: the map it returns holds no pair.
#[verifier::external_body]
pub(crate) fn new_actor_map() -> (fresh: BiMap<i32, i32>)
    ensures
        actor_pairs(fresh).dom() == Set::<i32>::empty(),
{
    BiMap::new()
}

/// bimap's `BiMap::insert`: afterwards `object_id` and `actor_id` are
/// paired, and the pairs that held either of them before are gone. The other
/// pairs stay.
#[verifier::external_body]
pub(crate) fn pair_actor(map: &mut BiMap<i32, i32>, object_id: i32, actor_id: i32)
    ensures
        actor_pairs(*final(map)) == link(actor_pairs(*old(map)), object_id, actor_id),
{
    map.insert(object_id, actor_id);
}

/// bimap's `BiMap::get_by_right`: the one object id that is paired with
/// `actor_id`, or `None` where no pair holds `actor_id`.
#[verifier::external_body]
pub(crate) fn object_of_actor(map: &BiMap<i32, i32>, actor_id: i32) -> (found: Option<i32>)
    ensures
        match found {
            Some(object_id) => actor_pairs(*map).contains_pair(object_id, actor_id)
                && forall|other: i32|
                    actor_pairs(*map).contains_pair(other, actor_id) ==> other == object_id,
            None => forall|other: i32| !actor_pairs(*map).contains_pair(other, actor_id),
        },
{
    map.get_by_right(&actor_id).copied()
}

/// bimap's `BiMap::remove_by_right`: afterwards no pair holds `actor_id`, and
/// the other pairs stay.
#[verifier::external_body]
pub(crate) fn unpair_actor(map: &mut BiMap<i32, i32>, actor_id: i32)
    ensures
        actor_pairs(*final(map)) == unlink_right(actor_pairs(*old(map)), actor_id),
{
    map.remove_by_right(&actor_id);
}

/// bimap's `BiMap::new`: the map it returns holds no pair.
#[verifier::external_body]
pub(crate) fn new_object_map() -> (fresh: BiMap<i32, RLObject>)
    ensures
        object_pairs(fresh).dom() == Set::<i32>::empty(),
{
    BiMap::new()
}

/// bimap's `BiMap::insert`: afterwards `object_id` and `object` are paired,
/// and the pairs that held either of them before are gone. The other pairs
/// stay.
#[verifier::external_body]
pub(crate) fn pair_object(map: &mut BiMap<i32, RLObject>, object_id: i32, object: RLObject)
    ensures
        object_pairs(*final(map)) == link(object_pairs(*old(map)), object_id, object),
{
    map.insert(object_id, object);
}

/// bimap's `BiMap::contains_left`: whether a pair holds `object_id` on its
/// left.
#[verifier::external_body]
pub(crate) fn has_object_id(map: &BiMap<i32, RLObject>, object_id: i32) -> (held: bool)
    ensures
        held == object_pairs(*map).contains_key(object_id),
{
    map.contains_left(&object_id)
}

/// bimap's `BiMap::left_values`: every object id on the left of a pair, each
/// once, in an order that is left open.
#[verifier::external_body]
pub(crate) fn object_ids(map: &BiMap<i32, RLObject>) -> (ids: Vec<i32>)
    ensures
        ids@.no_duplicates(),
        ids@.to_set() == object_pairs(*map).dom(),
{
    map.left_values().copied().collect()
}

} // verus!
