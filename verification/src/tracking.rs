//! The steps of one frame: spawns bind actors, updates are folded into the
//! object data, deletions unbind actors.

use crate::model::{despawned_all, spawned_all, updated_all};
use crate::pairing::{
    actor_pairs, has_object_id, left_of, object_of_actor, object_pairs, pair_actor, unpair_actor,
};
use crate::replay::{ActorUpdate, NewActor};
use crate::rocket_league::RLObject;
use crate::spatial::ObjectData;
use bimap::BiMap;
use std::collections::HashMap;
use vstd::prelude::*;

verus! {

broadcast use vstd::std_specs::hash::group_hash_axioms;

/// Binds each actor of `new_actors` that is an instance of a tracked object
/// to that object, in order. A binding replaces what the object and the
/// actor were bound to before; an actor of an object that `objects` does not
/// hold is passed over.
pub fn apply_spawns(
    objects: &BiMap<i32, RLObject>,
    actor_map: &mut BiMap<i32, i32>,
    new_actors: &Vec<NewActor>,
)
    ensures
        actor_pairs(*final(actor_map)) == spawned_all(
            object_pairs(*objects).dom(),
            actor_pairs(*old(actor_map)),
            new_actors@,
        ),
{
    let ghost catalog = object_pairs(*objects).dom();
    let ghost before = actor_pairs(*actor_map);
    let mut i: usize = 0;
    while i < new_actors.len()
        invariant
            i <= new_actors.len(),
            catalog == object_pairs(*objects).dom(),
            actor_pairs(*actor_map) == spawned_all(catalog, before, new_actors@.take(i as int)),
        decreases new_actors.len() - i,
    {
        let actor = new_actors[i];
        proof {
            assert(new_actors@.take(i as int + 1).drop_last() == new_actors@.take(i as int));
        }
        if has_object_id(objects, actor.object_id) {
            pair_actor(actor_map, actor.object_id, actor.actor_id);
        }
        i += 1;
    }
    proof {
        assert(new_actors@.take(i as int) == new_actors@);
    }
}

/// Folds `updates` into `object_map`, in order: the object that an updated
/// actor is bound to takes over the position and the rotation that the
/// update brings and keeps what it does not bring. An update of an actor
/// that is bound to nothing is passed over.
pub fn fold(
    actor_map: &BiMap<i32, i32>,
    object_map: &mut HashMap<i32, ObjectData>,
    updates: &Vec<ActorUpdate>,
)
    ensures
        final(object_map)@ == updated_all(actor_pairs(*actor_map), old(object_map)@, updates@),
{
    let ghost bindings = actor_pairs(*actor_map);
    let ghost before = object_map@;
    let mut i: usize = 0;
    while i < updates.len()
        invariant
            i <= updates.len(),
            bindings == actor_pairs(*actor_map),
            object_map@ == updated_all(bindings, before, updates@.take(i as int)),
        decreases updates.len() - i,
    {
        let update = updates[i];
        proof {
            assert(updates@.take(i as int + 1).drop_last() == updates@.take(i as int));
        }
        match object_of_actor(actor_map, update.actor_id) {
            Some(id) => {
                let mut data = match object_map.get(&id) {
                    Some(held) => *held,
                    None => ObjectData::default(),
                };
                data.merge(update.position, update.rotation);
                object_map.insert(id, data);
                proof {
                    assert(left_of(bindings, update.actor_id) == Some(id));
                }
            },
            None => {
                proof {
                    assert(left_of(bindings, update.actor_id) is None);
                }
            },
        }
        i += 1;
    }
    proof {
        assert(updates@.take(i as int) == updates@);
    }
}

/// Unbinds each actor of `deleted`. An id that no object is bound to is
/// passed over.
pub fn apply_despawns(actor_map: &mut BiMap<i32, i32>, deleted: &Vec<i32>)
    ensures
        actor_pairs(*final(actor_map)) == despawned_all(actor_pairs(*old(actor_map)), deleted@),
{
    let ghost before = actor_pairs(*actor_map);
    let mut i: usize = 0;
    while i < deleted.len()
        invariant
            i <= deleted.len(),
            actor_pairs(*actor_map) == despawned_all(before, deleted@.take(i as int)),
        decreases deleted.len() - i,
    {
        proof {
            let shorter = deleted@.take(i as int);
            let longer = deleted@.take(i as int + 1);
            assert forall|actor_id: i32|
                longer.contains(actor_id) <==> shorter.contains(actor_id) || actor_id
                    == deleted@[i as int] by {
                if shorter.contains(actor_id) {
                    let at = choose|at: int| 0 <= at < shorter.len() && shorter[at] == actor_id;
                    assert(longer[at] == actor_id);
                }
                if actor_id == deleted@[i as int] {
                    assert(longer[i as int] == actor_id);
                }
            }
        }
        unpair_actor(actor_map, deleted[i]);
        i += 1;
    }
    proof {
        assert(deleted@.take(i as int) == deleted@);
    }
}

} // verus!
