//! What flattening computes, stated over maps and sequences.

use crate::pairing::{left_of, link};
use crate::replay::{ActorUpdate, NetworkFrameView, NewActor};
use crate::rocket_league::{classify, RLObject};
use crate::spatial::ObjectData;
use vstd::prelude::*;

verus! {

/// Whether `id` is, among the first `n` names of an object table, the last
/// index at which its tracked object is listed.
pub open spec fn is_last_listed(names: Seq<Seq<char>>, n: int, id: i32) -> bool {
    &&& 0 <= id < n
    &&& classify(names[id as int]) is Some
    &&& forall|later: int|
        id < later < n ==> classify(#[trigger] names[later]) != classify(names[id as int])
}

/// Whether the pair that `known` holds for `id` outlasts the first `n` names
/// of an object table: none of them lists its object, and `id` is not the
/// index of a tracked name.
pub open spec fn stays_known(
    known: Map<i32, RLObject>,
    names: Seq<Seq<char>>,
    n: int,
    id: i32,
) -> bool {
    &&& known.contains_key(id)
    &&& !(0 <= id < n && classify(names[id as int]) is Some)
    &&& forall|at: int| 0 <= at < n ==> classify(#[trigger] names[at]) != Some(known[id])
}

/// The tracked objects by id once the first `n` names of an object table
/// have been read into `known`: each tracked object stands under the last
/// index that lists it, and a pair of `known` stays where the names do not
/// touch it.
pub open spec fn scanned(known: Map<i32, RLObject>, names: Seq<Seq<char>>, n: int) -> Map<
    i32,
    RLObject,
> {
    Map::new(
        |id: i32| is_last_listed(names, n, id) || stays_known(known, names, n, id),
        |id: i32|
            if is_last_listed(names, n, id) {
                classify(names[id as int]).unwrap()
            } else {
                known[id]
            },
    )
}

/// The tracked objects by id once a whole object table has been read into
/// `known`.
pub open spec fn scan_objects(known: Map<i32, RLObject>, names: Seq<Seq<char>>) -> Map<
    i32,
    RLObject,
> {
    scanned(known, names, names.len() as int)
}

/// The bindings after one spawn: an actor of a tracked object is bound to
/// that object, and any other spawn changes nothing.
pub open spec fn spawned(catalog: Set<i32>, bindings: Map<i32, i32>, actor: NewActor) -> Map<
    i32,
    i32,
> {
    if catalog.contains(actor.object_id) {
        link(bindings, actor.object_id, actor.actor_id)
    } else {
        bindings
    }
}

/// The bindings after the spawns of `actors`, taken in order.
pub open spec fn spawned_all(
    catalog: Set<i32>,
    bindings: Map<i32, i32>,
    actors: Seq<NewActor>,
) -> Map<i32, i32>
    decreases actors.len(),
{
    if actors.len() == 0 {
        bindings
    } else {
        spawned(catalog, spawned_all(catalog, bindings, actors.drop_last()), actors.last())
    }
}

/// The bindings after the actors listed in `deleted` are gone.
pub open spec fn despawned_all(bindings: Map<i32, i32>, deleted: Seq<i32>) -> Map<i32, i32> {
    Map::new(
        |id: i32| bindings.contains_key(id) && !deleted.contains(bindings[id]),
        |id: i32| bindings[id],
    )
}

/// What `objects` holds for `id`; nothing has been seen of an object that it
/// does not hold.
pub open spec fn data_of(objects: Map<i32, ObjectData>, id: i32) -> ObjectData {
    if objects.contains_key(id) {
        objects[id]
    } else {
        ObjectData::unseen()
    }
}

/// The object data after one update: the object that the updated actor is
/// bound to takes over what the update brings; an update of an actor that
/// is bound to nothing changes nothing.
pub open spec fn updated(
    bindings: Map<i32, i32>,
    objects: Map<i32, ObjectData>,
    update: ActorUpdate,
) -> Map<i32, ObjectData> {
    match left_of(bindings, update.actor_id) {
        Some(id) => objects.insert(
            id,
            data_of(objects, id).merged(update.position, update.rotation),
        ),
        None => objects,
    }
}

/// The object data after `updates`, taken in order.
pub open spec fn updated_all(
    bindings: Map<i32, i32>,
    objects: Map<i32, ObjectData>,
    updates: Seq<ActorUpdate>,
) -> Map<i32, ObjectData>
    decreases updates.len(),
{
    if updates.len() == 0 {
        objects
    } else {
        updated(bindings, updated_all(bindings, objects, updates.drop_last()), updates.last())
    }
}

/// What is carried from one frame to the next: which actor each tracked
/// object is bound to, and what is known of each tracked object.
pub struct Tracking {
    pub bindings: Map<i32, i32>,
    pub objects: Map<i32, ObjectData>,
}

/// What one frame of a flattened replay holds.
pub struct FrameView {
    pub delta: u32,
    pub objects: Map<i32, ObjectData>,
}

/// The object data before the first frame: every tracked object is there,
/// and nothing has been seen of it.
pub open spec fn unseen_objects(catalog: Set<i32>) -> Map<i32, ObjectData> {
    Map::new(|id: i32| catalog.contains(id), |id: i32| ObjectData::unseen())
}

/// The state before the first frame.
pub open spec fn tracking_start(catalog: Set<i32>) -> Tracking {
    Tracking { bindings: Map::empty(), objects: unseen_objects(catalog) }
}

/// The bindings under which the updates of `frame` are read: those of
/// `state` after the spawns of the frame.
pub open spec fn frame_bindings(
    catalog: Set<i32>,
    state: Tracking,
    frame: NetworkFrameView,
) -> Map<i32, i32> {
    spawned_all(catalog, state.bindings, frame.new_actors)
}

/// The state after one frame: first its spawns, then its updates, then its
/// deletions.
pub open spec fn advanced(catalog: Set<i32>, state: Tracking, frame: NetworkFrameView) -> Tracking {
    let bindings = frame_bindings(catalog, state, frame);
    Tracking {
        bindings: despawned_all(bindings, frame.deleted_actors),
        objects: updated_all(bindings, state.objects, frame.updated_actors),
    }
}

/// The state after `frames`, taken in order from the start.
pub open spec fn tracking_after(catalog: Set<i32>, frames: Seq<NetworkFrameView>) -> Tracking
    decreases frames.len(),
{
    if frames.len() == 0 {
        tracking_start(catalog)
    } else {
        advanced(catalog, tracking_after(catalog, frames.drop_last()), frames.last())
    }
}

/// The flattened frame at index `n`: the delta of frame `n`, and the object
/// data after the frames up to and with frame `n`.
pub open spec fn flattened_frame(
    catalog: Set<i32>,
    frames: Seq<NetworkFrameView>,
    n: int,
) -> FrameView {
    FrameView {
        delta: frames[n].delta,
        objects: tracking_after(catalog, frames.take(n + 1)).objects,
    }
}

/// The flattened frames of a replay: one for each of `frames`.
pub open spec fn flattened(catalog: Set<i32>, frames: Seq<NetworkFrameView>) -> Seq<FrameView> {
    Seq::new(frames.len(), |n: int| flattened_frame(catalog, frames, n))
}

} // verus!
