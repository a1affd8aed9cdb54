//! What holds of every flattened replay.

use crate::model::{
    advanced, data_of, flattened, frame_bindings, is_last_listed, scan_objects, spawned_all,
    stays_known, tracking_after, tracking_start, updated, updated_all, Tracking,
};
use crate::pairing::{left_of, lemma_link_one_to_one, one_to_one};
use crate::replay::{ActorUpdate, NetworkFrameView, NewActor};
use crate::rocket_league::{classify, RLObject};
use crate::spatial::ObjectData;
use vstd::prelude::*;

verus! {

/// The state in which frame `n` of `frames` starts.
pub open spec fn tracking_before(
    catalog: Set<i32>,
    frames: Seq<NetworkFrameView>,
    n: int,
) -> Tracking {
    tracking_after(catalog, frames.take(n))
}

/// The bindings under which the updates of frame `n` are read.
pub open spec fn bindings_in(catalog: Set<i32>, frames: Seq<NetworkFrameView>, n: int) -> Map<
    i32,
    i32,
> {
    frame_bindings(catalog, tracking_before(catalog, frames, n), frames[n])
}

/// Whether one of `updates` is of the actor that `id` is bound to.
pub open spec fn observes(bindings: Map<i32, i32>, updates: Seq<ActorUpdate>, id: i32) -> bool {
    exists|k: int|
        0 <= k < updates.len() && bindings.contains_pair(id, (#[trigger] updates[k]).actor_id)
}

/// `frame` with `actor` put in among its spawns, before the spawn at `k`.
pub open spec fn with_spawn(frame: NetworkFrameView, k: int, actor: NewActor) -> NetworkFrameView {
    NetworkFrameView { new_actors: frame.new_actors.insert(k, actor), ..frame }
}

/// `frame` with `update` put in among its updates, before the update at `k`.
pub open spec fn with_update(
    frame: NetworkFrameView,
    k: int,
    update: ActorUpdate,
) -> NetworkFrameView {
    NetworkFrameView { updated_actors: frame.updated_actors.insert(k, update), ..frame }
}

/// An object table read into a one-to-one map gives a one-to-one map: no
/// tracked object stands under two ids.
pub proof fn lemma_scan_objects_one_to_one(known: Map<i32, RLObject>, names: Seq<Seq<char>>)
    requires
        one_to_one(known),
    ensures
        one_to_one(scan_objects(known, names)),
{
    let n = names.len() as int;
    let scanned = scan_objects(known, names);
    assert forall|a: i32, b: i32|
        scanned.contains_key(a) && scanned.contains_key(b) && scanned[a] == scanned[b] implies a
        == b by {
        if is_last_listed(names, n, a) && is_last_listed(names, n, b) {
            if a < b {
                assert(classify(names[b as int]) == classify(names[a as int]));
            } else if b < a {
                assert(classify(names[a as int]) == classify(names[b as int]));
            }
        } else if is_last_listed(names, n, a) {
            assert(stays_known(known, names, n, b));
            assert(classify(names[a as int]) != Some(known[b]));
        } else if is_last_listed(names, n, b) {
            assert(stays_known(known, names, n, a));
            assert(classify(names[b as int]) != Some(known[a]));
        }
    }
}

/// The last index, among the first `n` names of an object table, that lists
/// what the name at index `at` lists.
proof fn last_listing(names: Seq<Seq<char>>, n: int, at: int) -> (id: int)
    requires
        0 <= at < n <= names.len(),
    ensures
        at <= id < n,
        classify(names[id]) == classify(names[at]),
        forall|later: int|
            id < later < n ==> classify(#[trigger] names[later]) != classify(names[at]),
    decreases n - at,
{
    if exists|later: int|
        at < later < n && classify(#[trigger] names[later]) == classify(names[at]) {
        let later = choose|later: int|
            at < later < n && classify(#[trigger] names[later]) == classify(names[at]);
        last_listing(names, n, later)
    } else {
        at
    }
}

/// Read into an empty map, an object table gives each tracked object that
/// it lists, and no other: an object stands under an id exactly when the
/// name at that index is the last that lists it.
pub proof fn lemma_scan_objects_fresh(names: Seq<Seq<char>>, id: i32, object: RLObject)
    ensures
        scan_objects(Map::empty(), names).contains_pair(id, object) <==> classify(names[id as int])
            == Some(object) && is_last_listed(names, names.len() as int, id),
{
}

/// A tracked object that an object table lists is in the map that the table
/// is read into, under an index that lists it.
pub proof fn lemma_scan_objects_finds_listed(
    known: Map<i32, RLObject>,
    names: Seq<Seq<char>>,
    at: int,
    object: RLObject,
)
    requires
        0 <= at < names.len() <= i32::MAX,
        classify(names[at]) == Some(object),
    ensures
        exists|id: i32|
            at <= id < names.len() && classify(names[id as int]) == Some(object) && scan_objects(
                known,
                names,
            ).contains_pair(id, object),
{
    let last = last_listing(names, names.len() as int, at);
    let id = last as i32;
    assert(is_last_listed(names, names.len() as int, id));
    assert(scan_objects(known, names).contains_pair(id, object));
}

/// Spawns keep the bindings one-to-one and within the tracked objects.
pub proof fn lemma_spawned_all_bindings(
    catalog: Set<i32>,
    bindings: Map<i32, i32>,
    actors: Seq<NewActor>,
)
    requires
        one_to_one(bindings),
        bindings.dom().subset_of(catalog),
    ensures
        one_to_one(spawned_all(catalog, bindings, actors)),
        spawned_all(catalog, bindings, actors).dom().subset_of(catalog),
    decreases actors.len(),
{
    if actors.len() > 0 {
        lemma_spawned_all_bindings(catalog, bindings, actors.drop_last());
        let before = spawned_all(catalog, bindings, actors.drop_last());
        lemma_link_one_to_one(before, actors.last().object_id, actors.last().actor_id);
    }
}

/// Updates that are read under bindings within the tracked objects neither
/// add an object nor take one away.
pub proof fn lemma_updated_all_objects(
    bindings: Map<i32, i32>,
    objects: Map<i32, ObjectData>,
    updates: Seq<ActorUpdate>,
)
    requires
        bindings.dom().subset_of(objects.dom()),
    ensures
        updated_all(bindings, objects, updates).dom() == objects.dom(),
    decreases updates.len(),
{
    if updates.len() > 0 {
        lemma_updated_all_objects(bindings, objects, updates.drop_last());
        let before = updated_all(bindings, objects, updates.drop_last());
        let after = updated(bindings, before, updates.last());
        assert(after.dom() =~= before.dom());
    }
}

/// At every point of a replay the bindings are one-to-one and bind tracked
/// objects only, and the object data holds the tracked objects and no
/// other.
pub proof fn lemma_tracking_holds_catalog(catalog: Set<i32>, frames: Seq<NetworkFrameView>)
    ensures
        one_to_one(tracking_after(catalog, frames).bindings),
        tracking_after(catalog, frames).bindings.dom().subset_of(catalog),
        tracking_after(catalog, frames).objects.dom() == catalog,
    decreases frames.len(),
{
    if frames.len() == 0 {
        assert(tracking_start(catalog).objects.dom() =~= catalog);
    } else {
        lemma_tracking_holds_catalog(catalog, frames.drop_last());
        let state = tracking_after(catalog, frames.drop_last());
        let frame = frames.last();
        lemma_spawned_all_bindings(catalog, state.bindings, frame.new_actors);
        let bindings = frame_bindings(catalog, state, frame);
        lemma_updated_all_objects(bindings, state.objects, frame.updated_actors);
    }
}

/// Every frame of a flattened replay holds each tracked object, and no
/// other object.
pub proof fn lemma_every_frame_holds_catalog(
    catalog: Set<i32>,
    frames: Seq<NetworkFrameView>,
    n: int,
)
    requires
        0 <= n < frames.len(),
    ensures
        flattened(catalog, frames).len() == frames.len(),
        flattened(catalog, frames)[n].objects.dom() == catalog,
        flattened(catalog, frames)[n].delta == frames[n].delta,
{
    lemma_tracking_holds_catalog(catalog, frames.take(n + 1));
}

/// An update reaches the object that its actor is bound to: that object
/// takes over what the update brings and keeps the rest, and every other
/// object stays as it was.
pub proof fn lemma_update_reaches_bound_object(
    bindings: Map<i32, i32>,
    objects: Map<i32, ObjectData>,
    update: ActorUpdate,
    id: i32,
)
    requires
        one_to_one(bindings),
        bindings.contains_pair(id, update.actor_id),
    ensures
        updated(bindings, objects, update)[id] == data_of(objects, id).merged(
            update.position,
            update.rotation,
        ),
        forall|other: i32|
            other != id ==> data_of(updated(bindings, objects, update), other) == data_of(
                objects,
                other,
            ),
{
    assert(left_of(bindings, update.actor_id) == Some(id));
}

/// Updates of which none is of the actor that `id` is bound to leave the
/// data of `id` as it was.
pub proof fn lemma_updated_all_keeps_unobserved(
    bindings: Map<i32, i32>,
    objects: Map<i32, ObjectData>,
    updates: Seq<ActorUpdate>,
    id: i32,
)
    requires
        !observes(bindings, updates, id),
    ensures
        updated_all(bindings, objects, updates).contains_key(id) == objects.contains_key(id),
        data_of(updated_all(bindings, objects, updates), id) == data_of(objects, id),
    decreases updates.len(),
{
    if updates.len() > 0 {
        let shorter = updates.drop_last();
        assert(!observes(bindings, shorter, id)) by {
            if observes(bindings, shorter, id) {
                let k = choose|k: int|
                    0 <= k < shorter.len() && bindings.contains_pair(
                        id,
                        (#[trigger] shorter[k]).actor_id,
                    );
                assert(bindings.contains_pair(id, updates[k].actor_id));
            }
        }
        lemma_updated_all_keeps_unobserved(bindings, objects, shorter, id);
        assert(!bindings.contains_pair(id, updates[updates.len() - 1].actor_id));
    }
}

/// Carry-forward: a frame that holds no update of the actor that a tracked
/// object is bound to shows that object as the frame before showed it.
pub proof fn lemma_carry_forward(
    catalog: Set<i32>,
    frames: Seq<NetworkFrameView>,
    n: int,
    id: i32,
)
    requires
        1 <= n < frames.len(),
        catalog.contains(id),
        !observes(bindings_in(catalog, frames, n), frames[n].updated_actors, id),
    ensures
        flattened(catalog, frames)[n].objects[id] == flattened(catalog, frames)[n - 1].objects[id],
{
    let state = tracking_before(catalog, frames, n);
    assert(frames.take(n + 1).drop_last() == frames.take(n));
    assert(frames.take(n + 1).last() == frames[n]);
    assert(frames.take(n - 1 + 1) == frames.take(n));
    lemma_tracking_holds_catalog(catalog, frames.take(n));
    lemma_tracking_holds_catalog(catalog, frames.take(n + 1));
    lemma_updated_all_keeps_unobserved(
        bindings_in(catalog, frames, n),
        state.objects,
        frames[n].updated_actors,
        id,
    );
}

/// A tracked object of which no frame up to frame `n` holds an update shows
/// neither position nor rotation in frame `n`.
pub proof fn lemma_unobserved_is_unseen(
    catalog: Set<i32>,
    frames: Seq<NetworkFrameView>,
    n: int,
    id: i32,
)
    requires
        0 <= n < frames.len(),
        catalog.contains(id),
        forall|m: int|
            0 <= m <= n ==> !observes(
                #[trigger] bindings_in(catalog, frames, m),
                frames[m].updated_actors,
                id,
            ),
    ensures
        flattened(catalog, frames)[n].objects[id] == ObjectData::unseen(),
    decreases n,
{
    let state = tracking_before(catalog, frames, n);
    assert(frames.take(n + 1).drop_last() == frames.take(n));
    assert(frames.take(n + 1).last() == frames[n]);
    lemma_tracking_holds_catalog(catalog, frames.take(n));
    lemma_tracking_holds_catalog(catalog, frames.take(n + 1));
    assert(!observes(bindings_in(catalog, frames, n), frames[n].updated_actors, id));
    lemma_updated_all_keeps_unobserved(
        bindings_in(catalog, frames, n),
        state.objects,
        frames[n].updated_actors,
        id,
    );
    if n == 0 {
        assert(frames.take(0) =~= Seq::<NetworkFrameView>::empty());
    } else {
        lemma_unobserved_is_unseen(catalog, frames, n - 1, id);
        assert(frames.take(n - 1 + 1) == frames.take(n));
    }
}

/// A spawn of an object that is not tracked, put anywhere among other
/// spawns, changes nothing of what they do.
pub proof fn lemma_spawned_all_skips_untracked(
    catalog: Set<i32>,
    bindings: Map<i32, i32>,
    actors: Seq<NewActor>,
    k: int,
    actor: NewActor,
)
    requires
        0 <= k <= actors.len(),
        !catalog.contains(actor.object_id),
    ensures
        spawned_all(catalog, bindings, actors.insert(k, actor)) == spawned_all(
            catalog,
            bindings,
            actors,
        ),
    decreases actors.len(),
{
    let longer = actors.insert(k, actor);
    if k == actors.len() {
        assert(longer.drop_last() == actors);
        assert(longer.last() == actor);
    } else {
        assert(longer.drop_last() == actors.drop_last().insert(k, actor));
        assert(longer.last() == actors.last());
        lemma_spawned_all_skips_untracked(catalog, bindings, actors.drop_last(), k, actor);
    }
}

/// An update of an actor that is bound to nothing, put anywhere among other
/// updates, changes nothing of what they do.
pub proof fn lemma_updated_all_skips_unbound(
    bindings: Map<i32, i32>,
    objects: Map<i32, ObjectData>,
    updates: Seq<ActorUpdate>,
    k: int,
    update: ActorUpdate,
)
    requires
        0 <= k <= updates.len(),
        left_of(bindings, update.actor_id) is None,
    ensures
        updated_all(bindings, objects, updates.insert(k, update)) == updated_all(
            bindings,
            objects,
            updates,
        ),
    decreases updates.len(),
{
    let longer = updates.insert(k, update);
    if k == updates.len() {
        assert(longer.drop_last() == updates);
        assert(longer.last() == update);
    } else {
        assert(longer.drop_last() == updates.drop_last().insert(k, update));
        assert(longer.last() == updates.last());
        lemma_updated_all_skips_unbound(bindings, objects, updates.drop_last(), k, update);
    }
}

/// Replacing frame `n` by a frame of the same delta that leads from the
/// same state to the same state leaves the flattened replay as it was.
pub proof fn lemma_flattened_same_step(
    catalog: Set<i32>,
    frames: Seq<NetworkFrameView>,
    n: int,
    other: NetworkFrameView,
)
    requires
        0 <= n < frames.len(),
        other.delta == frames[n].delta,
        advanced(catalog, tracking_before(catalog, frames, n), other) == advanced(
            catalog,
            tracking_before(catalog, frames, n),
            frames[n],
        ),
    ensures
        flattened(catalog, frames.update(n, other)) == flattened(catalog, frames),
{
    let changed = frames.update(n, other);
    assert forall|m: int| 0 <= m <= frames.len() implies tracking_after(catalog, changed.take(m))
        == tracking_after(catalog, frames.take(m)) by {
        lemma_tracking_same_step(catalog, frames, n, other, m);
    }
    assert forall|m: int| 0 <= m < frames.len() implies flattened(catalog, changed)[m]
        == flattened(catalog, frames)[m] by {
        assert(tracking_after(catalog, changed.take(m + 1)) == tracking_after(
            catalog,
            frames.take(m + 1),
        ));
    }
    assert(flattened(catalog, changed) =~= flattened(catalog, frames));
}

/// The states along a replay stay the same where frame `n` is replaced by a
/// frame that leads from the same state to the same state.
proof fn lemma_tracking_same_step(
    catalog: Set<i32>,
    frames: Seq<NetworkFrameView>,
    n: int,
    other: NetworkFrameView,
    m: int,
)
    requires
        0 <= n < frames.len(),
        0 <= m <= frames.len(),
        advanced(catalog, tracking_before(catalog, frames, n), other) == advanced(
            catalog,
            tracking_before(catalog, frames, n),
            frames[n],
        ),
    ensures
        tracking_after(catalog, frames.update(n, other).take(m)) == tracking_after(
            catalog,
            frames.take(m),
        ),
    decreases m,
{
    let changed = frames.update(n, other);
    if m <= n {
        assert(changed.take(m) =~= frames.take(m));
    } else {
        lemma_tracking_same_step(catalog, frames, n, other, m - 1);
        assert(changed.take(m).drop_last() == changed.take(m - 1));
        assert(frames.take(m).drop_last() == frames.take(m - 1));
        assert(changed.take(m).last() == changed[m - 1]);
        assert(frames.take(m).last() == frames[m - 1]);
    }
}

/// A spawn of an object that is not tracked never shows in the flattened
/// replay: with it put into any frame, at any place among the spawns of
/// that frame, every flattened frame is what it is without it.
pub proof fn lemma_untracked_spawn_ignored(
    catalog: Set<i32>,
    frames: Seq<NetworkFrameView>,
    n: int,
    k: int,
    actor: NewActor,
)
    requires
        0 <= n < frames.len(),
        0 <= k <= frames[n].new_actors.len(),
        !catalog.contains(actor.object_id),
    ensures
        flattened(catalog, frames.update(n, with_spawn(frames[n], k, actor))) == flattened(
            catalog,
            frames,
        ),
{
    let state = tracking_before(catalog, frames, n);
    lemma_spawned_all_skips_untracked(catalog, state.bindings, frames[n].new_actors, k, actor);
    lemma_flattened_same_step(catalog, frames, n, with_spawn(frames[n], k, actor));
}

/// An update of an actor that no tracked object is bound to never shows in
/// the flattened replay: with it put into any frame, at any place among the
/// updates of that frame, every flattened frame is what it is without it.
pub proof fn lemma_unbound_update_ignored(
    catalog: Set<i32>,
    frames: Seq<NetworkFrameView>,
    n: int,
    k: int,
    update: ActorUpdate,
)
    requires
        0 <= n < frames.len(),
        0 <= k <= frames[n].updated_actors.len(),
        forall|id: i32| !bindings_in(catalog, frames, n).contains_pair(id, update.actor_id),
    ensures
        flattened(catalog, frames.update(n, with_update(frames[n], k, update))) == flattened(
            catalog,
            frames,
        ),
{
    let state = tracking_before(catalog, frames, n);
    let bindings = bindings_in(catalog, frames, n);
    lemma_updated_all_skips_unbound(
        bindings,
        state.objects,
        frames[n].updated_actors,
        k,
        update,
    );
    lemma_flattened_same_step(catalog, frames, n, with_update(frames[n], k, update));
}

/// Whether a spawn is of a tracked object.
pub open spec fn of_tracked_object(catalog: Set<i32>) -> spec_fn(NewActor) -> bool {
    |actor: NewActor| catalog.contains(actor.object_id)
}

/// Whether an update is of an actor that `bindings` binds to an object.
pub open spec fn of_bound_actor(bindings: Map<i32, i32>) -> spec_fn(ActorUpdate) -> bool {
    |update: ActorUpdate| left_of(bindings, update.actor_id) is Some
}

/// Frame `n` of `frames` without the spawns of objects that are not tracked
/// and without the updates of actors that are bound to no object when the
/// updates of the frame are read.
pub open spec fn frame_without_untracked(
    catalog: Set<i32>,
    frames: Seq<NetworkFrameView>,
    n: int,
) -> NetworkFrameView {
    NetworkFrameView {
        new_actors: frames[n].new_actors.filter(of_tracked_object(catalog)),
        updated_actors: frames[n].updated_actors.filter(
            of_bound_actor(bindings_in(catalog, frames, n)),
        ),
        ..frames[n]
    }
}

/// `frames` without every spawn and every update that concerns no tracked
/// object.
pub open spec fn without_untracked(catalog: Set<i32>, frames: Seq<NetworkFrameView>) -> Seq<
    NetworkFrameView,
> {
    Seq::new(frames.len(), |n: int| frame_without_untracked(catalog, frames, n))
}

/// Spawns do what the spawns of tracked objects among them do.
pub proof fn lemma_spawned_all_of_tracked(
    catalog: Set<i32>,
    bindings: Map<i32, i32>,
    actors: Seq<NewActor>,
)
    ensures
        spawned_all(catalog, bindings, actors.filter(of_tracked_object(catalog))) == spawned_all(
            catalog,
            bindings,
            actors,
        ),
    decreases actors.len(),
{
    reveal(Seq::filter);
    if actors.len() > 0 {
        lemma_spawned_all_of_tracked(catalog, bindings, actors.drop_last());
        let kept = actors.drop_last().filter(of_tracked_object(catalog));
        if catalog.contains(actors.last().object_id) {
            assert(kept.push(actors.last()).drop_last() == kept);
        }
    }
}

/// Updates do what the updates of bound actors among them do.
pub proof fn lemma_updated_all_of_bound(
    bindings: Map<i32, i32>,
    objects: Map<i32, ObjectData>,
    updates: Seq<ActorUpdate>,
)
    ensures
        updated_all(bindings, objects, updates.filter(of_bound_actor(bindings))) == updated_all(
            bindings,
            objects,
            updates,
        ),
    decreases updates.len(),
{
    reveal(Seq::filter);
    if updates.len() > 0 {
        lemma_updated_all_of_bound(bindings, objects, updates.drop_last());
        let kept = updates.drop_last().filter(of_bound_actor(bindings));
        if left_of(bindings, updates.last().actor_id) is Some {
            assert(kept.push(updates.last()).drop_last() == kept);
        }
    }
}

/// The states along a replay are those along the replay without the events
/// that concern no tracked object.
proof fn lemma_tracking_without_untracked(
    catalog: Set<i32>,
    frames: Seq<NetworkFrameView>,
    m: int,
)
    requires
        0 <= m <= frames.len(),
    ensures
        tracking_after(catalog, without_untracked(catalog, frames).take(m)) == tracking_after(
            catalog,
            frames.take(m),
        ),
    decreases m,
{
    let quiet = without_untracked(catalog, frames);
    if m > 0 {
        lemma_tracking_without_untracked(catalog, frames, m - 1);
        assert(quiet.take(m).drop_last() == quiet.take(m - 1));
        assert(frames.take(m).drop_last() == frames.take(m - 1));
        assert(quiet.take(m).last() == frame_without_untracked(catalog, frames, m - 1));
        assert(frames.take(m).last() == frames[m - 1]);
        let state = tracking_before(catalog, frames, m - 1);
        lemma_spawned_all_of_tracked(catalog, state.bindings, frames[m - 1].new_actors);
        lemma_updated_all_of_bound(
            bindings_in(catalog, frames, m - 1),
            state.objects,
            frames[m - 1].updated_actors,
        );
    } else {
        assert(quiet.take(0) =~= frames.take(0));
    }
}

/// Events that concern no tracked object never show: a replay flattens to
/// what it flattens to without the spawns of objects that are not tracked
/// and without the updates of actors that are bound to no tracked object.
pub proof fn lemma_untracked_events_ignored(catalog: Set<i32>, frames: Seq<NetworkFrameView>)
    ensures
        flattened(catalog, without_untracked(catalog, frames)) == flattened(catalog, frames),
{
    let quiet = without_untracked(catalog, frames);
    assert forall|n: int| 0 <= n < frames.len() implies flattened(catalog, quiet)[n] == flattened(
        catalog,
        frames,
    )[n] by {
        lemma_tracking_without_untracked(catalog, frames, n + 1);
    }
    assert(flattened(catalog, quiet) =~= flattened(catalog, frames));
}

} // verus!
