//! The flattened replay and the pass over a decoded replay that builds it.

use crate::model::{
    flattened, flattened_frame, is_last_listed, scan_objects, scanned, stays_known,
    tracking_after, unseen_objects, FrameView,
};
use crate::laws::lemma_scan_objects_one_to_one;
use crate::pairing::{
    actor_pairs, link, new_actor_map, new_object_map, object_ids, object_pairs, one_to_one,
    pair_object,
};
use crate::replay::{NetworkFrame, NetworkFrameView, NewActor, ReplayData};
use crate::replay_header::{ReplayHeader, ReplayHeaderView};
use crate::rocket_league::{classify, RLObject};
use crate::spatial::ObjectData;
use crate::tracking::{apply_despawns, apply_spawns, fold};
use bimap::BiMap;
use std::collections::HashMap;
use vstd::prelude::*;

verus! {

broadcast use vstd::std_specs::hash::group_hash_axioms;

/// One frame of a flattened replay.
#[derive(Debug)]
pub struct Frame {
    /// The time since the frame before, in milliseconds, as the bit pattern
    /// of an IEEE 754 binary32 number.
    pub delta: u32,
    /// What is known of each tracked object at the end of the frame, by
    /// object id.
    pub objects: HashMap<i32, ObjectData>,
}

impl View for Frame {
    type V = FrameView;

    open spec fn view(&self) -> FrameView {
        FrameView { delta: self.delta, objects: self.objects@ }
    }
}

impl Frame {
    /// A frame of the given delta that holds no object yet.
    pub fn new(delta: u32) -> (frame: Frame)
        ensures
            frame@ == (FrameView { delta, objects: Map::empty() }),
    {
        Frame { delta, objects: HashMap::new() }
    }
}

/// Why a replay could not be flattened.
#[derive(Clone, Copy, Debug, PartialEq, Eq, Structural)]
pub enum BuildError {
    /// The replay holds no decoded network frames.
    MissingNetworkFrames,
}

impl BuildError {
    /// The text of the error, for a caller that reports it.
    pub fn message(&self) -> (text: &'static str)
        ensures
            text@ == "Replay should contain network frames."@,
    {
        match self {
            BuildError::MissingNetworkFrames => "Replay should contain network frames.",
        }
    }
}

/// A replay as a sequence of frames, each of which tells where every tracked
/// object is.
#[derive(Debug)]
pub struct FlatReplay {
    pub header: ReplayHeader,
    pub frames: Vec<Frame>,
    /// The tracked objects of this replay, each paired with its object id.
    pub objects: BiMap<i32, RLObject>,
    is_built: bool,
}

impl Default for FlatReplay {
    fn default() -> (replay: FlatReplay)
        ensures
            !replay.built(),
            replay.frame_views().len() == 0,
            replay.catalog().dom() == Set::<i32>::empty(),
            replay.header_view() == ReplayHeader::default_view(),
    {
        FlatReplay {
            header: ReplayHeader::default(),
            frames: Vec::new(),
            objects: new_object_map(),
            is_built: false,
        }
    }
}

impl FlatReplay {
    /// Whether this replay has been built.
    pub closed spec fn built(&self) -> bool {
        self.is_built
    }

    /// The tracked objects of this replay by object id.
    pub closed spec fn catalog(&self) -> Map<i32, RLObject> {
        object_pairs(self.objects)
    }

    /// What the frames of this replay hold.
    pub closed spec fn frame_views(&self) -> Seq<FrameView> {
        self.frames@.map_values(|frame: Frame| frame@)
    }

    /// What the header of this replay holds.
    pub closed spec fn header_view(&self) -> ReplayHeaderView {
        self.header@
    }

    /// Whether this replay has been built.
    pub fn is_built(&self) -> (built: bool)
        ensures
            built == self.built(),
    {
        self.is_built
    }

    /// The header of this replay.
    pub fn header(&self) -> (header: &ReplayHeader)
        ensures
            header@ == self.header_view(),
    {
        &self.header
    }

    /// The frames of this replay, in order.
    pub fn frames(&self) -> (frames: &Vec<Frame>)
        ensures
            frames@.map_values(|frame: Frame| frame@) == self.frame_views(),
    {
        &self.frames
    }

    /// The tracked objects of this replay, each paired with its object id.
    pub fn objects(&self) -> (objects: &BiMap<i32, RLObject>)
        ensures
            object_pairs(*objects) == self.catalog(),
    {
        &self.objects
    }

    /// Reads the object table of `replay`: each name of a tracked object is
    /// paired with its index, the id of the object. Where the table lists an
    /// object twice, the later index stays.
    pub fn map_objects(&mut self, replay: &ReplayData)
        requires
            replay.objects.len() <= i32::MAX,
        ensures
            final(self).catalog() == scan_objects(old(self).catalog(), replay@.objects),
            final(self).header_view() == old(self).header_view(),
            final(self).frame_views() == old(self).frame_views(),
            final(self).built() == old(self).built(),
    {
        let ghost known = self.catalog();
        let ghost names = replay@.objects;
        proof {
            assert(self.catalog() =~= scanned(known, names, 0));
        }
        let mut i: usize = 0;
        while i < replay.objects.len()
            invariant
                i <= replay.objects.len() <= i32::MAX,
                names == replay@.objects,
                names.len() == replay.objects.len(),
                self.catalog() == scanned(known, names, i as int),
                self.header == old(self).header,
                self.frames == old(self).frames,
                self.built() == old(self).built(),
            decreases replay.objects.len() - i,
        {
            assert(names[i as int] == replay.objects[i as int]@);
            match RLObject::try_from(replay.objects[i].as_str()) {
                Ok(object) => {
                    proof {
                        lemma_scanned_listed(known, names, i as int, object);
                    }
                    pair_object(&mut self.objects, i as i32, object);
                },
                Err(_) => {
                    proof {
                        lemma_scanned_unlisted(known, names, i as int);
                    }
                },
            }
            i += 1;
        }
    }

    /// The object data before the first frame: an entry for each tracked
    /// object of this replay, with nothing seen of it.
    pub fn get_inital_object_map(&self) -> (object_map: HashMap<i32, ObjectData>)
        ensures
            object_map@ == unseen_objects(self.catalog().dom()),
    {
        let ids = object_ids(&self.objects);
        let mut object_map: HashMap<i32, ObjectData> = HashMap::new();
        let mut i: usize = 0;
        while i < ids.len()
            invariant
                i <= ids.len(),
                object_map@ == unseen_objects(ids@.take(i as int).to_set()),
            decreases ids.len() - i,
        {
            proof {
                let shorter = ids@.take(i as int);
                let longer = ids@.take(i as int + 1);
                assert(longer == shorter.push(ids@[i as int]));
                assert(longer.to_set() =~= shorter.to_set().insert(ids@[i as int])) by {
                    assert forall|id: i32|
                        longer.contains(id) <==> shorter.contains(id) || id
                            == ids@[i as int] by {
                        if shorter.contains(id) {
                            let at = choose|at: int| 0 <= at < shorter.len() && shorter[at] == id;
                            assert(longer[at] == id);
                        }
                        if id == ids@[i as int] {
                            assert(longer[i as int] == id);
                        }
                    }
                }
            }
            object_map.insert(ids[i], ObjectData::default());
            i += 1;
        }
        proof {
            assert(ids@.take(i as int) == ids@);
        }
        object_map
    }

    /// Binds each actor of `new_actors` that is an instance of a tracked
    /// object of this replay to that object, in order. A binding replaces
    /// what the object and the actor were bound to before; an actor of an
    /// object that is not tracked is passed over.
    pub fn update_actor_map(&self, actor_map: &mut BiMap<i32, i32>, new_actors: &Vec<NewActor>)
        ensures
            actor_pairs(*final(actor_map)) == crate::model::spawned_all(
                self.catalog().dom(),
                actor_pairs(*old(actor_map)),
                new_actors@,
            ),
    {
        apply_spawns(&self.objects, actor_map, new_actors);
    }

    /// Flattens `replay` into this replay: reads its object table, then
    /// walks its frames in order and appends one frame for each, which
    /// holds every tracked object with the last position and rotation seen
    /// of it. A replay without decoded network frames is refused, and
    /// nothing changes.
    pub fn build(&mut self, replay: &ReplayData) -> (done: Result<(), BuildError>)
        requires
            !old(self).built(),
            replay.objects.len() <= i32::MAX,
        ensures
            match done {
                Ok(_) => {
                    &&& replay@.network_frames is Some
                    &&& final(self).built()
                    &&& final(self).header_view() == old(self).header_view()
                    &&& final(self).catalog() == scan_objects(
                        old(self).catalog(),
                        replay@.objects,
                    )
                    &&& final(self).frame_views().len() == old(self).frame_views().len()
                        + replay@.network_frames.unwrap().len()
                    &&& final(self).frame_views() == old(self).frame_views() + flattened(
                        final(self).catalog().dom(),
                        replay@.network_frames.unwrap(),
                    )
                },
                Err(e) => {
                    &&& replay@.network_frames is None
                    &&& e == BuildError::MissingNetworkFrames
                    &&& *final(self) == *old(self)
                },
            },
    {
        let network_frames = match &replay.network_frames {
            Some(network_frames) => network_frames,
            None => {
                return Err(BuildError::MissingNetworkFrames);
            },
        };
        self.map_objects(replay);
        let mut object_map = self.get_inital_object_map();
        let mut actor_map = new_actor_map();

        let ghost catalog = self.catalog().dom();
        let ghost frames = replay@.network_frames.unwrap();
        let ghost before = old(self).frame_views();
        proof {
            assert(actor_pairs(actor_map) =~= Map::<i32, i32>::empty());
            assert(frames.take(0) =~= Seq::<NetworkFrameView>::empty());
            assert(self.frame_views() =~= before + flattened(catalog, frames).take(0));
        }
        let mut i: usize = 0;
        while i < network_frames.len()
            invariant
                i <= network_frames.len(),
                frames == network_frames@.map_values(|frame: NetworkFrame| frame@),
                catalog == self.catalog().dom(),
                self.catalog() == scan_objects(old(self).catalog(), replay@.objects),
                self.header_view() == old(self).header_view(),
                self.built() == old(self).built(),
                before == old(self).frame_views(),
                actor_pairs(actor_map) == tracking_after(catalog, frames.take(i as int)).bindings,
                object_map@ == tracking_after(catalog, frames.take(i as int)).objects,
                self.frames@.len() == before.len() + i,
                self.frame_views() == before + flattened(catalog, frames).take(i as int),
            decreases network_frames.len() - i,
        {
            let frame = &network_frames[i];
            proof {
                assert(frames.take(i as int + 1).drop_last() == frames.take(i as int));
                assert(frames.take(i as int + 1).last() == frame@);
            }
            self.update_actor_map(&mut actor_map, &frame.new_actors);
            fold(&actor_map, &mut object_map, &frame.updated_actors);
            apply_despawns(&mut actor_map, &frame.deleted_actors);

            let mut snapshot = Frame::new(frame.delta);
            snapshot.objects = object_map.clone();
            let ghost shot = snapshot@;
            let ghost views = self.frame_views();
            self.frames.push(snapshot);
            proof {
                assert(shot == flattened_frame(catalog, frames, i as int));
                assert(flattened(catalog, frames).take(i as int + 1) == flattened(
                    catalog,
                    frames,
                ).take(i as int).push(shot));
                assert(self.frame_views() =~= views.push(shot));
            }
            i += 1;
        }
        proof {
            assert(flattened(catalog, frames).take(i as int) == flattened(catalog, frames));
        }
        self.is_built = true;
        Ok(())
    }

    /// The flattened form of `replay`, with its header.
    pub fn from(replay: &ReplayData) -> (flat: Result<FlatReplay, BuildError>)
        requires
            replay.objects.len() <= i32::MAX,
        ensures
            match flat {
                Ok(built) => {
                    &&& replay@.network_frames is Some
                    &&& built.built()
                    &&& built.header_view() == ReplayHeaderView::of(replay@)
                    &&& built.catalog() == scan_objects(Map::empty(), replay@.objects)
                    &&& one_to_one(built.catalog())
                    &&& built.frame_views().len() == replay@.network_frames.unwrap().len()
                    &&& built.frame_views() == flattened(
                        built.catalog().dom(),
                        replay@.network_frames.unwrap(),
                    )
                },
                Err(e) => replay@.network_frames is None && e == BuildError::MissingNetworkFrames,
            },
    {
        let header = ReplayHeader::from(replay);
        let mut flat = FlatReplay {
            header,
            frames: Vec::new(),
            objects: new_object_map(),
            is_built: false,
        };
        proof {
            assert(flat.catalog() =~= Map::<i32, RLObject>::empty());
            assert(flat.frame_views() =~= Seq::<FrameView>::empty());
            lemma_scan_objects_one_to_one(Map::empty(), replay@.objects);
        }
        match flat.build(replay) {
            Ok(()) => Ok(flat),
            Err(e) => Err(e),
        }
    }
}

/// Reading a name that lists `object` pairs its index with `object`.
proof fn lemma_scanned_listed(
    known: Map<i32, RLObject>,
    names: Seq<Seq<char>>,
    n: int,
    object: RLObject,
)
    requires
        0 <= n < names.len() <= i32::MAX,
        classify(names[n]) == Some(object),
    ensures
        scanned(known, names, n + 1) == link(scanned(known, names, n), n as i32, object),
{
    let before = scanned(known, names, n);
    let after = scanned(known, names, n + 1);
    let linked = link(before, n as i32, object);
    assert forall|id: i32| after.contains_key(id) <==> linked.contains_key(id) by {
        if id != n {
            if is_last_listed(names, n, id) && classify(names[id as int]) != Some(object) {
                assert(is_last_listed(names, n + 1, id));
            }
            if stays_known(known, names, n, id) && known[id] != object {
                assert(stays_known(known, names, n + 1, id));
            }
        } else {
            assert(is_last_listed(names, n + 1, id));
        }
    }
    assert forall|id: i32| after.contains_key(id) implies after[id] == linked[id] by {
        if id != n {
            if is_last_listed(names, n + 1, id) {
                assert(is_last_listed(names, n, id));
            } else {
                assert(stays_known(known, names, n, id));
            }
        } else {
            assert(is_last_listed(names, n + 1, id));
        }
    }
    assert(after =~= linked);
}

/// Reading a name that lists no tracked object changes nothing.
proof fn lemma_scanned_unlisted(known: Map<i32, RLObject>, names: Seq<Seq<char>>, n: int)
    requires
        0 <= n < names.len() <= i32::MAX,
        classify(names[n]) is None,
    ensures
        scanned(known, names, n + 1) == scanned(known, names, n),
{
    let before = scanned(known, names, n);
    let after = scanned(known, names, n + 1);
    assert forall|id: i32| is_last_listed(names, n + 1, id) <==> is_last_listed(names, n, id) by {
        if is_last_listed(names, n, id) {
            assert(is_last_listed(names, n + 1, id));
        }
    }
    assert forall|id: i32|
        stays_known(known, names, n + 1, id) <==> stays_known(known, names, n, id) by {
        if stays_known(known, names, n, id) {
            assert(stays_known(known, names, n + 1, id));
        }
    }
    assert(after =~= before);
}

} // verus!
