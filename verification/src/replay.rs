//! A decoded replay, as far as flattening reads it.

use crate::spatial::{Position, Rotation};
use vstd::prelude::*;

verus! {

/// One entry of a replay's header: its name and, where the entry holds a
/// string or a name, that text.
#[derive(Debug)]
pub struct Property {
    pub name: String,
    pub text: Option<String>,
}

/// What a [`Property`] holds.
pub struct PropertyView {
    pub name: Seq<char>,
    pub text: Option<Seq<char>>,
}

impl View for Property {
    type V = PropertyView;

    open spec fn view(&self) -> PropertyView {
        PropertyView {
            name: self.name@,
            text: match self.text {
                Some(text) => Some(text@),
                None => None,
            },
        }
    }
}

/// An actor that a frame reports as spawned: the id it got and the id of
/// the object that it is an instance of.
#[derive(Clone, Copy, Debug, PartialEq, Eq, Structural)]
pub struct NewActor {
    pub actor_id: i32,
    pub object_id: i32,
}

/// What a frame reports of a live actor: its new position and its new
/// rotation, as far as the frame holds them.
#[derive(Clone, Copy, Debug, PartialEq, Eq, Structural)]
pub struct ActorUpdate {
    pub actor_id: i32,
    pub position: Option<Position>,
    pub rotation: Option<Rotation>,
}

/// One frame of a replay's network data.
#[derive(Debug)]
pub struct NetworkFrame {
    /// The time since the frame before, in milliseconds, as the bit pattern
    /// of an IEEE 754 binary32 number.
    pub delta: u32,
    /// The actors spawned in this frame, in the order of the replay.
    pub new_actors: Vec<NewActor>,
    /// The updates of this frame, in the order of the replay.
    pub updated_actors: Vec<ActorUpdate>,
    /// The ids of the actors deleted at the end of this frame.
    pub deleted_actors: Vec<i32>,
}

/// What a [`NetworkFrame`] holds.
pub struct NetworkFrameView {
    pub delta: u32,
    pub new_actors: Seq<NewActor>,
    pub updated_actors: Seq<ActorUpdate>,
    pub deleted_actors: Seq<i32>,
}

impl View for NetworkFrame {
    type V = NetworkFrameView;

    open spec fn view(&self) -> NetworkFrameView {
        NetworkFrameView {
            delta: self.delta,
            new_actors: self.new_actors@,
            updated_actors: self.updated_actors@,
            deleted_actors: self.deleted_actors@,
        }
    }
}

/// A decoded replay.
#[derive(Debug)]
pub struct ReplayData {
    pub game_type: String,
    /// The header's entries, in the order of the replay.
    pub properties: Vec<Property>,
    /// The object table: the id of an object is the index of its name.
    pub objects: Vec<String>,
    /// The frames of the network data, if the replay's network data was
    /// decoded.
    pub network_frames: Option<Vec<NetworkFrame>>,
}

/// What a [`ReplayData`] holds.
pub struct ReplayDataView {
    pub game_type: Seq<char>,
    pub properties: Seq<PropertyView>,
    pub objects: Seq<Seq<char>>,
    pub network_frames: Option<Seq<NetworkFrameView>>,
}

impl View for ReplayData {
    type V = ReplayDataView;

    open spec fn view(&self) -> ReplayDataView {
        ReplayDataView {
            game_type: self.game_type@,
            properties: self.properties@.map_values(|property: Property| property@),
            objects: self.objects@.map_values(|name: String| name@),
            network_frames: match self.network_frames {
                Some(frames) => Some(frames@.map_values(|frame: NetworkFrame| frame@)),
                None => None,
            },
        }
    }
}

} // verus!
