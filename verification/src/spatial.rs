//! Where a tracked object is and how it is turned.

use vstd::prelude::*;

verus! {

/// A point in space. Each component is the bit pattern of an IEEE 754
/// binary32 number; the library carries the components and never computes
/// with them.
#[derive(Clone, Copy, Debug, PartialEq, Eq, Structural)]
pub struct Position {
    pub x: u32,
    pub y: u32,
    pub z: u32,
}

/// A rotation as a quaternion. Each component is the bit pattern of an IEEE
/// 754 binary32 number.
#[derive(Clone, Copy, Debug, PartialEq, Eq, Structural)]
pub struct Rotation {
    pub x: u32,
    pub y: u32,
    pub z: u32,
    pub w: u32,
}

/// What is known of one tracked object: its position and its rotation, each
/// absent until a frame has reported it.
#[derive(Clone, Copy, Debug, PartialEq, Eq, Structural)]
pub struct ObjectData {
    pub position: Option<Position>,
    pub rotation: Option<Rotation>,
}

impl ObjectData {
    /// The data of an object of which nothing has been seen.
    pub open spec fn unseen() -> ObjectData {
        ObjectData { position: None, rotation: None }
    }

    /// This data, with each of the two fields replaced where `position` or
    /// `rotation` brings a new value.
    pub open spec fn merged(
        self,
        position: Option<Position>,
        rotation: Option<Rotation>,
    ) -> ObjectData {
        ObjectData {
            position: if position is Some { position } else { self.position },
            rotation: if rotation is Some { rotation } else { self.rotation },
        }
    }

    /// Takes over what `position` and `rotation` bring and keeps the rest.
    pub fn merge(&mut self, position: Option<Position>, rotation: Option<Rotation>)
        ensures
            *final(self) == old(self).merged(position, rotation),
    {
        if position.is_some() {
            self.position = position;
        }
        if rotation.is_some() {
            self.rotation = rotation;
        }
    }
}

impl Default for ObjectData {
    fn default() -> (data: ObjectData)
        ensures
            data == ObjectData::unseen(),
    {
        ObjectData { position: None, rotation: None }
    }
}

} // verus!
