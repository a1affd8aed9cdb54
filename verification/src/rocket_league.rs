//! The objects of a Rocket League match that are tracked, and the names under
//! which a replay lists them.

use vstd::prelude::*;
use vstd::string::StringExecFns;

verus! {

/// An object whose movement is followed through a replay.
#[derive(Clone, Copy, Debug, Hash, PartialEq, Eq, Structural)]
pub enum RLObject {
    Ball,
    Car,
}

/// The platform a player is on.
#[derive(Clone, Copy, Debug, Hash, PartialEq, Eq, Structural)]
pub enum Platform {
    Steam,
    Epic,
    Playstation,
    Xbox,
    Switch,
}

/// The error for an object name that belongs to no tracked object.
#[derive(Debug)]
pub struct NotTracked {
    /// The name that was looked up.
    pub name: String,
}

/// The name under which a replay's object table lists `object`.
pub open spec fn canonical_name(object: RLObject) -> Seq<char> {
    match object {
        RLObject::Ball => "Archetypes.Ball.Ball_Default"@,
        RLObject::Car => "Archetypes.Car.Car_Default"@,
    }
}

/// The tracked object that `name` stands for, if there is one.
pub open spec fn classify(name: Seq<char>) -> Option<RLObject> {
    if name == canonical_name(RLObject::Ball) {
        Some(RLObject::Ball)
    } else if name == canonical_name(RLObject::Car) {
        Some(RLObject::Car)
    } else {
        None
    }
}

/// No two tracked objects share a name.
pub proof fn lemma_canonical_name_injective(a: RLObject, b: RLObject)
    ensures
        canonical_name(a) == canonical_name(b) <==> a == b,
{
    reveal_strlit("Archetypes.Ball.Ball_Default");
    reveal_strlit("Archetypes.Car.Car_Default");
    assert(canonical_name(RLObject::Ball).len() != canonical_name(RLObject::Car).len());
}

/// A name stands for an object exactly when it is that object's name.
pub proof fn lemma_classify_iff_named(name: Seq<char>, object: RLObject)
    ensures
        classify(name) == Some(object) <==> name == canonical_name(object),
{
    lemma_canonical_name_injective(RLObject::Ball, RLObject::Car);
}

/// Looking up the name of an object gives that object back.
pub proof fn lemma_classify_canonical_name(object: RLObject)
    ensures
        classify(canonical_name(object)) == Some(object),
{
    lemma_classify_iff_named(canonical_name(object), object);
}

impl RLObject {
    /// The name under which a replay's object table lists this object.
    pub fn name(&self) -> (name: &'static str)
        ensures
            name@ == canonical_name(*self),
    {
        match *self {
            RLObject::Ball => "Archetypes.Ball.Ball_Default",
            RLObject::Car => "Archetypes.Car.Car_Default",
        }
    }

    /// The tracked object that the object table lists as `s`. A name of no
    /// tracked object is handed back in the error.
    pub fn try_from(s: &str) -> (found: Result<RLObject, NotTracked>)
        ensures
            match found {
                Ok(object) => classify(s@) == Some(object) && s@ == canonical_name(object),
                Err(e) => classify(s@) is None && e.name@ == s@,
            },
    {
        proof {
            lemma_canonical_name_injective(RLObject::Ball, RLObject::Car);
        }
        if s.eq(RLObject::Ball.name()) {
            Ok(RLObject::Ball)
        } else if s.eq(RLObject::Car.name()) {
            Ok(RLObject::Car)
        } else {
            Err(NotTracked { name: String::from_str(s) })
        }
    }
}

impl NotTracked {
    /// The text of the error.
    pub open spec fn message_text(name: Seq<char>) -> Seq<char> {
        "Can't create RLObject from '"@ + name + "' (yet)."@
    }

    /// The text of the error, for a caller that reports it.
    pub fn message(&self) -> (text: String)
        ensures
            text@ == Self::message_text(self.name@),
    {
        String::from_str("Can't create RLObject from '").concat(self.name.as_str()).concat(
            "' (yet).",
        )
    }
}

} // verus!
