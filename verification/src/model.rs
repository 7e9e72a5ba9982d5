//! Data model of the propagation engine: objects, per-activator state and
//! the activation events exchanged between the pipeline stages.

use vstd::prelude::*;
use crate::color::ColorPalette;
use crate::geom::{capped, Position, SIZE_CAP};

verus! {

/// Identity of an object in the registry. Identities are assigned once and
/// never reused within a registry.
pub type ObjectId = u64;

/// Current radius of an activator's growing circle, in world units.
#[derive(Clone, Copy, Debug, PartialEq, Eq, Structural)]
pub struct ActivatorSize(pub u64);

impl ActivatorSize {
    pub fn zero() -> (r: ActivatorSize)
        ensures
            r.0 == 0,
    {
        ActivatorSize(0)
    }

    /// Grow the radius by `value`, clipping at [`SIZE_CAP`].
    pub fn increment(&mut self, value: u64)
        ensures
            final(self).0 == capped(old(self).0 + value),
    {
        if value >= SIZE_CAP {
            self.0 = SIZE_CAP;
        } else if self.0 >= SIZE_CAP - value {
            self.0 = SIZE_CAP;
        } else {
            self.0 = self.0 + value;
        }
    }
}

/// Whether an activator is currently expanding.
#[derive(Clone, Copy, Debug, PartialEq, Eq, Structural)]
pub enum ActivatorState {
    Disabled,
    Enabled,
}

impl ActivatorState {
    pub fn is_active(&self) -> (r: bool)
        ensures
            r == (*self is Enabled),
    {
        match self {
            ActivatorState::Enabled => true,
            ActivatorState::Disabled => false,
        }
    }
}

/// The main activator starts each round on its own; passive ones wait to be
/// reached by another activator's circle.
#[derive(Clone, Copy, Debug, PartialEq, Eq, Structural)]
pub enum ActivatorType {
    Main,
    Passive,
}

/// Colour a rendering host draws an activator's circle in.
#[derive(Clone, Copy, Debug, PartialEq, Eq, Structural)]
pub struct ActivatorColor(pub ColorPalette);

/// The pending set of one activator: objects inside the registry that this
/// activator has not yet fired at, ascending by distance to the activator's
/// position (ties broken by registry order).
#[derive(Clone, Debug)]
pub struct InactivatedObjects(pub Vec<ObjectId>);

/// Mutable per-activator state.
#[derive(Clone, Debug)]
pub struct Activator {
    pub typ: ActivatorType,
    pub state: ActivatorState,
    pub size: ActivatorSize,
    /// Whether this activator's pending set has been seeded in the current
    /// round. A pending set is built at most once per round, so an activator
    /// that has already run dry is not re-seeded when another circle reaches
    /// it again.
    pub seeded: bool,
    pub pending: InactivatedObjects,
    pub color: ActivatorColor,
}

/// What an object is: a passive note, or an activator with its state.
#[derive(Clone, Debug)]
pub enum ObjectKind {
    Note,
    Activator(Activator),
}

/// One entry of the object registry.
#[derive(Clone, Debug)]
pub struct GameObject {
    pub id: ObjectId,
    pub pos: Position,
    pub kind: ObjectKind,
}

impl GameObject {
    pub open spec fn is_activator(self) -> bool {
        self.kind is Activator
    }

    pub open spec fn is_note(self) -> bool {
        self.kind is Note
    }

    pub open spec fn activator(self) -> Activator {
        self.kind->0
    }
}

/// An activator's circle has reached a note.
#[derive(Clone, Copy, Debug, PartialEq, Eq, Structural)]
pub struct NotePlayedEvent {
    pub source: ObjectId,
    pub note: ObjectId,
}

/// An activator's circle has reached another activator, or — with no source —
/// the round start asks for the main activator itself.
#[derive(Clone, Copy, Debug, PartialEq, Eq)]
pub struct ActivatorEnabledEvent {
    pub source: Option<ObjectId>,
    pub target: ObjectId,
}

/// Uniform form of both activation events: `object` was reached by `source`.
#[derive(Clone, Copy, Debug, PartialEq, Eq)]
pub struct ObjectActivatedEvent {
    pub source: Option<ObjectId>,
    pub object: ObjectId,
}

/// Per-round configuration, set before a round begins.
#[derive(Clone, Copy, Debug, PartialEq, Eq, Structural)]
pub struct LevelConfig {
    /// World units an enabled activator's radius grows per time unit.
    pub grow_factor: u64,
}

/// What one simulation step hands outward: the notes whose playing it
/// detected, and whether the round completed on this step.
#[derive(Clone, Debug)]
pub struct TickReport {
    pub notes: Vec<NotePlayedEvent>,
    pub round_complete: bool,
}

} // verus!
