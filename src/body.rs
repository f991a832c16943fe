use vstd::prelude::*;

verus! {

/// Whether a body is an immovable obstacle or a moving point mass.
#[derive(Clone, Copy, Debug, PartialEq, Eq, Structural)]
pub enum BodyKind {
    /// Takes part in collisions as the surface that is hit, and never moves.
    Static,
    /// Receives forces, integrates them into velocity and moves.
    Dynamic,
}

impl BodyKind {
    pub fn is_dynamic(&self) -> (r: bool)
        ensures
            r == (*self == BodyKind::Dynamic),
    {
        match self {
            BodyKind::Static => false,
            BodyKind::Dynamic => true,
        }
    }
}

/// A stable reference to a body: the slot it lives in and the generation that
/// slot had when the body was spawned. Once the body is removed the slot's
/// generation moves on, so the handle no longer resolves.
#[derive(Clone, Copy, Debug, PartialEq, Eq, Hash, Structural)]
pub struct BodyHandle {
    pub index: usize,
    pub generation: u64,
}

/// A body: its kind, fixed at spawn, and the state the host keeps for it
/// (shape, position, velocity, mass, queued forces).
#[derive(Debug)]
pub struct Body<B> {
    pub kind: BodyKind,
    pub state: B,
}

/// A one-directional spring: `owner` is pushed or pulled so as to keep the
/// spring's rest length from `other`. `params` holds strength and rest length.
#[derive(Debug)]
pub struct Spring<S> {
    pub owner: BodyHandle,
    pub other: BodyHandle,
    pub params: S,
}

} // verus!
