//! Components attached to simulated actors.

use vstd::prelude::*;
use crate::defs::{MobjFlags, MobjInfo, State};
use crate::world::SubsectorId;

verus! {

/// The subsector an actor stands in.
#[derive(Debug, Clone, Copy)]
pub struct Subsector(pub SubsectorId);

/// The thing type of an actor.
#[derive(Debug, Copy, Clone)]
pub struct Class(pub &'static MobjInfo);

/// Where an actor is in its state chain, and how long it stays there.
#[derive(Debug, Clone, Copy)]
pub struct Animation {
    pub state: State,
    pub tics: i32,
}

/// Runtime behaviour flags of an actor.
#[derive(Clone, Copy, Debug)]
pub struct ActorFlags(pub MobjFlags);

} // verus!
