//! Map-level ids and the integer parts of turning raw map records into the
//! runtime map: thing option bits, linedef flags and sidedef links.

use vstd::prelude::*;
use crate::level::{RawLinedef, RawThing};

verus! {

pub type SubsectorId = u16;
pub type LinedefId = u16;
pub type SegmentId = u16;
pub type VertexId = u16;
pub type SidedefId = u16;
pub type SectorId = u16;
pub type ThingId = u16;

/// A convex map region: a run of segs, the sector it lies in, and the
/// things standing in it.
#[derive(Clone, Debug)]
pub struct Subsector {
    pub num_lines: u16,
    pub first_line: SegmentId,
    pub sector: SectorId,
    pub things: Vec<ThingId>,
}

/// Low bits of a BSP child reference: the node or subsector index.
pub const CHILD_MASK: u16 = 0x7FFF;
/// High bit of a BSP child reference: set when it names a subsector.
pub const SUBSECTOR_BIT: u16 = 0x8000;

/// A decoded BSP child reference.
#[derive(Clone, Copy, Debug, PartialEq, Eq, Structural)]
pub enum Child {
    Node(u16),
    Sub(u16),
}

/// What a raw child reference names: a subsector (high bit set, index in
/// the low bits) or another node.
pub open spec fn child_of(x: u16) -> Child {
    if x & SUBSECTOR_BIT != 0 {
        Child::Sub(x & CHILD_MASK)
    } else {
        Child::Node(x)
    }
}

impl From<u16> for Child {
    fn from(x: u16) -> (c: Self) {
        if x & SUBSECTOR_BIT != 0 {
            Child::Sub(x & CHILD_MASK)
        } else {
            Child::Node(x)
        }
    }
}

impl vstd::std_specs::convert::FromSpecImpl<u16> for Child {
    open spec fn obeys_from_spec() -> bool {
        true
    }

    open spec fn from_spec(x: u16) -> Self {
        child_of(x)
    }
}

pub const ML_IMPASSABLE: u16 = 0x0001;
pub const ML_BLOCK_MONSTERS: u16 = 0x0002;
pub const ML_TWO_SIDED: u16 = 0x0004;
pub const ML_UPPER_UNPEGGED: u16 = 0x0010;
pub const ML_LOWER_UNPEGGED: u16 = 0x0020;
pub const ML_SECRET: u16 = 0x0040;
pub const ML_BLOCK_SOUND: u16 = 0x0080;
pub const ML_NOT_ON_MAP: u16 = 0x0200;
/// Editor flag.
pub const ML_ALREADY_ON_MAP: u16 = 0x1000;
/// Every defined linedef flag bit.
pub const ML_ALL: u16 = 0x12F7;

/// Linedef behaviour flags.
#[derive(Clone, Copy, Debug, PartialEq, Eq, Structural)]
pub struct LinedefFlags(pub u16);

impl LinedefFlags {
    /// The flags whose bits are set in `bits`; unknown bits are dropped.
    pub fn from_bits_truncate(bits: u16) -> (f: LinedefFlags)
        ensures
            f.0 == bits & ML_ALL,
    {
        LinedefFlags(bits & ML_ALL)
    }

    /// Every bit of `other` is set in `self`.
    pub fn contains(self, other: LinedefFlags) -> (b: bool)
        ensures
            b == (self.0 & other.0 == other.0),
    {
        self.0 & other.0 == other.0
    }
}

/// What the option bits of a map thing say.
#[derive(Clone, Copy, Debug, PartialEq, Eq, Structural)]
pub struct ThingOptions {
    /// 1 easy, 2 medium, 3 hard.
    pub min_skill: u8,
    /// Ambush flag.
    pub is_deaf: bool,
    /// Present only in multiplayer games.
    pub multiplayer: bool,
}

/// The lowest skill a thing appears on, read from the three skill bits of
/// its options (bit 0 easy = 1, bit 1 medium = 2, bit 2 hard = 3): the
/// lowest skill whose bit is set, and easy when none is.
pub open spec fn skill_of(options: i16) -> u8 {
    if options & 1 != 0 {
        1
    } else if options & 2 != 0 {
        2
    } else if options & 4 != 0 {
        3
    } else {
        1
    }
}

/// Decode the option bits of a raw thing: the skill bits, the ambush bit
/// (0x20) and the not-in-single-player bit (0x100).
pub fn thing_options(r: &RawThing) -> (o: ThingOptions)
    ensures
        o.min_skill == skill_of(r.options),
        o.is_deaf == (r.options & 0x0020 != 0),
        o.multiplayer == (r.options & 0x0100 != 0),
{
    let min_skill: u8 = if r.options & 0x0001 != 0 {
        1
    } else if r.options & 0x0002 != 0 {
        2
    } else if r.options & 0x0004 != 0 {
        3
    } else {
        1
    };
    ThingOptions { min_skill, is_deaf: r.options & 0x0020 != 0, multiplayer: r.options & 0x0100 != 0 }
}

/// The sidedef a raw linedef side number names: none when it is negative.
pub open spec fn side_link(n: i16) -> Option<SidedefId> {
    if n >= 0 {
        Some(n as u16)
    } else {
        None
    }
}

/// The integer part of a runtime linedef.
#[derive(Clone, Copy, Debug, PartialEq, Eq, Structural)]
pub struct LinedefLinks {
    pub v1: VertexId,
    pub v2: VertexId,
    pub flags: LinedefFlags,
    pub special: u16,
    pub tag: u16,
    pub right_sidedef: Option<SidedefId>,
    pub left_sidedef: Option<SidedefId>,
}

/// Convert a raw linedef: vertex numbers, special and tag reinterpreted as
/// unsigned, unknown flag bits dropped, negative side numbers meaning "no
/// sidedef".
pub fn linedef_links(r: &RawLinedef) -> (l: LinedefLinks)
    ensures
        l.v1 == r.v1 as u16,
        l.v2 == r.v2 as u16,
        l.flags.0 == (r.flags as u16) & ML_ALL,
        l.special == r.special as u16,
        l.tag == r.tag as u16,
        l.right_sidedef == side_link(r.sidenum@[0]),
        l.left_sidedef == side_link(r.sidenum@[1]),
{
    let s0 = r.sidenum[0];
    let s1 = r.sidenum[1];
    LinedefLinks {
        v1: r.v1 as u16,
        v2: r.v2 as u16,
        flags: LinedefFlags::from_bits_truncate(r.flags as u16),
        special: r.special as u16,
        tag: r.tag as u16,
        right_sidedef: if s0 >= 0 { Some(s0 as u16) } else { None },
        left_sidedef: if s1 >= 0 { Some(s1 as u16) } else { None },
    }
}

} // verus!
