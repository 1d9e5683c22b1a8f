//! Thing definitions: behaviour flags, the per-type `MobjInfo` record, and
//! the two lookups into a table of them (by map editor number, by id).

use vstd::prelude::*;
use crate::text::str_eq;

verus! {

/*──────────────────────────── flags ────────────────────────────────*/

/// Call `P_SpecialThing` when touched.
pub const MF_SPECIAL: u32 = 0x0000_0001;
/// Blocks movement.
pub const MF_SOLID: u32 = 0x0000_0002;
/// Can be hit by bullets/projectiles.
pub const MF_SHOOTABLE: u32 = 0x0000_0004;
/// Invisible to PVS links, still touchable.
pub const MF_NOSECTOR: u32 = 0x0000_0008;
/// Removed from blockmap, still rendered.
pub const MF_NOBLOCKMAP: u32 = 0x0000_0010;
pub const MF_AMBUSH: u32 = 0x0000_0020;
pub const MF_JUSTHIT: u32 = 0x0000_0040;
pub const MF_JUSTATTACKED: u32 = 0x0000_0080;
pub const MF_SPAWNCEILING: u32 = 0x0000_0100;
pub const MF_NOGRAVITY: u32 = 0x0000_0200;
pub const MF_DROPOFF: u32 = 0x0000_0400;
pub const MF_PICKUP: u32 = 0x0000_0800;
pub const MF_NOCLIP: u32 = 0x0000_1000;
pub const MF_SLIDE: u32 = 0x0000_2000;
pub const MF_FLOAT: u32 = 0x0000_4000;
pub const MF_TELEPORT: u32 = 0x0000_8000;
pub const MF_MISSILE: u32 = 0x0001_0000;
pub const MF_DROPPED: u32 = 0x0002_0000;
pub const MF_SHADOW: u32 = 0x0004_0000;
pub const MF_NOBLOOD: u32 = 0x0008_0000;
pub const MF_CORPSE: u32 = 0x0010_0000;
pub const MF_INFLOAT: u32 = 0x0020_0000;
pub const MF_COUNTKILL: u32 = 0x0040_0000;
pub const MF_COUNTITEM: u32 = 0x0080_0000;
pub const MF_SKULLFLY: u32 = 0x0100_0000;
pub const MF_NOTDMATCH: u32 = 0x0200_0000;
/// The upper two bits encode the multiplayer palette translation.
pub const MF_TRANSLATION: u32 = 0x0C00_0000;
/// Every defined flag bit.
pub const MF_ALL: u32 = 0x0FFF_FFFF;

/// Bit-shift that extracts the player-colour translation (0‥3) from the
/// `MF_TRANSLATION` bits.
pub const MF_TRANSSHIFT: u32 = 26;

/// Behaviour / collision flags carried by every mobj at runtime; the
/// numeric values are those of `doom/info.h`.
#[derive(Clone, Copy, Debug, PartialEq, Eq, Structural)]
pub struct MobjFlags(pub u32);

impl MobjFlags {
    /// No flag set.
    pub fn empty() -> (f: MobjFlags)
        ensures
            f.0 == 0,
    {
        MobjFlags(0)
    }

    /// The flags whose bits are set in `bits`; unknown bits are dropped.
    pub fn from_bits_truncate(bits: u32) -> (f: MobjFlags)
        ensures
            f.0 == bits & MF_ALL,
    {
        MobjFlags(bits & MF_ALL)
    }

    /// The raw bits.
    pub fn bits(self) -> (b: u32)
        ensures
            b == self.0,
    {
        self.0
    }

    /// Every bit of `other` is set in `self`.
    pub fn contains(self, other: MobjFlags) -> (b: bool)
        ensures
            b == (self.0 & other.0 == other.0),
    {
        self.0 & other.0 == other.0
    }

    /// Some bit of `other` is set in `self`.
    pub fn intersects(self, other: MobjFlags) -> (b: bool)
        ensures
            b == (self.0 & other.0 != 0),
    {
        self.0 & other.0 != 0
    }
}

/*──────────────────────────── records ──────────────────────────────*/

/// Index of an entry of the state table (`S_NULL` is 0).
#[derive(Clone, Copy, Debug, PartialEq, Eq, Structural)]
pub struct State(pub usize);

/// Index of a sound effect (`None` is 0).
#[derive(Clone, Copy, Debug, PartialEq, Eq, Structural)]
pub struct Sound(pub usize);

/// Static description of one thing type (an `mobjinfo_t` row).
#[derive(Clone, Debug)]
pub struct MobjInfo {
    pub id: &'static str,
    pub doomednum: i32,
    pub spawnstate: State,
    pub spawnhealth: i32,
    pub seestate: State,
    pub seesound: Sound,
    pub reactiontime: i32,
    pub attacksound: Sound,
    pub painstate: State,
    pub painchance: i32,
    pub painsound: Sound,
    pub meleestate: State,
    pub missilestate: State,
    pub deathstate: State,
    pub xdeathstate: State,
    pub deathsound: Sound,
    pub speed: i32,
    pub radius: i32,
    pub height: i32,
    pub mass: i32,
    pub damage: i32,
    pub activesound: Sound,
    pub flags: MobjFlags,
    pub raisestate: State,
}

/*──────────────────────────── lookups ──────────────────────────────*/

/// Row `info` is placed on maps under editor number `num`: its number is
/// not negative and equals `num` once cut to 16 bits.
pub open spec fn has_doomednum(info: MobjInfo, num: u16) -> bool {
    info.doomednum >= 0 && info.doomednum as u16 == num
}

/// Row `i` is the last row of `table` placed under `num`.
pub open spec fn last_with_doomednum(table: Seq<MobjInfo>, num: u16, i: int) -> bool {
    &&& 0 <= i < table.len()
    &&& has_doomednum(table[i], num)
    &&& forall|j: int| i < j < table.len() ==> !has_doomednum(#[trigger] table[j], num)
}

/// Row `i` is the last row of `table` whose id is `id`.
pub open spec fn last_with_id(table: Seq<MobjInfo>, id: Seq<char>, i: int) -> bool {
    &&& 0 <= i < table.len()
    &&& table[i].id@ == id
    &&& forall|j: int| i < j < table.len() ==> (#[trigger] table[j]).id@ != id
}

/// The thing type placed on maps under editor number `num`; when several
/// rows share it, the last one wins.
pub fn by_doomednum<'a>(table: &'a [MobjInfo], num: u16) -> (r: Option<&'a MobjInfo>)
    ensures
        match r {
            Some(info) => exists|i: int| last_with_doomednum(table@, num, i) && *info == #[trigger] table@[i],
            None => forall|j: int| 0 <= j < table@.len() ==> !has_doomednum(#[trigger] table@[j], num),
        },
{
    let mut i = table.len();
    while i > 0
        invariant
            i <= table@.len(),
            forall|j: int| i <= j < table@.len() ==> !has_doomednum(#[trigger] table@[j], num),
        decreases i,
    {
        i -= 1;
        let info = &table[i];
        if info.doomednum >= 0 && info.doomednum as u16 == num {
            assert(last_with_doomednum(table@, num, i as int));
            return Some(info);
        }
    }
    None
}

/// The thing type whose id is `id` (`"PLAYER"`, `"POSSESSED"`, ...); when
/// several rows share it, the last one wins.
pub fn by_id<'a>(table: &'a [MobjInfo], id: &str) -> (r: Option<&'a MobjInfo>)
    ensures
        match r {
            Some(info) => exists|i: int| last_with_id(table@, id@, i) && *info == #[trigger] table@[i],
            None => forall|j: int| 0 <= j < table@.len() ==> (#[trigger] table@[j]).id@ != id@,
        },
{
    let mut i = table.len();
    while i > 0
        invariant
            i <= table@.len(),
            forall|j: int| i <= j < table@.len() ==> (#[trigger] table@[j]).id@ != id@,
        decreases i,
    {
        i -= 1;
        let info = &table[i];
        if str_eq(info.id, id) {
            assert(last_with_id(table@, id@, i as int));
            return Some(info);
        }
    }
    None
}

} // verus!
