use yadoom_rs::defs::{by_doomednum, by_id, MobjFlags, MobjInfo, Sound, State, MF_ALL, MF_MISSILE, MF_SKULLFLY, MF_SOLID};
use yadoom_rs::level::{RawLinedef, RawThing};
use yadoom_rs::sim::{ActorFlags, Animation, Class, Subsector};
use yadoom_rs::world::{linedef_links, thing_options, Child, LinedefFlags, CHILD_MASK, ML_TWO_SIDED, SUBSECTOR_BIT};

fn info(id: &'static str, doomednum: i32, health: i32) -> MobjInfo {
    MobjInfo {
        id,
        doomednum,
        spawnstate: State(1),
        spawnhealth: health,
        seestate: State(0),
        seesound: Sound(0),
        reactiontime: 8,
        attacksound: Sound(0),
        painstate: State(0),
        painchance: 0,
        painsound: Sound(0),
        meleestate: State(0),
        missilestate: State(0),
        deathstate: State(0),
        xdeathstate: State(0),
        deathsound: Sound(0),
        speed: 0,
        radius: 20,
        height: 16,
        mass: 100,
        damage: 0,
        activesound: Sound(0),
        flags: MobjFlags(MF_SOLID),
        raisestate: State(0),
    }
}

fn table() -> Vec<MobjInfo> {
    vec![info("PLAYER", -1, 100), info("POSSESSED", 3004, 20), info("BARREL", 2035, 20), info("POSSESSED", 9, 30)]
}

#[test]
fn lookup_by_editor_number() {
    let t = table();
    assert_eq!(by_doomednum(&t, 3004).unwrap().spawnhealth, 20);
    assert_eq!(by_doomednum(&t, 2035).unwrap().id, "BARREL");
    assert!(by_doomednum(&t, 1).is_none());
    // a negative number is never a key
    assert!(by_doomednum(&t, 65535).is_none());
}

#[test]
fn lookup_by_id_last_wins() {
    let t = table();
    assert_eq!(by_id(&t, "POSSESSED").unwrap().spawnhealth, 30);
    assert_eq!(by_id(&t, "PLAYER").unwrap().doomednum, -1);
    assert!(by_id(&t, "possessed").is_none());
}

#[test]
fn mobj_flag_operations() {
    let f = MobjFlags::from_bits_truncate(MF_MISSILE | MF_SOLID | 0xF000_0000);
    assert_eq!(f.bits(), MF_MISSILE | MF_SOLID);
    assert!(f.contains(MobjFlags(MF_SOLID)));
    assert!(!f.contains(MobjFlags(MF_SOLID | MF_SKULLFLY)));
    assert!(f.intersects(MobjFlags(MF_SKULLFLY | MF_MISSILE)));
    assert!(!MobjFlags::empty().intersects(MobjFlags(MF_ALL)));
}

#[test]
fn components_wrap_their_values() {
    let p: &'static MobjInfo = Box::leak(Box::new(info("PLAYER", 1, 100)));
    let c = Class(p);
    assert_eq!(c.0.id, "PLAYER");
    let a = Animation { state: State(5), tics: -1 };
    assert_eq!((a.state, a.tics), (State(5), -1));
    assert_eq!(Subsector(7).0, 7);
    assert_eq!(ActorFlags(MobjFlags(MF_SOLID)).0.bits(), MF_SOLID);
}

#[test]
fn thing_option_bits() {
    let mut t = RawThing { x: 0, y: 0, angle: 0, type_: 1, options: 0x0001 };
    assert_eq!(thing_options(&t).min_skill, 1);
    t.options = 0x0002;
    assert_eq!(thing_options(&t).min_skill, 2);
    t.options = 0x0004 | 0x0020;
    let o = thing_options(&t);
    assert_eq!((o.min_skill, o.is_deaf, o.multiplayer), (3, true, false));
    t.options = 0x0007 | 0x0100;
    let o = thing_options(&t);
    assert_eq!((o.min_skill, o.is_deaf, o.multiplayer), (1, false, true));
    // medium and hard: the lowest skill it appears on is medium
    t.options = 0x0026;
    let o = thing_options(&t);
    assert_eq!((o.min_skill, o.is_deaf, o.multiplayer), (2, true, false));
    t.options = 0x0000;
    assert_eq!(thing_options(&t).min_skill, 1);
}

#[test]
fn linedef_links_drop_negative_sides() {
    let r = RawLinedef { v1: 3, v2: -1, flags: 0x0004 | 0x4000, special: 11, tag: 7, sidenum: [5, -1] };
    let l = linedef_links(&r);
    assert_eq!((l.v1, l.v2, l.special, l.tag), (3, 65535, 11, 7));
    assert_eq!(l.flags, LinedefFlags(ML_TWO_SIDED));
    assert!(l.flags.contains(LinedefFlags(ML_TWO_SIDED)));
    assert_eq!((l.right_sidedef, l.left_sidedef), (Some(5), None));
    assert_eq!(LinedefFlags::from_bits_truncate(0xFFFF), LinedefFlags(0x12F7));
}

#[test]
fn bsp_child_references_decode() {
    assert_eq!(Child::from(0x8005u16), Child::Sub(5));
    assert_eq!(Child::from(0xFFFFu16), Child::Sub(CHILD_MASK));
    assert_eq!(Child::from(7u16), Child::Node(7));
    assert_eq!(Child::from(0u16), Child::Node(0));
    assert_eq!(SUBSECTOR_BIT | CHILD_MASK, 0xFFFF);
}
