use yadoom_rs::chartext::{
    compare_text, first_word_of, fmt_i64, join_with, lines, parse_i32_chars, parse_u8_chars, second_piece, split,
    strip_prefixes, to_chars, trim, CharSet,
};
use yadoom_rs::infogen::{
    action_names, extract_array_body, extract_mobj_rows, parse_mobj_chunk, parse_state_line, parse_state_rows,
    render_action, render_mobjinfo, render_sound, render_state, render_states, sound_names, MobjRow, StateRow,
};

fn s(v: &[char]) -> String {
    v.iter().collect()
}

const INFO_C: &str = "\
#include \"info.h\"\n\
state_t\tstates[NUMSTATES] = {\n\
    {SPR_TROO,0,-1,{NULL},S_NULL,0,0},\t// S_NULL\n\
    {SPR_SHTG,4,0,{A_Light0},S_NULL,0,0},\t// S_LIGHTDONE\n\
    {SPR_TROO,32769,10,{A_Look},S_TROO_STND2,0,0}, // S_TROO_STND\n\
    junk line\n\
};\n\
mobjinfo_t mobjinfo[NUMMOBJTYPES] = {\n\
    {\t\t// MT_PLAYER\n\
\t-1,\t\t// doomednum\n\
\tS_PLAY,\t\t// spawnstate\n\
\t100,\t\t// spawnhealth\n\
\tS_PLAY_RUN1,\t\t// seestate\n\
\tsfx_None,\t\t// seesound\n\
\t0,\t\t// reactiontime\n\
\tsfx_None,\t\t// attacksound\n\
\tS_PLAY_PAIN,\t\t// painstate\n\
\t255,\t\t// painchance\n\
\tsfx_plpain,\t\t// painsound\n\
\tS_NULL,\t\t// meleestate\n\
\tS_PLAY_ATK1,\t\t// missilestate\n\
\tS_PLAY_DIE1,\t\t// deathstate\n\
\tS_PLAY_XDIE1,\t\t// xdeathstate\n\
\tsfx_pldeth,\t\t// deathsound\n\
\t0,\t\t// speed\n\
\t16*FRACUNIT,\t\t// radius\n\
\t56*FRACUNIT,\t\t// height\n\
\t100,\t\t// mass\n\
\t0,\t\t// damage\n\
\tsfx_None,\t\t// activesound\n\
\tMF_SOLID|MF_SHOOTABLE|MF_DROPOFF|MF_PICKUP|MF_NOTDMATCH,\t\t// flags\n\
\tS_NULL\t\t// raisestate\n\
    },\n\
    {\t\t// MT_BROKEN\n\
\t1, 2, 3\n\
    }\n\
};\n";

#[test]
fn char_text_helpers() {
    let v = to_chars("  \t{a,b},, ");
    assert_eq!(s(&trim(&v, CharSet::Whitespace)), "{a,b},,");
    let t = trim(&v, CharSet::Whitespace);
    assert_eq!(s(&trim(&t, CharSet::BracesComma)), "a,b");
    let parts = split(&to_chars("a,,b,"), ',');
    let parts: Vec<String> = parts.iter().map(|p| s(p)).collect();
    assert_eq!(parts, vec!["a", "", "b", ""]);
    assert_eq!(s(&strip_prefixes(&to_chars("S_S_X"), &['S', '_'])), "X");
    assert_eq!(s(&strip_prefixes(&to_chars("AS_X"), &['S', '_'])), "AS_X");
    let ls = lines(&to_chars("a\r\nb\n\nc\r"));
    let ls: Vec<String> = ls.iter().map(|p| s(p)).collect();
    assert_eq!(ls, vec!["a", "b", "", "c\r"]);
    assert_eq!(lines(&to_chars("x\n")).len(), 1);
    assert_eq!(lines(&to_chars("")).len(), 0);
    let pieces = vec![to_chars("a"), to_chars("b"), to_chars("c")];
    assert_eq!(s(&join_with(&pieces, &[' ', '|', ' '])), "a | b | c");
    assert_eq!(s(&second_piece(&to_chars("x // y // z"), &['/', '/']).unwrap()), " y ");
    assert!(second_piece(&to_chars("xyz"), &['/', '/']).is_none());
    assert_eq!(s(&first_word_of(&to_chars("  \tS_FOO bar")).unwrap()), "S_FOO");
    assert!(first_word_of(&to_chars(" \t ")).is_none());
}

#[test]
fn numbers_parse_like_str_parse() {
    assert_eq!(parse_i32_chars(&to_chars("-17")), Some(-17));
    assert_eq!(parse_i32_chars(&to_chars("+5")), Some(5));
    assert_eq!(parse_i32_chars(&to_chars("2147483647")), Some(i32::MAX));
    assert_eq!(parse_i32_chars(&to_chars("-2147483648")), Some(i32::MIN));
    assert_eq!(parse_i32_chars(&to_chars("2147483648")), None);
    assert_eq!(parse_i32_chars(&to_chars("99999999999999999999")), None);
    assert_eq!(parse_i32_chars(&to_chars("1x")), None);
    assert_eq!(parse_i32_chars(&to_chars("-")), None);
    assert_eq!(parse_i32_chars(&to_chars("")), None);
    assert_eq!(parse_u8_chars(&to_chars("255")), Some(255));
    assert_eq!(parse_u8_chars(&to_chars("256")), None);
    assert_eq!(parse_u8_chars(&to_chars("-1")), None);
    assert_eq!(s(&fmt_i64(-305)), "-305");
    assert_eq!(s(&fmt_i64(0)), "0");
    assert_eq!(compare_text(&to_chars("ab"), &to_chars("b")), -1);
    assert_eq!(compare_text(&to_chars("ab"), &to_chars("a")), 1);
    assert_eq!(compare_text(&to_chars("ab"), &to_chars("ab")), 0);
}

#[test]
fn state_lines_parse() {
    let r = parse_state_line("    {SPR_TROO,0,10,{A_Look},S_TROO_STND2,3,5},\t// S_TROO_STND").unwrap();
    assert_eq!(r.sprite, "TROO");
    assert_eq!((r.frame, r.tics, r.misc1), (0, 10, 3));
    assert_eq!(r.action, "Look");
    assert_eq!(r.next_state, "TROO_STND2");
    assert_eq!(r.name, "TROO_STND");
    // a trailing comment does not disturb the fields
    assert_eq!(r.misc2, 5);
    let r = parse_state_line("{SPR_PLAY,0,-1,{NULL},S_NULL,3,7},\t// S_PLAY").unwrap();
    assert_eq!((r.misc1, r.misc2), (3, 7));
    assert_eq!(r.next_state, "NULL");
    assert_eq!(r.name, "PLAY");
    let r = parse_state_line("{SPR_A,300,-1,{NULL},S_NULL,0,7}").unwrap();
    assert_eq!((r.frame, r.tics, r.misc2), (0, -1, 7));
    assert_eq!(r.name, "");
    assert!(parse_state_line("SPR_A,1,2,3,4,5,6").is_none());
    assert!(parse_state_line("{SPR_A,1,2}").is_none());
}

#[test]
fn mobj_chunks_parse() {
    let body = extract_array_body("mobjinfo_t", "mobjinfo", INFO_C).unwrap();
    let rows = extract_mobj_rows(&body);
    assert_eq!(rows.len(), 1);
    let m = &rows[0];
    assert_eq!(m.id, "PLAYER");
    assert_eq!((m.doomednum, m.spawnhealth, m.painchance, m.mass), (-1, 100, 255, 100));
    assert_eq!(m.spawnstate, "PLAY");
    assert_eq!(m.seesound, "None");
    assert_eq!(m.painsound, "plpain");
    // "16*FRACUNIT" does not parse
    assert_eq!((m.radius, m.height), (0, 0));
    assert_eq!(m.flags, "MF_SOLID|MF_SHOOTABLE|MF_DROPOFF|MF_PICKUP|MF_NOTDMATCH");
    assert_eq!(m.raisestate, "NULL");
    assert!(parse_mobj_chunk("// MT_X\n 1, 2").is_none());
}

#[test]
fn state_table_extracts_and_lists_actions() {
    let body = extract_array_body("state_t", "states", INFO_C).unwrap();
    let rows = parse_state_rows(&body);
    assert_eq!(rows.len(), 3);
    assert_eq!(rows[2].name, "TROO_STND");
    assert_eq!(action_names(&rows), vec!["Light0".to_string(), "Look".to_string()]);
    assert!(extract_array_body("state_t", "nothing", INFO_C).is_none());
}

fn state(name: &str, action: &str) -> StateRow {
    StateRow {
        sprite: "TROO".into(),
        frame: 1,
        tics: -1,
        action: action.into(),
        next_state: "NULL".into(),
        misc1: 0,
        misc2: 2,
        name: name.into(),
    }
}

#[test]
fn rendered_state_sources() {
    let rows = vec![state("NULL", "NULL"), state("", "Look")];
    let st = render_state(&rows);
    assert!(st.contains("pub enum State {\n    NULL = 0,\n    S_IDX001 = 1,\n}\n\nimpl State {\n"));
    let sts = render_states(&rows);
    assert!(sts.ends_with(
        "   StateInfo { state: State::NULL, sprite: \"TROO\", frame: 1, tics: -1, action: Action::None, next_state: State::NULL, misc1: 0, misc2: 2 },\n   StateInfo { state: State::, sprite: \"TROO\", frame: 1, tics: -1, action: Action::Look, next_state: State::NULL, misc1: 0, misc2: 2 },\n];"
    ));
    let act = render_action(&["Look".to_string(), "Chase".to_string()]);
    assert!(act.ends_with("pub enum Action {\n    None,\n    Look,\n    Chase,\n}\n"));
    let snd = render_sound(&["0".to_string(), "pistol".to_string()]);
    assert!(snd.ends_with("pub enum Sound {\n    pistol,\n}\n"));
}

#[test]
fn rendered_mobj_source() {
    let m = MobjRow {
        id: "PLAYER".into(),
        doomednum: -1,
        spawnstate: "PLAY".into(),
        spawnhealth: 100,
        seestate: "0".into(),
        seesound: "0".into(),
        reactiontime: 0,
        attacksound: "pistol".into(),
        painstate: "0".into(),
        painchance: 255,
        painsound: "0".into(),
        meleestate: "0".into(),
        missilestate: "0".into(),
        deathstate: "0".into(),
        xdeathstate: "0".into(),
        deathsound: "0".into(),
        speed: 0,
        radius: 16,
        height: 56,
        mass: 100,
        damage: 0,
        activesound: "0".into(),
        flags: " MF_SOLID | MF_SHOOTABLE".into(),
        raisestate: "0".into(),
    };
    let out = render_mobjinfo(&[m.clone()]);
    assert!(out.contains("MobjInfo { id: \"PLAYER\", doomednum: -1, spawnstate: State::PLAY, spawnhealth: 100, seestate: State::NULL, seesound: Sound::None, reactiontime: 0, attacksound: Sound::pistol,"));
    assert!(out.contains("flags: MF::from_bits_truncate(MF::SOLID.bits() | MF::SHOOTABLE.bits()), raisestate: State::NULL },\n];\n"));
    let mut z = m.clone();
    z.flags = " 0 ".into();
    assert!(render_mobjinfo(&[z]).contains("flags: MF::empty(),"));
    let names = sound_names(&[m]);
    assert_eq!(names, vec!["0".to_string(), "pistol".to_string()]);
}

#[test]
fn array_names_are_matched_literally() {
    let src = "state.t states[3] = {\n{1}\n};\nstateXt statesX[2] = {\n{2}\n};";
    // the `.` in the type name matches only a literal `.`
    assert_eq!(extract_array_body("state.t", "states", src).unwrap(), "\n{1}\n");
    assert!(extract_array_body("state.t", "states.", src).is_none());
    assert!(extract_array_body("stat.+", "states", src).is_none());
}
