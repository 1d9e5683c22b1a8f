//! Conversion of the `states[]` and `mobjinfo[]` tables of Doom's `info.c`
//! into Rust source: parsing the C initialiser rows and rendering the
//! generated modules.

use vstd::prelude::*;
use crate::chartext::{
    first_piece, first_word, first_word_of, join, join_with, lines, lines_of, parse_i32, parse_i32_chars, parse_u8,
    parse_u8_chars, piece_after, piece_before, push_chars, push_str, second_piece, split, split_on,
    string_from_chars, strip_all, strip_prefixes, to_chars, trim, trim_set, views, CharSet, dec_int, dec_nat,
    fmt_i64, fmt_u64, pad3, zero_pad3, compare_text, text_lt, lemma_text_lt_irreflexive, lemma_text_lt_transitive,
    lemma_text_lt_total,
};
use crate::text::{
    opt_texts, regex_capture_all, regex_capture_named, regex_escape, regex_escaped, regex_group_matches,
    regex_named_group, str_eq,
};

verus! {

/*──────────────────────────── rows ─────────────────────────────────*/

/// One `state_t` row.
#[derive(Debug, Clone)]
pub struct StateRow {
    pub sprite: String,
    pub frame: u8,
    pub tics: i32,
    pub action: String,
    pub next_state: String,
    pub misc1: i32,
    pub misc2: i32,
    pub name: String,
}

/// `s` or, when it does not parse, 0.
pub open spec fn u8_or_zero(s: Seq<char>) -> u8 {
    match parse_u8(s) {
        Some(v) => v,
        None => 0,
    }
}

/// `s` or, when it does not parse, 0.
pub open spec fn i32_or_zero(s: Seq<char>) -> i32 {
    match parse_i32(s) {
        Some(v) => v,
        None => 0,
    }
}

/// `s` or, when it does not parse, `d`.
pub open spec fn i32_or(s: Seq<char>, d: i32) -> i32 {
    match parse_i32(s) {
        Some(v) => v,
        None => d,
    }
}

/// `"//"`.
pub open spec fn slashes() -> Seq<char> {
    seq!['/', '/']
}

/// The fields of a state row: the trimmed line cut before its `//`
/// comment, without its surrounding braces and commas, split at commas,
/// each field trimmed.
pub open spec fn state_fields(line: Seq<char>) -> Seq<Seq<char>> {
    let t = trim_set(line, CharSet::Whitespace);
    let code = trim_set(piece_before(t, slashes()), CharSet::Whitespace);
    split_on(trim_set(code, CharSet::BracesComma), ',').map_values(|f: Seq<char>| trim_set(f, CharSet::Whitespace))
}

/// A state row: the trimmed line opens with `{` and has at least seven
/// fields.
pub open spec fn state_line_ok(line: Seq<char>) -> bool {
    let t = trim_set(line, CharSet::Whitespace);
    t.len() > 0 && t[0] == '{' && state_fields(line).len() >= 7
}

/// The state's enum name: the first word of the trailing `// S_NAME`
/// comment without its `S_` prefixes, or empty.
pub open spec fn state_enum_name(line: Seq<char>) -> Seq<char> {
    let t = trim_set(line, CharSet::Whitespace);
    let w = match piece_after(t, slashes()) {
        Some(c) => match first_word(c) {
            Some(x) => x,
            None => seq![],
        },
        None => seq![],
    };
    strip_all(w, seq!['S', '_'])
}

/// Trim every vector of `v`.
fn trim_all(v: &Vec<Vec<char>>, set: CharSet) -> (r: Vec<Vec<char>>)
    ensures
        views(r@) == views(v@).map_values(|f: Seq<char>| trim_set(f, set)),
{
    let mut out: Vec<Vec<char>> = Vec::new();
    let mut k: usize = 0;
    while k < v.len()
        invariant
            k <= v@.len(),
            out@.len() == k,
            views(out@) == views(v@).take(k as int).map_values(|f: Seq<char>| trim_set(f, set)),
        decreases v@.len() - k,
    {
        let ghost prev = views(out@);
        let ghost old_out = out@;
        out.push(trim(&v[k], set));
        k += 1;
        proof {
            let want = views(v@).take(k as int).map_values(|f: Seq<char>| trim_set(f, set));
            assert forall|q: int| 0 <= q < k implies #[trigger] views(out@)[q] == want[q] by {
                if q < k - 1 {
                    assert(out@[q] == old_out[q]);
                    assert(views(out@)[q] == prev[q]);
                }
            }
            assert(views(out@) =~= want);
        }
    }
    assert(views(v@).take(v@.len() as int) =~= views(v@));
    out
}

/// `row` holds what the state line `line` says.
pub open spec fn state_parsed(line: Seq<char>, row: StateRow) -> bool {
    let f = state_fields(line);
    &&& row.sprite@ == strip_all(f[0], seq!['S', 'P', 'R', '_'])
    &&& row.frame == u8_or_zero(f[1])
    &&& row.tics == i32_or_zero(f[2])
    &&& row.action@ == strip_all(trim_set(f[3], CharSet::Braces), seq!['A', '_'])
    &&& row.next_state@ == strip_all(f[4], seq!['S', '_'])
    &&& row.misc1 == i32_or_zero(f[5])
    &&& row.misc2 == i32_or_zero(f[6])
    &&& row.name@ == state_enum_name(line)
}

/// Field `k` of a `state_t` initialiser fills the `k`-th member of
/// `state_t`: sprite (field 0, without `SPR_`), frame (1), tics (2),
/// action (3, without braces and `A_`), next state (4, without `S_`),
/// misc1 (5) and misc2 (6); unreadable numbers read as 0.
pub proof fn law_state_field_order(line: Seq<char>, row: StateRow)
    requires
        state_parsed(line, row),
    ensures
        ({
            let f = state_fields(line);
            &&& row.sprite@ == strip_all(f[0], seq!['S', 'P', 'R', '_'])
            &&& row.frame == match parse_u8(f[1]) {
                Some(v) => v,
                None => 0u8,
            }
            &&& row.action@ == strip_all(trim_set(f[3], CharSet::Braces), seq!['A', '_'])
            &&& row.next_state@ == strip_all(f[4], seq!['S', '_'])
        }),
        ({
            let f = state_fields(line);
            let nums = seq![row.tics, row.misc1, row.misc2];
            let num_at = seq![2int, 5, 6];
            forall|q: int|
                0 <= q < 3 ==> #[trigger] nums[q] == match parse_i32(f[num_at[q]]) {
                    Some(v) => v,
                    None => 0i32,
                }
        }),
{
}

/// Parse one line of the `states[]` initialiser, e.g.
/// `{SPR_TROO,0,10,{A_Look},S_TROO_STND2,0,0},	// S_TROO_STND`.
/// Numbers that do not parse read as 0.
pub fn parse_state_line(line: &str) -> (r: Option<StateRow>)
    ensures
        match r {
            None => !state_line_ok(line@),
            Some(row) => state_line_ok(line@) && state_parsed(line@, row),
        },
{
    let v = to_chars(line);
    let t = trim(&v, CharSet::Whitespace);
    if t.len() == 0 || t[0] != '{' {
        return None;
    }
    let sl: [char; 2] = ['/', '/'];
    assert(sl@ =~= slashes());
    let code = trim(&first_piece(&t, &sl), CharSet::Whitespace);
    let content = trim(&code, CharSet::BracesComma);
    let fields = trim_all(&split(&content, ','), CharSet::Whitespace);
    if fields.len() < 7 {
        return None;
    }
    let spr: [char; 4] = ['S', 'P', 'R', '_'];
    let a_: [char; 2] = ['A', '_'];
    let s_: [char; 2] = ['S', '_'];
    assert(spr@ =~= seq!['S', 'P', 'R', '_']);
    assert(a_@ =~= seq!['A', '_']);
    assert(s_@ =~= seq!['S', '_']);
    let action_raw = strip_prefixes(&trim(&fields[3], CharSet::Braces), &a_);
    let word: Vec<char> = match second_piece(&t, &sl) {
        Some(c) => match first_word_of(&c) {
            Some(w) => w,
            None => Vec::new(),
        },
        None => Vec::new(),
    };
    let enum_name = strip_prefixes(&word, &s_);
    let frame = match parse_u8_chars(&fields[1]) {
        Some(x) => x,
        None => 0,
    };
    let tics = match parse_i32_chars(&fields[2]) {
        Some(x) => x,
        None => 0,
    };
    let misc1 = match parse_i32_chars(&fields[5]) {
        Some(x) => x,
        None => 0,
    };
    let misc2 = match parse_i32_chars(&fields[6]) {
        Some(x) => x,
        None => 0,
    };
    let sprite = strip_prefixes(&fields[0], &spr);
    let next_state = strip_prefixes(&fields[4], &s_);
    assert(views(fields@)[0] == fields@[0]@);
    Some(StateRow {
        sprite: string_from_chars(&sprite),
        frame,
        tics,
        action: string_from_chars(&action_raw),
        next_state: string_from_chars(&next_state),
        misc1,
        misc2,
        name: string_from_chars(&enum_name),
    })
}

/// One `mobjinfo_t` row.
#[derive(Debug, Clone)]
pub struct MobjRow {
    pub id: String,
    pub doomednum: i32,
    pub spawnstate: String,
    pub spawnhealth: i32,
    pub seestate: String,
    pub seesound: String,
    pub reactiontime: i32,
    pub attacksound: String,
    pub painstate: String,
    pub painchance: i32,
    pub painsound: String,
    pub meleestate: String,
    pub missilestate: String,
    pub deathstate: String,
    pub xdeathstate: String,
    pub deathsound: String,
    pub speed: i32,
    pub radius: i32,
    pub height: i32,
    pub mass: i32,
    pub damage: i32,
    pub activesound: String,
    pub flags: String,
    pub raisestate: String,
}

/// `s` without its empty pieces.
pub open spec fn drop_empty(s: Seq<Seq<char>>) -> Seq<Seq<char>>
    decreases s.len(),
{
    if s.len() == 0 {
        seq![]
    } else if s.last().len() == 0 {
        drop_empty(s.drop_last())
    } else {
        drop_empty(s.drop_last()).push(s.last())
    }
}

/// The mobj's id: the trimmed `// MT_FOO` comment of the chunk's first
/// line without its `MT_` prefixes, or empty.
pub open spec fn mobj_id(text: Seq<char>) -> Seq<char> {
    let ls = lines_of(text);
    let c = if ls.len() > 0 {
        match piece_after(ls[0], slashes()) {
            Some(c) => trim_set(c, CharSet::Whitespace),
            None => seq![],
        }
    } else {
        seq![]
    };
    strip_all(c, seq!['M', 'T', '_'])
}

/// The chunk with every line's `//` comment removed, each line trimmed,
/// the lines joined with single spaces.
pub open spec fn mobj_cleaned(text: Seq<char>) -> Seq<char> {
    join(
        lines_of(text).map_values(|l: Seq<char>| trim_set(piece_before(l, slashes()), CharSet::Whitespace)),
        seq![' '],
    )
}

/// The non-empty trimmed comma-separated fields of the cleaned chunk.
pub open spec fn mobj_fields(text: Seq<char>) -> Seq<Seq<char>> {
    drop_empty(split_on(mobj_cleaned(text), ',').map_values(|f: Seq<char>| trim_set(f, CharSet::Whitespace)))
}

/// `"S_"`.
pub open spec fn s_prefix() -> Seq<char> {
    seq!['S', '_']
}

/// `"sfx_"`.
pub open spec fn sfx_prefix() -> Seq<char> {
    seq!['s', 'f', 'x', '_']
}

/// Keep the non-empty vectors of `v`, in order.
fn drop_empty_exec(v: &Vec<Vec<char>>) -> (r: Vec<Vec<char>>)
    ensures
        views(r@) == drop_empty(views(v@)),
{
    let mut out: Vec<Vec<char>> = Vec::new();
    let mut k: usize = 0;
    while k < v.len()
        invariant
            k <= v@.len(),
            views(out@) == drop_empty(views(v@).take(k as int)),
        decreases v@.len() - k,
    {
        let ghost before = views(out@);
        proof {
            let w = views(v@).take(k + 1);
            assert(w.drop_last() =~= views(v@).take(k as int));
            assert(w.last() == v@[k as int]@);
        }
        if v[k].len() > 0 {
            out.push(v[k].clone());
            assert(views(out@) =~= before.push(v@[k as int]@));
        }
        k += 1;
    }
    assert(views(v@).take(v@.len() as int) =~= views(v@));
    out
}

/// Apply `piece_before(_, "//")` then trimming to every line.
fn strip_comments(ls: &Vec<Vec<char>>) -> (r: Vec<Vec<char>>)
    ensures
        views(r@) == views(ls@).map_values(|l: Seq<char>| trim_set(piece_before(l, slashes()), CharSet::Whitespace)),
{
    let sl: [char; 2] = ['/', '/'];
    assert(sl@ =~= slashes());
    let mut out: Vec<Vec<char>> = Vec::new();
    let mut k: usize = 0;
    while k < ls.len()
        invariant
            sl@ == slashes(),
            k <= ls@.len(),
            out@.len() == k,
            views(out@) == views(ls@).take(k as int).map_values(
                |l: Seq<char>| trim_set(piece_before(l, slashes()), CharSet::Whitespace),
            ),
        decreases ls@.len() - k,
    {
        let ghost prev = views(out@);
        let ghost old_out = out@;
        let p = first_piece(&ls[k], &sl);
        out.push(trim(&p, CharSet::Whitespace));
        k += 1;
        proof {
            let want = views(ls@).take(k as int).map_values(
                |l: Seq<char>| trim_set(piece_before(l, slashes()), CharSet::Whitespace),
            );
            assert forall|q: int| 0 <= q < k implies #[trigger] views(out@)[q] == want[q] by {
                if q < k - 1 {
                    assert(out@[q] == old_out[q]);
                    assert(views(out@)[q] == prev[q]);
                }
            }
            assert(views(out@) =~= want);
        }
    }
    assert(views(ls@).take(ls@.len() as int) =~= views(ls@));
    out
}

/// `m` holds what the mobj initialiser `text` says.
pub open spec fn mobj_parsed(text: Seq<char>, m: MobjRow) -> bool {
    let f = mobj_fields(text);
    &&& m.id@ == mobj_id(text)
    &&& m.doomednum == i32_or(f[0], -1i32)
    &&& m.spawnstate@ == strip_all(f[1], s_prefix())
    &&& m.spawnhealth == i32_or_zero(f[2])
    &&& m.seestate@ == strip_all(f[3], s_prefix())
    &&& m.seesound@ == strip_all(f[4], sfx_prefix())
    &&& m.reactiontime == i32_or_zero(f[5])
    &&& m.attacksound@ == strip_all(f[6], sfx_prefix())
    &&& m.painstate@ == strip_all(f[7], s_prefix())
    &&& m.painchance == i32_or_zero(f[8])
    &&& m.painsound@ == strip_all(f[9], sfx_prefix())
    &&& m.meleestate@ == strip_all(f[10], s_prefix())
    &&& m.missilestate@ == strip_all(f[11], s_prefix())
    &&& m.deathstate@ == strip_all(f[12], s_prefix())
    &&& m.xdeathstate@ == strip_all(f[13], s_prefix())
    &&& m.deathsound@ == strip_all(f[14], sfx_prefix())
    &&& m.speed == i32_or_zero(f[15])
    &&& m.radius == i32_or_zero(f[16])
    &&& m.height == i32_or_zero(f[17])
    &&& m.mass == i32_or_zero(f[18])
    &&& m.damage == i32_or_zero(f[19])
    &&& m.activesound@ == strip_all(f[20], sfx_prefix())
    &&& m.flags@ == f[21]
    &&& m.raisestate@ == strip_all(f[22], s_prefix())
}

/// Field `k` of a `mobjinfo_t` initialiser fills the `k`-th member of
/// `mobjinfo_t`, in declaration order: the state members (fields 1, 3, 7,
/// 10, 11, 12, 13 and 22) without their `S_` prefixes, the sound members
/// (fields 4, 6, 9, 14 and 20) without their `sfx_` prefixes, the numeric
/// members (fields 0, 2, 5, 8 and 15 to 19) as the integers they spell
/// (-1 for an unreadable doom-editor number, else 0), and the flags
/// (field 21) as written.
pub proof fn law_mobj_field_order(text: Seq<char>, m: MobjRow)
    requires
        mobj_parsed(text, m),
    ensures
        ({
            let f = mobj_fields(text);
            let states = seq![
                m.spawnstate@,
                m.seestate@,
                m.painstate@,
                m.meleestate@,
                m.missilestate@,
                m.deathstate@,
                m.xdeathstate@,
                m.raisestate@,
            ];
            let state_at = seq![1int, 3, 7, 10, 11, 12, 13, 22];
            forall|q: int| 0 <= q < 8 ==> #[trigger] states[q] == strip_all(f[state_at[q]], seq!['S', '_'])
        }),
        ({
            let f = mobj_fields(text);
            let sounds = seq![m.seesound@, m.attacksound@, m.painsound@, m.deathsound@, m.activesound@];
            let sound_at = seq![4int, 6, 9, 14, 20];
            forall|q: int| 0 <= q < 5 ==> #[trigger] sounds[q] == strip_all(f[sound_at[q]], seq!['s', 'f', 'x', '_'])
        }),
        ({
            let f = mobj_fields(text);
            let nums = seq![
                m.doomednum,
                m.spawnhealth,
                m.reactiontime,
                m.painchance,
                m.speed,
                m.radius,
                m.height,
                m.mass,
                m.damage,
            ];
            let num_at = seq![0int, 2, 5, 8, 15, 16, 17, 18, 19];
            forall|q: int|
                0 <= q < 9 ==> #[trigger] nums[q] == match parse_i32(f[num_at[q]]) {
                    Some(v) => v,
                    None => if q == 0 { -1i32 } else { 0i32 },
                }
        }),
        m.flags@ == mobj_fields(text)[21],
{
}

/// Parse one `{ ... }` initialiser of the `mobjinfo[]` table, comments
/// included; `None` when it has fewer than 23 fields.  The doom-editor
/// number defaults to -1 and other numbers to 0 when they do not parse.
pub fn parse_mobj_chunk(text: &str) -> (r: Option<MobjRow>)
    ensures
        match r {
            None => mobj_fields(text@).len() < 23,
            Some(m) => mobj_fields(text@).len() >= 23 && mobj_parsed(text@, m),
        },
{
    let v = to_chars(text);
    let ls = lines(&v);
    let sl: [char; 2] = ['/', '/'];
    let mt: [char; 3] = ['M', 'T', '_'];
    let s_: [char; 2] = ['S', '_'];
    let sfx: [char; 4] = ['s', 'f', 'x', '_'];
    let sp: [char; 1] = [' '];
    assert(sl@ =~= slashes());
    assert(mt@ =~= seq!['M', 'T', '_']);
    assert(s_@ =~= s_prefix());
    assert(sfx@ =~= sfx_prefix());
    assert(sp@ =~= seq![' ']);
    // 0) the leading "// MT_FOO" tag, if any
    let tag: Vec<char> = if ls.len() > 0 {
        match second_piece(&ls[0], &sl) {
            Some(c) => trim(&c, CharSet::Whitespace),
            None => Vec::new(),
        }
    } else {
        Vec::new()
    };
    let id = strip_prefixes(&tag, &mt);
    // strip per-line "// ..." comments
    let cleaned = join_with(&strip_comments(&ls), &sp);
    let f = drop_empty_exec(&trim_all(&split(&cleaned, ','), CharSet::Whitespace));
    if f.len() < 23 {
        return None;
    }
    proof {
        assert forall|q: int| 0 <= q < f@.len() implies views(f@)[q] == (#[trigger] f@[q])@ by {}
    }
    Some(MobjRow {
        id: string_from_chars(&id),
        doomednum: match parse_i32_chars(&f[0]) {
            Some(x) => x,
            None => -1,
        },
        spawnstate: string_from_chars(&strip_prefixes(&f[1], &s_)),
        spawnhealth: match parse_i32_chars(&f[2]) {
            Some(x) => x,
            None => 0,
        },
        seestate: string_from_chars(&strip_prefixes(&f[3], &s_)),
        seesound: string_from_chars(&strip_prefixes(&f[4], &sfx)),
        reactiontime: match parse_i32_chars(&f[5]) {
            Some(x) => x,
            None => 0,
        },
        attacksound: string_from_chars(&strip_prefixes(&f[6], &sfx)),
        painstate: string_from_chars(&strip_prefixes(&f[7], &s_)),
        painchance: match parse_i32_chars(&f[8]) {
            Some(x) => x,
            None => 0,
        },
        painsound: string_from_chars(&strip_prefixes(&f[9], &sfx)),
        meleestate: string_from_chars(&strip_prefixes(&f[10], &s_)),
        missilestate: string_from_chars(&strip_prefixes(&f[11], &s_)),
        deathstate: string_from_chars(&strip_prefixes(&f[12], &s_)),
        xdeathstate: string_from_chars(&strip_prefixes(&f[13], &s_)),
        deathsound: string_from_chars(&strip_prefixes(&f[14], &sfx)),
        speed: match parse_i32_chars(&f[15]) {
            Some(x) => x,
            None => 0,
        },
        radius: match parse_i32_chars(&f[16]) {
            Some(x) => x,
            None => 0,
        },
        height: match parse_i32_chars(&f[17]) {
            Some(x) => x,
            None => 0,
        },
        mass: match parse_i32_chars(&f[18]) {
            Some(x) => x,
            None => 0,
        },
        damage: match parse_i32_chars(&f[19]) {
            Some(x) => x,
            None => 0,
        },
        activesound: string_from_chars(&strip_prefixes(&f[20], &sfx)),
        flags: string_from_chars(&f[21]),
        raisestate: string_from_chars(&strip_prefixes(&f[22], &s_)),
    })
}

/*──────────────────────────── rendering ────────────────────────────*/

/// The views of a slice of strings.
pub open spec fn texts(v: Seq<String>) -> Seq<Seq<char>> {
    v.map_values(|s: String| s@)
}

/// One enum variant line `    NAME,` per name.
pub open spec fn variant_lines(names: Seq<Seq<char>>) -> Seq<char>
    decreases names.len(),
{
    if names.len() == 0 {
        seq![]
    } else {
        variant_lines(names.drop_last()) + "    "@ + names.last() + ",\n"@
    }
}

/// The variant lines of the names other than `0`.
pub open spec fn sound_lines(names: Seq<Seq<char>>) -> Seq<char>
    decreases names.len(),
{
    if names.len() == 0 {
        seq![]
    } else if names.last() == "0"@ {
        sound_lines(names.drop_last())
    } else {
        sound_lines(names.drop_last()) + "    "@ + names.last() + ",\n"@
    }
}

/// Header of the generated `action.rs`.
pub open spec fn action_head() -> Seq<char> {
    "// AUTO-GENERATED - see tools/gen_mobjinfo\n\n\
#[derive(Debug, Copy, Clone)]\n\
#[allow(non_camel_case_types)]\n\
pub enum Action {\n    None,\n"@
}

/// Header of the generated `sound.rs`.
pub open spec fn sound_head() -> Seq<char> {
    "// AUTO-GENERATED - see tools/gen_mobjinfo\n\n\
#[derive(Debug, Copy, Clone)]\n\
#[allow(non_camel_case_types)]\n\
pub enum Sound {\n"@
}

/// Source of the `Action` enum: `None`, then one variant per name.
pub fn render_action(names: &[String]) -> (out: String)
    ensures
        out@ == action_head() + variant_lines(texts(names@)) + "}\n"@,
{
    let mut out: Vec<char> = Vec::new();
    push_str(
        &mut out,
        "// AUTO-GENERATED - see tools/gen_mobjinfo\n\n\
#[derive(Debug, Copy, Clone)]\n\
#[allow(non_camel_case_types)]\n\
pub enum Action {\n    None,\n",
    );
    let ghost head = out@;
    let mut k: usize = 0;
    while k < names.len()
        invariant
            k <= names@.len(),
            head == action_head(),
            out@ == head + variant_lines(texts(names@).take(k as int)),
        decreases names@.len() - k,
    {
        push_str(&mut out, "    ");
        push_str(&mut out, names[k].as_str());
        push_str(&mut out, ",\n");
        proof {
            let w = texts(names@).take(k + 1);
            assert(w.drop_last() =~= texts(names@).take(k as int));
            assert(w.last() == names@[k as int]@);
        }
        k += 1;
    }
    push_str(&mut out, "}\n");
    assert(texts(names@).take(names@.len() as int) =~= texts(names@));
    string_from_chars(&out)
}

/// Source of the `Sound` enum: one variant per name, `0` left out.
pub fn render_sound(names: &[String]) -> (out: String)
    ensures
        out@ == sound_head() + sound_lines(texts(names@)) + "}\n"@,
{
    let mut out: Vec<char> = Vec::new();
    push_str(
        &mut out,
        "// AUTO-GENERATED - see tools/gen_mobjinfo\n\n\
#[derive(Debug, Copy, Clone)]\n\
#[allow(non_camel_case_types)]\n\
pub enum Sound {\n",
    );
    let ghost head = out@;
    let zero = "0";
    let mut k: usize = 0;
    while k < names.len()
        invariant
            k <= names@.len(),
            head == sound_head(),
            zero@ == "0"@,
            out@ == head + sound_lines(texts(names@).take(k as int)),
        decreases names@.len() - k,
    {
        proof {
            let w = texts(names@).take(k + 1);
            assert(w.drop_last() =~= texts(names@).take(k as int));
            assert(w.last() == names@[k as int]@);
        }
        if !str_eq(names[k].as_str(), zero) {
            push_str(&mut out, "    ");
            push_str(&mut out, names[k].as_str());
            push_str(&mut out, ",\n");
        }
        k += 1;
    }
    push_str(&mut out, "}\n");
    assert(texts(names@).take(names@.len() as int) =~= texts(names@));
    string_from_chars(&out)
}

/// The variant name of state `i`: its own name, or `S_IDX` and the index
/// padded to three digits when it has none.
pub open spec fn state_variant(row: StateRow, i: int) -> Seq<char> {
    if row.name@.len() == 0 {
        "S_IDX"@ + zero_pad3(dec_nat(i as nat))
    } else {
        row.name@
    }
}

/// The variant lines `    NAME = i,` of the first `n` rows.
pub open spec fn state_enum_lines(rows: Seq<StateRow>, n: int) -> Seq<char>
    decreases n,
{
    if n <= 0 {
        seq![]
    } else {
        state_enum_lines(rows, n - 1) + "    "@ + state_variant(rows[n - 1], n - 1) + " = "@ + dec_nat((n - 1) as nat)
            + ",\n"@
    }
}

/// Header of the generated `state.rs`.
pub open spec fn state_head() -> Seq<char> {
    "// AUTO-GENERATED - see tools/gen_mobjinfo\n\n\
#[repr(usize)]\n\
#[derive(Debug, Copy, Clone, PartialEq, Eq)]\n\
#[allow(non_camel_case_types)]\n\
pub enum State {\n"@
}

/// The accessors appended to the generated `state.rs`.
pub open spec fn state_impl() -> Seq<char> {
    "impl State {\n\
#[inline(always)]\n\
pub fn info(self) -> &'static super::states::StateInfo {\n\
    &super::states::STATES[self as usize]\n\
}\n\
#[inline(always)]\n\
pub fn tics(self) -> i32 {\n\
    self.info().tics\n\
}\n\
#[inline(always)]\n\
pub fn next(self) -> State {\n\
    self.info().next_state\n\
}\n\
#[inline(always)]\n\
pub fn sprite(self) -> &'static str {\n\
    self.info().sprite\n\
}\n\
#[inline(always)]\n\
pub fn frame(self) -> u8 {\n\
    self.info().frame\n\
}\n\
}\n"@
}

/// Source of the `State` enum: one variant per row, numbered by position,
/// then its accessors.
pub fn render_state(rows: &[StateRow]) -> (out: String)
    ensures
        out@ == state_head() + state_enum_lines(rows@, rows@.len() as int) + "}\n\n"@ + state_impl(),
{
    let mut out: Vec<char> = Vec::new();
    push_str(
        &mut out,
        "// AUTO-GENERATED - see tools/gen_mobjinfo\n\n\
#[repr(usize)]\n\
#[derive(Debug, Copy, Clone, PartialEq, Eq)]\n\
#[allow(non_camel_case_types)]\n\
pub enum State {\n",
    );
    let ghost head = out@;
    let mut i: usize = 0;
    while i < rows.len()
        invariant
            i <= rows@.len(),
            head == state_head(),
            out@ == head + state_enum_lines(rows@, i as int),
        decreases rows@.len() - i,
    {
        let row = &rows[i];
        let digits = fmt_u64(i as u64);
        push_str(&mut out, "    ");
        // fall back to S_IDXnnn if the comment was missing
        let nm = to_chars(row.name.as_str());
        if nm.len() == 0 {
            push_str(&mut out, "S_IDX");
            let padded = pad3(&digits);
            push_chars(&mut out, &padded);
        } else {
            push_chars(&mut out, &nm);
        }
        push_str(&mut out, " = ");
        push_chars(&mut out, &digits);
        push_str(&mut out, ",\n");
        i += 1;
    }
    push_str(&mut out, "}\n\n");
    push_str(
        &mut out,
        "impl State {\n\
#[inline(always)]\n\
pub fn info(self) -> &'static super::states::StateInfo {\n\
    &super::states::STATES[self as usize]\n\
}\n\
#[inline(always)]\n\
pub fn tics(self) -> i32 {\n\
    self.info().tics\n\
}\n\
#[inline(always)]\n\
pub fn next(self) -> State {\n\
    self.info().next_state\n\
}\n\
#[inline(always)]\n\
pub fn sprite(self) -> &'static str {\n\
    self.info().sprite\n\
}\n\
#[inline(always)]\n\
pub fn frame(self) -> u8 {\n\
    self.info().frame\n\
}\n\
}\n",
    );
    string_from_chars(&out)
}

/// The `Action` variant a state's action names: `None` for `NULL`.
pub open spec fn action_token(a: Seq<char>) -> Seq<char> {
    if a == "NULL"@ {
        "Action::None"@
    } else {
        "Action::"@ + a
    }
}

/// The `StateInfo` initialiser line of a row.
pub open spec fn state_info_line(s: StateRow) -> Seq<char> {
    "   StateInfo { state: State::"@ + s.name@ + ", sprite: \""@ + s.sprite@ + "\", frame: "@ + dec_int(s.frame as int)
        + ", tics: "@ + dec_int(s.tics as int) + ", action: "@ + action_token(s.action@) + ", next_state: State::"@
        + s.next_state@ + ", misc1: "@ + dec_int(s.misc1 as int) + ", misc2: "@ + dec_int(s.misc2 as int) + " },\n"@
}

/// `p` occurs in `s` at position `i`.
pub open spec fn occurs_at(s: Seq<char>, p: Seq<char>, i: int) -> bool {
    0 <= i && i + p.len() <= s.len() && s.subrange(i, i + p.len()) == p
}

/// `p` occurs in `s`.
pub open spec fn text_contains(s: Seq<char>, p: Seq<char>) -> bool {
    exists|i: int| #[trigger] occurs_at(s, p, i)
}

/// Whatever occurs in `s` occurs in `s` followed by anything.
proof fn lemma_contains_extend()
    ensures
        forall|s: Seq<char>, b: Seq<char>, p: Seq<char>|
            text_contains(s, p) ==> #[trigger] text_contains(s + b, p),
{
    assert forall|s: Seq<char>, b: Seq<char>, p: Seq<char>| text_contains(s, p) implies #[trigger] text_contains(
        s + b,
        p,
    ) by {
        let i = choose|i: int| #[trigger] occurs_at(s, p, i);
        assert((s + b).subrange(i, i + p.len()) =~= p);
        assert(occurs_at(s + b, p, i));
    }
}

/// The last three pieces of a text occur in it.
proof fn lemma_contains_last_three()
    ensures
        forall|a: Seq<char>, k: Seq<char>, v: Seq<char>, k2: Seq<char>| #[trigger]
            text_contains(a + k + v + k2, k + v + k2),
{
    assert forall|a: Seq<char>, k: Seq<char>, v: Seq<char>, k2: Seq<char>| #[trigger]
        text_contains(a + k + v + k2, k + v + k2) by {
        let p = k + v + k2;
        let i = a.len() as int;
        assert((a + k + v + k2).subrange(i, i + p.len()) =~= p);
        assert(occurs_at(a + k + v + k2, p, i));
    }
}

/// Each member of a rendered `MobjInfo` line holds the row field of the
/// same name: the text between a member's key and the next member's key
/// (or the line's end) is that field, as a decimal for numbers, as
/// `State::..` or `Sound::..` for state and sound references, and as the
/// flags expression for the flags; the id stands quoted.
pub proof fn law_mobj_line_members(m: MobjRow)
    ensures
        text_contains(mobj_line(m), "\""@ + m.id@ + "\""@),
        text_contains(mobj_line(m), ", doomednum: "@ + dec_int(m.doomednum as int) + ", spawnstate: "@),
        text_contains(mobj_line(m), ", spawnstate: "@ + fmt_state(m.spawnstate@) + ", spawnhealth: "@),
        text_contains(mobj_line(m), ", spawnhealth: "@ + dec_int(m.spawnhealth as int) + ", seestate: "@),
        text_contains(mobj_line(m), ", seestate: "@ + fmt_state(m.seestate@) + ", seesound: "@),
        text_contains(mobj_line(m), ", seesound: "@ + fmt_sound(m.seesound@) + ", reactiontime: "@),
        text_contains(mobj_line(m), ", reactiontime: "@ + dec_int(m.reactiontime as int) + ", attacksound: "@),
        text_contains(mobj_line(m), ", attacksound: "@ + fmt_sound(m.attacksound@) + ", painstate: "@),
        text_contains(mobj_line(m), ", painstate: "@ + fmt_state(m.painstate@) + ", painchance: "@),
        text_contains(mobj_line(m), ", painchance: "@ + dec_int(m.painchance as int) + ", painsound: "@),
        text_contains(mobj_line(m), ", painsound: "@ + fmt_sound(m.painsound@) + ", meleestate: "@),
        text_contains(mobj_line(m), ", meleestate: "@ + fmt_state(m.meleestate@) + ", missilestate: "@),
        text_contains(mobj_line(m), ", missilestate: "@ + fmt_state(m.missilestate@) + ", deathstate: "@),
        text_contains(mobj_line(m), ", deathstate: "@ + fmt_state(m.deathstate@) + ", xdeathstate: "@),
        text_contains(mobj_line(m), ", xdeathstate: "@ + fmt_state(m.xdeathstate@) + ", deathsound: "@),
        text_contains(mobj_line(m), ", deathsound: "@ + fmt_sound(m.deathsound@) + ", speed: "@),
        text_contains(mobj_line(m), ", speed: "@ + dec_int(m.speed as int) + ", radius: "@),
        text_contains(mobj_line(m), ", radius: "@ + dec_int(m.radius as int) + ", height: "@),
        text_contains(mobj_line(m), ", height: "@ + dec_int(m.height as int) + ", mass: "@),
        text_contains(mobj_line(m), ", mass: "@ + dec_int(m.mass as int) + ", damage: "@),
        text_contains(mobj_line(m), ", damage: "@ + dec_int(m.damage as int) + ", activesound: "@),
        text_contains(mobj_line(m), ", activesound: "@ + fmt_sound(m.activesound@) + ", flags: "@),
        text_contains(mobj_line(m), ", flags: "@ + fmt_flags(m.flags@) + ", raisestate: "@),
        text_contains(mobj_line(m), ", raisestate: "@ + fmt_state(m.raisestate@) + " },\n"@),
{
    lemma_contains_extend();
    lemma_contains_last_three();
}

/// Each member of a rendered `StateInfo` line holds the row field of the
/// same name: the text between a member's key and the next member's key
/// (or the line's end) is that field.
pub proof fn law_state_info_line_members(s: StateRow)
    ensures
        text_contains(state_info_line(s), "   StateInfo { state: State::"@ + s.name@ + ", sprite: \""@),
        text_contains(state_info_line(s), ", sprite: \""@ + s.sprite@ + "\", frame: "@),
        text_contains(state_info_line(s), "\", frame: "@ + dec_int(s.frame as int) + ", tics: "@),
        text_contains(state_info_line(s), ", tics: "@ + dec_int(s.tics as int) + ", action: "@),
        text_contains(state_info_line(s), ", action: "@ + action_token(s.action@) + ", next_state: State::"@),
        text_contains(state_info_line(s), ", next_state: State::"@ + s.next_state@ + ", misc1: "@),
        text_contains(state_info_line(s), ", misc1: "@ + dec_int(s.misc1 as int) + ", misc2: "@),
        text_contains(state_info_line(s), ", misc2: "@ + dec_int(s.misc2 as int) + " },\n"@),
{
    lemma_contains_extend();
    lemma_contains_last_three();
    let p = "   StateInfo { state: State::"@ + s.name@ + ", sprite: \""@;
    assert(state_info_line(s).subrange(0, p.len() as int) =~= p);
    assert(occurs_at(state_info_line(s), p, 0));
}

/// The initialiser lines of the first `n` rows.
pub open spec fn state_info_lines(rows: Seq<StateRow>, n: int) -> Seq<char>
    decreases n,
{
    if n <= 0 {
        seq![]
    } else {
        state_info_lines(rows, n - 1) + state_info_line(rows[n - 1])
    }
}

/// Header of the generated `states.rs`.
pub open spec fn states_head() -> Seq<char> {
    "// AUTO-GENERATED - see tools/gen_mobjinfo\n\n\
use crate::defs::state::State;\n\
use crate::defs::action::Action;\n\n\
#[derive(Debug, Copy, Clone)]\n\
pub struct StateInfo {\n\
    pub state: State,\n\
    pub sprite: &'static str,\n\
    pub frame: u8,\n\
    pub tics: i32,\n\
    pub action: Action,\n\
    pub next_state: State,\n\
    pub misc1: i32,\n\
    pub misc2: i32,\n\
}\n\n\
pub const STATES: &[StateInfo] = &[\n"@
}

/// Append the decimal text of `v`.
fn push_int(out: &mut Vec<char>, v: i32)
    ensures
        final(out)@ == old(out)@ + dec_int(v as int),
{
    let d = fmt_i64(v as i64);
    push_chars(out, &d);
}

/// The `StateInfo` initialiser line of `st`.
fn state_info_line_exec(st: &StateRow) -> (line: Vec<char>)
    ensures
        line@ == state_info_line(*st),
{
    let mut line = to_chars("   StateInfo { state: State::");
    push_str(&mut line, st.name.as_str());
    push_str(&mut line, ", sprite: \"");
    push_str(&mut line, st.sprite.as_str());
    push_str(&mut line, "\", frame: ");
    push_int(&mut line, st.frame as i32);
    push_str(&mut line, ", tics: ");
    push_int(&mut line, st.tics);
    push_str(&mut line, ", action: ");
    let null = "NULL";
    if str_eq(st.action.as_str(), null) {
        push_str(&mut line, "Action::None");
    } else {
        let mut tok = to_chars("Action::");
        push_str(&mut tok, st.action.as_str());
        push_chars(&mut line, &tok);
    }
    push_str(&mut line, ", next_state: State::");
    push_str(&mut line, st.next_state.as_str());
    push_str(&mut line, ", misc1: ");
    push_int(&mut line, st.misc1);
    push_str(&mut line, ", misc2: ");
    push_int(&mut line, st.misc2);
    push_str(&mut line, " },\n");
    line
}

/// Source of the `STATES` table: one `StateInfo` per row.
pub fn render_states(rows: &[StateRow]) -> (out: String)
    ensures
        out@ == states_head() + state_info_lines(rows@, rows@.len() as int) + "];"@,
{
    let mut out: Vec<char> = Vec::new();
    push_str(
        &mut out,
        "// AUTO-GENERATED - see tools/gen_mobjinfo\n\n\
use crate::defs::state::State;\n\
use crate::defs::action::Action;\n\n\
#[derive(Debug, Copy, Clone)]\n\
pub struct StateInfo {\n\
    pub state: State,\n\
    pub sprite: &'static str,\n\
    pub frame: u8,\n\
    pub tics: i32,\n\
    pub action: Action,\n\
    pub next_state: State,\n\
    pub misc1: i32,\n\
    pub misc2: i32,\n\
}\n\n\
pub const STATES: &[StateInfo] = &[\n",
    );
    let ghost head = out@;
    let mut i: usize = 0;
    while i < rows.len()
        invariant
            i <= rows@.len(),
            head == states_head(),
            out@ == head + state_info_lines(rows@, i as int),
        decreases rows@.len() - i,
    {
        let line = state_info_line_exec(&rows[i]);
        push_chars(&mut out, &line);
        i += 1;
    }
    push_str(&mut out, "];");
    string_from_chars(&out)
}

/// A state reference: `State::NULL` for `0`.
pub open spec fn fmt_state(raw: Seq<char>) -> Seq<char> {
    if raw == "0"@ {
        "State::NULL"@
    } else {
        "State::"@ + raw
    }
}

/// A sound reference: `Sound::None` for `0`.
pub open spec fn fmt_sound(raw: Seq<char>) -> Seq<char> {
    if raw == "0"@ {
        "Sound::None"@
    } else {
        "Sound::"@ + raw
    }
}

/// One flag of an `MF_A|MF_B` expression as the bits of its constant.
pub open spec fn flag_token(tok: Seq<char>) -> Seq<char> {
    "MF::"@ + strip_all(trim_set(tok, CharSet::Whitespace), "MF_"@) + ".bits()"@
}

/// The flags expression: `MF::empty()` for `0` or nothing, else the union
/// of the bits of each `|`-separated flag.
pub open spec fn fmt_flags(raw: Seq<char>) -> Seq<char> {
    let t = trim_set(raw, CharSet::Whitespace);
    if t == "0"@ || t.len() == 0 {
        "MF::empty()"@
    } else {
        "MF::from_bits_truncate("@ + join(split_on(raw, '|').map_values(|tok: Seq<char>| flag_token(tok)), " | "@)
            + ")"@
    }
}

/// The `MobjInfo` initialiser line of a row.
pub open spec fn mobj_line(m: MobjRow) -> Seq<char> {
    "MobjInfo { id: "@ + "\""@ + m.id@ + "\""@ + ", doomednum: "@ + dec_int(m.doomednum as int) + ", spawnstate: "@
        + fmt_state(m.spawnstate@) + ", spawnhealth: "@ + dec_int(m.spawnhealth as int) + ", seestate: "@ + fmt_state(
        m.seestate@,
    ) + ", seesound: "@ + fmt_sound(m.seesound@) + ", reactiontime: "@ + dec_int(m.reactiontime as int)
        + ", attacksound: "@ + fmt_sound(m.attacksound@) + ", painstate: "@ + fmt_state(m.painstate@) + ", painchance: "@
        + dec_int(m.painchance as int) + ", painsound: "@ + fmt_sound(m.painsound@) + ", meleestate: "@ + fmt_state(
        m.meleestate@,
    ) + ", missilestate: "@ + fmt_state(m.missilestate@) + ", deathstate: "@ + fmt_state(m.deathstate@)
        + ", xdeathstate: "@ + fmt_state(m.xdeathstate@) + ", deathsound: "@ + fmt_sound(m.deathsound@) + ", speed: "@
        + dec_int(m.speed as int) + ", radius: "@ + dec_int(m.radius as int) + ", height: "@ + dec_int(m.height as int)
        + ", mass: "@ + dec_int(m.mass as int) + ", damage: "@ + dec_int(m.damage as int) + ", activesound: "@
        + fmt_sound(m.activesound@) + ", flags: "@ + fmt_flags(m.flags@) + ", raisestate: "@ + fmt_state(m.raisestate@)
        + " },\n"@
}

/// The initialiser lines of the first `n` rows.
pub open spec fn mobj_lines(rows: Seq<MobjRow>, n: int) -> Seq<char>
    decreases n,
{
    if n <= 0 {
        seq![]
    } else {
        mobj_lines(rows, n - 1) + mobj_line(rows[n - 1])
    }
}

/// Header of the generated `mobjinfo.rs`.
pub open spec fn mobjinfo_head() -> Seq<char> {
    "// AUTO-GENERATED - see tools/gen_mobjinfo\n\n\
use crate::defs::flags::MobjFlags as MF;\n\
use crate::defs::{state::State, sound::Sound};\n\n\
#[derive(Debug, Clone)]\n\
pub struct MobjInfo {\n\
    pub id: &'static str,\n\
    pub doomednum:    i32,\n\
    /* state chain */\n\
    pub spawnstate:   State,\n\
    pub spawnhealth:  i32,\n\
    pub seestate:     State,\n\
    pub seesound:     Sound,\n\
    pub reactiontime: i32,\n\
    pub attacksound:  Sound,\n\
    pub painstate:    State,\n\
    pub painchance:   i32,\n\
    pub painsound:    Sound,\n\
    pub meleestate:   State,\n\
    pub missilestate: State,\n\
    pub deathstate:   State,\n\
    pub xdeathstate:  State,\n\
    pub deathsound:   Sound,\n\
    /* physics & damage */\n\
    pub speed:        i32,\n\
    pub radius:       i32,\n\
    pub height:       i32,\n\
    pub mass:         i32,\n\
    pub damage:       i32,\n\
    /* ambience & behaviour */\n\
    pub activesound:  Sound,\n\
    pub flags:        MF,\n\
    pub raisestate:   State,\n\
}\n\n\
pub const MOBJINFO: &[MobjInfo] = &[\n"@
}

/// Append the state reference of `raw`.
fn push_state(out: &mut Vec<char>, raw: &str)
    ensures
        final(out)@ == old(out)@ + fmt_state(raw@),
{
    if str_eq(raw, "0") {
        push_str(out, "State::NULL");
    } else {
        let mut t = to_chars("State::");
        push_str(&mut t, raw);
        push_chars(out, &t);
    }
}

/// Append the sound reference of `raw`.
fn push_sound(out: &mut Vec<char>, raw: &str)
    ensures
        final(out)@ == old(out)@ + fmt_sound(raw@),
{
    if str_eq(raw, "0") {
        push_str(out, "Sound::None");
    } else {
        let mut t = to_chars("Sound::");
        push_str(&mut t, raw);
        push_chars(out, &t);
    }
}

/// The flags expression of `raw`.
fn flags_expr(raw: &str) -> (r: Vec<char>)
    ensures
        r@ == fmt_flags(raw@),
{
    let v = to_chars(raw);
    let t = trim(&v, CharSet::Whitespace);
    let ts = string_from_chars(&t);
    if str_eq(ts.as_str(), "0") || t.len() == 0 {
        return to_chars("MF::empty()");
    }
    let toks = split(&v, '|');
    let mf = to_chars("MF_");
    let mut parts: Vec<Vec<char>> = Vec::new();
    let mut k: usize = 0;
    while k < toks.len()
        invariant
            k <= toks@.len(),
            mf@ == "MF_"@,
            parts@.len() == k,
            views(parts@) == views(toks@).take(k as int).map_values(|tok: Seq<char>| flag_token(tok)),
        decreases toks@.len() - k,
    {
        let ghost prev = views(parts@);
        let ghost old_parts = parts@;
        let mut p = to_chars("MF::");
        let name = strip_prefixes(&trim(&toks[k], CharSet::Whitespace), &mf);
        push_chars(&mut p, &name);
        push_str(&mut p, ".bits()");
        parts.push(p);
        k += 1;
        proof {
            let want = views(toks@).take(k as int).map_values(|tok: Seq<char>| flag_token(tok));
            assert forall|q: int| 0 <= q < k implies #[trigger] views(parts@)[q] == want[q] by {
                if q < k - 1 {
                    assert(parts@[q] == old_parts[q]);
                    assert(views(parts@)[q] == prev[q]);
                }
            }
            assert(views(parts@) =~= want);
        }
    }
    assert(views(toks@).take(toks@.len() as int) =~= views(toks@));
    let sep = to_chars(" | ");
    let bits = join_with(&parts, &sep);
    let mut out = to_chars("MF::from_bits_truncate(");
    push_chars(&mut out, &bits);
    push_str(&mut out, ")");
    out
}

/// The `MobjInfo` initialiser line of `m`.
fn mobj_line_exec(m: &MobjRow) -> (line: Vec<char>)
    ensures
        line@ == mobj_line(*m),
{
    let mut line = to_chars("MobjInfo { id: ");
    push_str(&mut line, "\"");
    push_str(&mut line, m.id.as_str());
    push_str(&mut line, "\"");
    push_str(&mut line, ", doomednum: ");
    push_int(&mut line, m.doomednum);
    push_str(&mut line, ", spawnstate: ");
    push_state(&mut line, m.spawnstate.as_str());
    push_str(&mut line, ", spawnhealth: ");
    push_int(&mut line, m.spawnhealth);
    push_str(&mut line, ", seestate: ");
    push_state(&mut line, m.seestate.as_str());
    push_str(&mut line, ", seesound: ");
    push_sound(&mut line, m.seesound.as_str());
    push_str(&mut line, ", reactiontime: ");
    push_int(&mut line, m.reactiontime);
    push_str(&mut line, ", attacksound: ");
    push_sound(&mut line, m.attacksound.as_str());
    push_str(&mut line, ", painstate: ");
    push_state(&mut line, m.painstate.as_str());
    push_str(&mut line, ", painchance: ");
    push_int(&mut line, m.painchance);
    push_str(&mut line, ", painsound: ");
    push_sound(&mut line, m.painsound.as_str());
    push_str(&mut line, ", meleestate: ");
    push_state(&mut line, m.meleestate.as_str());
    push_str(&mut line, ", missilestate: ");
    push_state(&mut line, m.missilestate.as_str());
    push_str(&mut line, ", deathstate: ");
    push_state(&mut line, m.deathstate.as_str());
    push_str(&mut line, ", xdeathstate: ");
    push_state(&mut line, m.xdeathstate.as_str());
    push_str(&mut line, ", deathsound: ");
    push_sound(&mut line, m.deathsound.as_str());
    push_str(&mut line, ", speed: ");
    push_int(&mut line, m.speed);
    push_str(&mut line, ", radius: ");
    push_int(&mut line, m.radius);
    push_str(&mut line, ", height: ");
    push_int(&mut line, m.height);
    push_str(&mut line, ", mass: ");
    push_int(&mut line, m.mass);
    push_str(&mut line, ", damage: ");
    push_int(&mut line, m.damage);
    push_str(&mut line, ", activesound: ");
    push_sound(&mut line, m.activesound.as_str());
    push_str(&mut line, ", flags: ");
    let fl = flags_expr(m.flags.as_str());
    push_chars(&mut line, &fl);
    push_str(&mut line, ", raisestate: ");
    push_state(&mut line, m.raisestate.as_str());
    push_str(&mut line, " },\n");
    line
}

/// Source of the `MOBJINFO` table: one `MobjInfo` per row, with `0`
/// states and sounds as `State::NULL` and `Sound::None` and the flags as
/// the union of their bits.
pub fn render_mobjinfo(rows: &[MobjRow]) -> (out: String)
    ensures
        out@ == mobjinfo_head() + mobj_lines(rows@, rows@.len() as int) + "];\n"@,
{
    let mut out = to_chars(
        "// AUTO-GENERATED - see tools/gen_mobjinfo\n\n\
use crate::defs::flags::MobjFlags as MF;\n\
use crate::defs::{state::State, sound::Sound};\n\n\
#[derive(Debug, Clone)]\n\
pub struct MobjInfo {\n\
    pub id: &'static str,\n\
    pub doomednum:    i32,\n\
    /* state chain */\n\
    pub spawnstate:   State,\n\
    pub spawnhealth:  i32,\n\
    pub seestate:     State,\n\
    pub seesound:     Sound,\n\
    pub reactiontime: i32,\n\
    pub attacksound:  Sound,\n\
    pub painstate:    State,\n\
    pub painchance:   i32,\n\
    pub painsound:    Sound,\n\
    pub meleestate:   State,\n\
    pub missilestate: State,\n\
    pub deathstate:   State,\n\
    pub xdeathstate:  State,\n\
    pub deathsound:   Sound,\n\
    /* physics & damage */\n\
    pub speed:        i32,\n\
    pub radius:       i32,\n\
    pub height:       i32,\n\
    pub mass:         i32,\n\
    pub damage:       i32,\n\
    /* ambience & behaviour */\n\
    pub activesound:  Sound,\n\
    pub flags:        MF,\n\
    pub raisestate:   State,\n\
}\n\n\
pub const MOBJINFO: &[MobjInfo] = &[\n",
    );
    let ghost head = out@;
    let mut i: usize = 0;
    while i < rows.len()
        invariant
            i <= rows@.len(),
            head == mobjinfo_head(),
            out@ == head + mobj_lines(rows@, i as int),
        decreases rows@.len() - i,
    {
        let line = mobj_line_exec(&rows[i]);
        push_chars(&mut out, &line);
        i += 1;
    }
    push_str(&mut out, "];\n");
    string_from_chars(&out)
}

/*──────────────────────────── extraction ───────────────────────────*/

/// The pattern that finds the body of `CTYPE NAME[...] = { BODY };`.
pub open spec fn array_pattern(ctype: Seq<char>, name: Seq<char>) -> Seq<char> {
    "(?s)"@ + regex_escaped(ctype) + "\\s+"@ + regex_escaped(name) + "\\s*\\[[^\\]]*\\]\\s*=\\s*\\{(?P<body>.*?)\\};"@
}

/// The initialiser body of the C array `ctype name[...] = { ... };` in
/// `src`; `None` when there is none.
pub fn extract_array_body(ctype: &str, name: &str, src: &str) -> (r: Option<String>)
    ensures
        match regex_named_group(array_pattern(ctype@, name@), src@, "body"@) {
            Some(Some(b)) => r matches Some(s) && s@ == b,
            _ => r is None,
        },
{
    let mut pattern = to_chars("(?s)");
    let c = regex_escape(ctype);
    push_str(&mut pattern, c.as_str());
    push_str(&mut pattern, "\\s+");
    let n = regex_escape(name);
    push_str(&mut pattern, n.as_str());
    push_str(&mut pattern, "\\s*\\[[^\\]]*\\]\\s*=\\s*\\{(?P<body>.*?)\\};");
    let pat = string_from_chars(&pattern);
    match regex_capture_named(pat.as_str(), src, "body") {
        Some(Some(b)) => Some(b),
        _ => None,
    }
}

/// `"(?s)\{([^}]*)\}"`: one `{ ... }` initialiser, its inside captured.
pub open spec fn row_pattern() -> Seq<char> {
    "(?s)\\{([^}]*)\\}"@
}

/// The trimmed present captures that hold a whole mobj row, in order.
pub open spec fn mobj_chunks(caps: Seq<Option<Seq<char>>>) -> Seq<Seq<char>>
    decreases caps.len(),
{
    if caps.len() == 0 {
        seq![]
    } else {
        let rest = mobj_chunks(caps.drop_last());
        match caps.last() {
            Some(c) => if mobj_fields(trim_set(c, CharSet::Whitespace)).len() >= 23 {
                rest.push(trim_set(c, CharSet::Whitespace))
            } else {
                rest
            },
            None => rest,
        }
    }
}

/// Parse every `{ ... }` initialiser of the `mobjinfo[]` body that holds
/// a whole row.
pub fn extract_mobj_rows(body: &str) -> (r: Vec<MobjRow>)
    ensures
        match regex_group_matches(row_pattern(), body@, 1) {
            Some(caps) => r@.len() == mobj_chunks(caps).len() && forall|k: int|
                0 <= k < r@.len() ==> mobj_parsed(mobj_chunks(caps)[k], #[trigger] r@[k]),
            None => r@.len() == 0,
        },
{
    let caps = match regex_capture_all("(?s)\\{([^}]*)\\}", body, 1) {
        Some(c) => c,
        None => return Vec::new(),
    };
    let ghost cs = opt_texts(caps@);
    let mut rows: Vec<MobjRow> = Vec::new();
    let mut k: usize = 0;
    while k < caps.len()
        invariant
            k <= caps@.len(),
            cs == opt_texts(caps@),
            rows@.len() == mobj_chunks(cs.take(k as int)).len(),
            forall|q: int| 0 <= q < rows@.len() ==> mobj_parsed(mobj_chunks(cs.take(k as int))[q], #[trigger] rows@[q]),
        decreases caps@.len() - k,
    {
        let ghost before = mobj_chunks(cs.take(k as int));
        proof {
            let w = cs.take(k + 1);
            assert(w.drop_last() =~= cs.take(k as int));
        }
        match &caps[k] {
            Some(c) => {
                let t = string_from_chars(&trim(&to_chars(c.as_str()), CharSet::Whitespace));
                match parse_mobj_chunk(t.as_str()) {
                    Some(m) => {
                        rows.push(m);
                    },
                    None => {},
                }
            },
            None => {},
        }
        k += 1;
    }
    assert(cs.take(caps@.len() as int) =~= cs);
    rows
}

/// The state lines of `body` that hold a whole row, in order.
pub open spec fn state_lines(ls: Seq<Seq<char>>) -> Seq<Seq<char>>
    decreases ls.len(),
{
    if ls.len() == 0 {
        seq![]
    } else if state_line_ok(ls.last()) {
        state_lines(ls.drop_last()).push(ls.last())
    } else {
        state_lines(ls.drop_last())
    }
}

/// Parse every line of the `states[]` body that holds a whole row.
pub fn parse_state_rows(body: &str) -> (r: Vec<StateRow>)
    ensures
        r@.len() == state_lines(lines_of(body@)).len(),
        forall|k: int| 0 <= k < r@.len() ==> state_parsed(state_lines(lines_of(body@))[k], #[trigger] r@[k]),
{
    let v = to_chars(body);
    let ls = lines(&v);
    let ghost all = views(ls@);
    let mut rows: Vec<StateRow> = Vec::new();
    let mut k: usize = 0;
    while k < ls.len()
        invariant
            k <= ls@.len(),
            all == views(ls@),
            rows@.len() == state_lines(all.take(k as int)).len(),
            forall|q: int| 0 <= q < rows@.len() ==> state_parsed(state_lines(all.take(k as int))[q], #[trigger] rows@[q]),
        decreases ls@.len() - k,
    {
        proof {
            let w = all.take(k + 1);
            assert(w.drop_last() =~= all.take(k as int));
            assert(w.last() == ls@[k as int]@);
        }
        let line = string_from_chars(&ls[k]);
        match parse_state_line(line.as_str()) {
            Some(row) => {
                rows.push(row);
            },
            None => {},
        }
        k += 1;
    }
    assert(all.take(ls@.len() as int) =~= all);
    rows
}

/*──────────────────────────── name sets ────────────────────────────*/

/// Every name sorts strictly before the next: sorted, no name twice.
pub open spec fn strictly_sorted(v: Seq<Seq<char>>) -> bool {
    forall|i: int, j: int| 0 <= i < j < v.len() ==> text_lt(#[trigger] v[i], #[trigger] v[j])
}

/// Insert `s` into the sorted list `v` unless it is there.
fn insert_sorted(v: &mut Vec<String>, s: String)
    requires
        strictly_sorted(texts(old(v)@)),
    ensures
        strictly_sorted(texts(final(v)@)),
        forall|x: Seq<char>| texts(final(v)@).contains(x) <==> (texts(old(v)@).contains(x) || x == s@),
{
    let sc = to_chars(s.as_str());
    let n = v.len();
    let mut p: usize = 0;
    let mut order: i8 = -1;
    while p < n
        invariant
            n == v@.len(),
            p <= n,
            sc@ == s@,
            strictly_sorted(texts(v@)),
            forall|q: int| 0 <= q < p ==> text_lt(#[trigger] texts(v@)[q], s@),
        ensures
            n == v@.len(),
            p <= n,
            forall|q: int| 0 <= q < p ==> text_lt(#[trigger] texts(v@)[q], s@),
            p < n ==> (order == 0 && texts(v@)[p as int] == s@) || (order == 1 && text_lt(s@, texts(v@)[p as int])),
        decreases n - p,
    {
        let vc = to_chars(v[p].as_str());
        order = compare_text(&vc, &sc);
        if order != -1 {
            break;
        }
        p += 1;
    }
    let ghost t0 = texts(v@);
    if p < n && order == 0 {
        proof {
            assert forall|x: Seq<char>| t0.contains(x) <==> (t0.contains(x) || x == s@) by {
                if x == s@ {
                    assert(t0[p as int] == x);
                }
            }
        }
        return;
    }
    proof {
        if p < n {
            assert(text_lt(s@, t0[p as int]));
        }
    }
    v.insert(p, s);
    proof {
        let t1 = texts(v@);
        assert(t1 =~= t0.insert(p as int, sc@));
        assert forall|i: int, j: int| 0 <= i < j < t1.len() implies text_lt(#[trigger] t1[i], #[trigger] t1[j]) by {
            if j < p {
                assert(t1[i] == t0[i] && t1[j] == t0[j]);
            } else if j == p {
                assert(t1[i] == t0[i]);
            } else if i < p {
                assert(t1[i] == t0[i] && t1[j] == t0[j - 1]);
                lemma_text_lt_transitive(t0[i], s@, t0[p as int]);
                if j - 1 > p {
                    lemma_text_lt_transitive(t0[i], t0[p as int], t0[j - 1]);
                }
            } else if i == p {
                assert(t1[j] == t0[j - 1]);
                if j - 1 > p {
                    lemma_text_lt_transitive(s@, t0[p as int], t0[j - 1]);
                }
            } else {
                assert(t1[i] == t0[i - 1] && t1[j] == t0[j - 1]);
            }
        }
        assert forall|x: Seq<char>| t1.contains(x) <==> (t0.contains(x) || x == s@) by {
            if t1.contains(x) {
                let k = choose|k: int| 0 <= k < t1.len() && t1[k] == x;
                if k < p {
                    assert(t0[k] == x);
                } else if k > p {
                    assert(t0[k - 1] == x);
                }
            }
            if t0.contains(x) {
                let k = choose|k: int| 0 <= k < t0.len() && t0[k] == x;
                if k < p {
                    assert(t1[k] == x);
                } else {
                    assert(t1[k + 1] == x);
                }
            }
            if x == s@ {
                assert(t1[p as int] == x);
            }
        }
    }
}

/// The distinct action names of the rows other than `NULL`, sorted.
pub fn action_names(rows: &[StateRow]) -> (r: Vec<String>)
    ensures
        strictly_sorted(texts(r@)),
        forall|x: Seq<char>|
            texts(r@).contains(x) <==> (x != "NULL"@ && exists|i: int| 0 <= i < rows@.len() && (#[trigger] rows@[i]).action@ == x),
{
    let null = "NULL";
    let mut set: Vec<String> = Vec::new();
    let mut k: usize = 0;
    while k < rows.len()
        invariant
            k <= rows@.len(),
            null@ == "NULL"@,
            strictly_sorted(texts(set@)),
            forall|x: Seq<char>|
                texts(set@).contains(x) <==> (x != "NULL"@ && exists|i: int| 0 <= i < k && (#[trigger] rows@[i]).action@ == x),
        decreases rows@.len() - k,
    {
        let ghost before = texts(set@);
        if !str_eq(rows[k].action.as_str(), null) {
            insert_sorted(&mut set, rows[k].action.clone());
        }
        proof {
            assert forall|x: Seq<char>|
                texts(set@).contains(x) <==> (x != "NULL"@ && exists|i: int| 0 <= i < k + 1 && (#[trigger] rows@[i]).action@ == x) by {
                if x != "NULL"@ && exists|i: int| 0 <= i < k + 1 && (#[trigger] rows@[i]).action@ == x {
                    let i = choose|i: int| 0 <= i < k + 1 && (#[trigger] rows@[i]).action@ == x;
                    if i < k {
                        assert(before.contains(x));
                    }
                }
                if before.contains(x) {
                    let i = choose|i: int| 0 <= i < k && (#[trigger] rows@[i]).action@ == x;
                    assert(0 <= i < k + 1);
                }
            }
        }
        k += 1;
    }
    set
}

/// The sounds row `m` names.
pub open spec fn row_sounds(m: MobjRow) -> Set<Seq<char>> {
    set![m.activesound@, m.attacksound@, m.deathsound@, m.painsound@, m.seesound@]
}

/// The distinct sound names of the rows (active, attack, death, pain,
/// see), sorted.
pub fn sound_names(rows: &[MobjRow]) -> (r: Vec<String>)
    ensures
        strictly_sorted(texts(r@)),
        forall|x: Seq<char>|
            texts(r@).contains(x) <==> exists|i: int| 0 <= i < rows@.len() && row_sounds(#[trigger] rows@[i]).contains(x),
{
    let mut set: Vec<String> = Vec::new();
    let mut k: usize = 0;
    while k < rows.len()
        invariant
            k <= rows@.len(),
            strictly_sorted(texts(set@)),
            forall|x: Seq<char>|
                texts(set@).contains(x) <==> exists|i: int| 0 <= i < k && row_sounds(#[trigger] rows@[i]).contains(x),
        decreases rows@.len() - k,
    {
        let ghost before = texts(set@);
        let m = &rows[k];
        insert_sorted(&mut set, m.activesound.clone());
        insert_sorted(&mut set, m.attacksound.clone());
        insert_sorted(&mut set, m.deathsound.clone());
        insert_sorted(&mut set, m.painsound.clone());
        insert_sorted(&mut set, m.seesound.clone());
        proof {
            assert forall|x: Seq<char>|
                texts(set@).contains(x) <==> exists|i: int| 0 <= i < k + 1 && row_sounds(#[trigger] rows@[i]).contains(x) by {
                if exists|i: int| 0 <= i < k + 1 && row_sounds(#[trigger] rows@[i]).contains(x) {
                    let i = choose|i: int| 0 <= i < k + 1 && row_sounds(#[trigger] rows@[i]).contains(x);
                    if i < k {
                        assert(before.contains(x));
                    }
                }
                if before.contains(x) {
                    let i = choose|i: int| 0 <= i < k && row_sounds(#[trigger] rows@[i]).contains(x);
                    assert(0 <= i < k + 1);
                }
            }
        }
        k += 1;
    }
    set
}

} // verus!
