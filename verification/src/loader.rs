//! Turns the lumps of a WAD into what the renderer needs: the palette, the
//! light tables, decoded patches, composed wall textures, flats, and a map
//! whose texture names are resolved to ids of a `TextureBank`.

use vstd::prelude::*;
use crate::wad::{RawRecord, Wad, WadError, lump_data, lump_name_view};
use crate::le::{u32_le, read_u32_at, read_bytes8_at};
use crate::patch::{decode_patch, decodes_patch, patch_ok, compose_texture, composes, entry_fits, patches_ok};
use crate::text::{eq_ignore_ascii_case, eq_ignore_case, ascii_upper, str_to_ascii_uppercase};
use crate::texture::{Colormap, Palette, Texture, TextureBank, TextureError, TextureId, NO_TEXTURE, is_checker};
use crate::level::{LevelError, RawLevel, RawSidedef, RawSector};

verus! {

/*──────────────────────────── Error type ───────────────────────────*/

/// Why a map could not be loaded.
#[derive(Debug)]
pub enum LoadError {
    Wad(WadError),
    Level(LevelError),
    Texture(TextureError),
    /// PLAYPAL lump missing - cannot build palette.
    NoPalette,
    /// COLORMAP lump missing - cannot build palette.
    NoColormap,
}

/*──────────────────────────── lump names ───────────────────────────*/

/// `PLAYPAL`, the palette lump.
pub open spec fn playpal_name() -> Seq<char> {
    seq!['P', 'L', 'A', 'Y', 'P', 'A', 'L']
}

/// `COLORMAP`, the light-table lump.
pub open spec fn colormap_name() -> Seq<char> {
    seq!['C', 'O', 'L', 'O', 'R', 'M', 'A', 'P']
}

/// `PNAMES`, the list of patch names.
pub open spec fn pnames_name() -> Seq<char> {
    seq!['P', 'N', 'A', 'M', 'E', 'S']
}

/// `TEXTURE1`, the first wall-texture table.
pub open spec fn texture1_name() -> Seq<char> {
    seq!['T', 'E', 'X', 'T', 'U', 'R', 'E', '1']
}

/// `TEXTURE2`, the second wall-texture table.
pub open spec fn texture2_name() -> Seq<char> {
    seq!['T', 'E', 'X', 'T', 'U', 'R', 'E', '2']
}

/// When `find_lump` finds lump `idx`, `lump_named` is that lump's data.
proof fn lemma_found(wad: &Wad, name: Seq<char>, idx: int)
    requires
        wad.last_named(name, idx),
    ensures
        wad.lump_named(name) == Some(lump_data(wad.bytes@, wad.lumps@[idx])),
{
    let c = choose|i: int| wad.last_named(name, i);
    wad.lemma_last_named_unique(name, c, idx);
}

/// When `find_lump` finds nothing, `lump_named` is `None`.
proof fn lemma_not_found(wad: &Wad, name: Seq<char>)
    requires
        wad.has_no_lump(name),
    ensures
        wad.lump_named(name) is None,
{
    if exists|i: int| wad.last_named(name, i) {
        let c = choose|i: int| wad.last_named(name, i);
        assert(lump_name_view(wad.lumps@[c].name@) == name);
    }
}

/// The bytes of the last lump named `name`, found with `find_lump`.
fn named_bytes<'a>(wad: &'a Wad, name: &str) -> (r: Option<&'a [u8]>)
    requires
        wad.well_formed(),
    ensures
        match r {
            Some(s) => wad.lump_named(name@) == Some(s@),
            None => wad.lump_named(name@) is None,
        },
{
    match wad.find_lump(name) {
        Some(idx) => {
            proof {
                lemma_found(wad, name@, idx as int);
            }
            match wad.lump_bytes(idx) {
                Ok(b) => Some(b),
                Err(_) => None,
            }
        },
        None => {
            proof {
                lemma_not_found(wad, name@);
            }
            None
        },
    }
}

/*──────────────────────────── palette ──────────────────────────────*/

/// Colour `i` of a PLAYPAL lump: bytes `3i`, `3i+1`, `3i+2` as `0x00RRGGBB`.
pub open spec fn rgb_at(data: Seq<u8>, i: int) -> u32 {
    (data[3 * i] as int * 65536 + data[3 * i + 1] as int * 256 + data[3 * i + 2] as int) as u32
}

/// A palette colour `0x00RRGGBB` keeps the three bytes of its palette
/// entry in order: red (the entry's first byte) in bits 16..24, green in
/// bits 8..16, blue in bits 0..8, and nothing above.
pub proof fn law_palette_channels(d: Seq<u8>, i: int)
    requires
        0 <= i,
        3 * i + 2 < d.len(),
    ensures
        rgb_at(d, i) >> 24u32 == 0,
        (rgb_at(d, i) >> 16u32) as int == d[3 * i] as int,
        ((rgb_at(d, i) >> 8u32) & 0xFFu32) as int == d[3 * i + 1] as int,
        (rgb_at(d, i) & 0xFFu32) as int == d[3 * i + 2] as int,
{
    let r = d[3 * i];
    let g = d[3 * i + 1];
    let b = d[3 * i + 2];
    let v = rgb_at(d, i);
    let w: u32 = ((r as int) * 65536 + (g as int) * 256 + (b as int)) as u32;
    assert(v == w);
    assert(w as int == (r as int) * 65536 + (g as int) * 256 + (b as int));
    assert(w == (r as u32) * 65536 + (g as u32) * 256 + (b as u32));
    assert(w >> 24u32 == 0 && w >> 16u32 == r as u32 && (w >> 8u32) & 0xFFu32 == g as u32 && w & 0xFFu32 == b as u32)
        by (bit_vector)
        requires
            w == (r as u32) * 65536 + (g as u32) * 256 + (b as u32),
    ;
}

/// The palette lump, when present, holds the 256 colours of a palette.
pub open spec fn palette_lump_ok(wad: &Wad) -> bool {
    match wad.lump_named(playpal_name()) {
        Some(d) => d.len() >= 768,
        None => true,
    }
}

/// Palette from the first 768 bytes of `PLAYPAL`; `None` when there is no
/// such lump.
pub fn load_palette(wad: &Wad) -> (r: Option<Palette>)
    requires
        wad.well_formed(),
        palette_lump_ok(wad),
    ensures
        match wad.lump_named(playpal_name()) {
            None => r is None,
            Some(d) => r matches Some(p) && forall|i: int| 0 <= i < 256 ==> #[trigger] p.0@[i] == rgb_at(d, i),
        },
{
    let name = "PLAYPAL";
    proof {
        reveal_strlit("PLAYPAL");
        assert(name@ =~= playpal_name());
    }
    let bytes = match named_bytes(wad, name) {
        Some(b) => b,
        None => return None,
    };
    let mut pal = Palette::default();
    let mut i: usize = 0;
    while i < 256
        invariant
            bytes@.len() >= 768,
            i <= 256,
            forall|k: int| 0 <= k < i ==> #[trigger] pal.0@[k] == rgb_at(bytes@, k),
        decreases 256 - i,
    {
        let r = bytes[i * 3];
        let g = bytes[i * 3 + 1];
        let b = bytes[i * 3 + 2];
        let c: u32 = (r as u32) << 16 | (g as u32) << 8 | b as u32;
        assert(c == r as u32 * 65536 + g as u32 * 256 + b as u32) by (bit_vector)
            requires
                c == (r as u32) << 16 | (g as u32) << 8 | b as u32,
        ;
        pal.0[i] = c;
        i += 1;
    }
    Some(pal)
}

/// Light tables from `COLORMAP`: table `t` is bytes `256t .. 256t + 256`.
/// `None` when the lump is missing or shorter than 34 tables.
pub fn load_colormap(wad: &Wad) -> (r: Option<Colormap>)
    requires
        wad.well_formed(),
    ensures
        match wad.lump_named(colormap_name()) {
            Some(d) if d.len() >= 34 * 256 => r matches Some(cm) && forall|t: int, i: int|
                0 <= t < 34 && 0 <= i < 256 ==> #[trigger] cm.0@[t]@[i] == d[256 * t + i],
            _ => r is None,
        },
{
    let name = "COLORMAP";
    proof {
        reveal_strlit("COLORMAP");
        assert(name@ =~= colormap_name());
    }
    let bytes = match named_bytes(wad, name) {
        Some(b) => b,
        None => return None,
    };
    if bytes.len() < 34 * 256 {
        return None;
    }
    let mut cm = Colormap::default();
    let mut table: usize = 0;
    while table < 34
        invariant
            bytes@.len() >= 34 * 256,
            table <= 34,
            forall|t: int, i: int| 0 <= t < table && 0 <= i < 256 ==> #[trigger] cm.0@[t]@[i] == bytes@[256 * t + i],
        decreases 34 - table,
    {
        let start = table * 256;
        let mut row = [0u8; 256];
        let mut i: usize = 0;
        while i < 256
            invariant
                bytes@.len() >= 34 * 256,
                table < 34,
                start == table * 256,
                i <= 256,
                forall|k: int| 0 <= k < i ==> #[trigger] row@[k] == bytes@[256 * table + k],
            decreases 256 - i,
        {
            row[i] = bytes[start + i];
            i += 1;
        }
        cm.0[table] = row;
        table += 1;
    }
    Some(cm)
}

/*──────────────────────────── flats ────────────────────────────────*/

/// A flat is a 64×64 lump of palette indices: `None` when there is no lump
/// named `name` or it is not exactly 4096 bytes long.
pub fn decode_flat(wad: &Wad, name: &str) -> (r: Option<Texture>)
    requires
        wad.well_formed(),
    ensures
        match wad.lump_named(name@) {
            Some(d) if d.len() == 4096 => r matches Some(t) && t.name@ == name@ && t.w == 64 && t.h == 64
                && t.pixels@ == d,
            _ => r is None,
        },
{
    let bytes = match named_bytes(wad, name) {
        Some(b) => b,
        None => return None,
    };
    if bytes.len() != 4096 {
        return None;
    }
    let mut pixels: Vec<u8> = Vec::new();
    let mut i: usize = 0;
    while i < bytes.len()
        invariant
            i <= bytes@.len(),
            pixels@ == bytes@.take(i as int),
        decreases bytes@.len() - i,
    {
        pixels.push(bytes[i]);
        i += 1;
        assert(pixels@ =~= bytes@.take(i as int));
    }
    assert(pixels@ =~= bytes@);
    Some(Texture { name: name.to_owned(), w: 64, h: 64, pixels })
}

/*──────────────────────────── patches ──────────────────────────────*/

/// Number of names in a PNAMES lump.
pub open spec fn pnames_count(d: Seq<u8>) -> int {
    u32_le(d, 0)
}

/// Name `k` of a PNAMES lump.
pub open spec fn pname(d: Seq<u8>, k: int) -> Seq<char> {
    lump_name_view(d.subrange(4 + 8 * k, 12 + 8 * k))
}

/// PNAMES exists, its names can be read, and every patch lump it names that
/// exists is a well-formed picture.
pub open spec fn pnames_ok(wad: &Wad) -> bool {
    match wad.lump_named(pnames_name()) {
        Some(d) => {
            &&& d.len() >= 4
            &&& 4 + 8 * pnames_count(d) <= d.len()
            &&& forall|k: int|
                0 <= k < pnames_count(d) ==> match wad.lump_named(#[trigger] pname(d, k)) {
                    Some(pd) => patch_ok(pd),
                    None => true,
                }
        },
        None => false,
    }
}

/// `v` is the patch list of the WAD: for each PNAMES name, the decoded
/// patch of that name, or the checkerboard when no lump carries it.
pub open spec fn patch_list(wad: &Wad, v: Seq<Texture>) -> bool {
    match wad.lump_named(pnames_name()) {
        Some(d) => {
            &&& v.len() == pnames_count(d)
            &&& forall|k: int|
                0 <= k < v.len() ==> match wad.lump_named(pname(d, k)) {
                    Some(pd) => decodes_patch(#[trigger] v[k], pd, pname(d, k)),
                    None => is_checker(v[k]),
                }
        },
        None => false,
    }
}

/// Decode every patch PNAMES lists, in order, so that a TEXTUREx placement
/// can refer to it by index.  A name no lump carries gets the checkerboard,
/// which keeps the indices aligned.
pub fn decode_all_patches(wad: &Wad) -> (r: Result<Vec<Texture>, WadError>)
    requires
        wad.well_formed(),
        pnames_ok(wad),
    ensures
        r matches Ok(v) && patch_list(wad, v@) && patches_ok(v@),
{
    let pn = "PNAMES";
    proof {
        reveal_strlit("PNAMES");
        assert(pn@ =~= pnames_name());
    }
    let found = wad.find_lump(pn);
    proof {
        if found is None {
            lemma_not_found(wad, pn@);
        }
    }
    let idx = found.unwrap();
    proof {
        lemma_found(wad, pn@, idx as int);
    }
    let bytes = match wad.lump_bytes(idx) {
        Ok(b) => b,
        Err(e) => return Err(e),
    };
    let ghost d = bytes@;
    let num = read_u32_at(bytes, 0) as usize;
    let mut vec: Vec<Texture> = Vec::new();
    let mut i: usize = 0;
    while i < num
        invariant
            wad.well_formed(),
            pnames_ok(wad),
            wad.lump_named(pnames_name()) == Some(d),
            bytes@ == d,
            num as int == pnames_count(d),
            i <= num,
            vec@.len() == i,
            forall|k: int|
                0 <= k < i ==> match wad.lump_named(pname(d, k)) {
                    Some(pd) => decodes_patch(#[trigger] vec@[k], pd, pname(d, k)),
                    None => is_checker(vec@[k]),
                },
            forall|k: int| 0 <= k < i ==> crate::patch::texture_ok(#[trigger] vec@[k]),
        decreases num - i,
    {
        let name_bytes = read_bytes8_at(bytes, 4 + i * 8);
        let name = Wad::lump_name_str(&name_bytes);
        assert(name@ == pname(d, i as int));
        assert(match wad.lump_named(pname(d, i as int)) {
            Some(pd) => patch_ok(pd),
            None => true,
        });
        match wad.find_lump(name) {
            Some(id) => {
                proof {
                    lemma_found(wad, name@, id as int);
                }
                let raw = match wad.lump_bytes(id) {
                    Ok(b) => b,
                    Err(e) => return Err(e),
                };
                let t = decode_patch(raw, name);
                vec.push(t);
            },
            None => {
                proof {
                    lemma_not_found(wad, name@);
                }
                vec.push(Texture::default());
            },
        }
        i += 1;
    }
    Ok(vec)
}

/*──────────────────────────── wall textures ────────────────────────*/

/// Number of entries of a TEXTUREx lump.
pub open spec fn table_count(d: Seq<u8>) -> int {
    u32_le(d, 0)
}

/// Byte offset of entry `t` of a TEXTUREx lump.
pub open spec fn table_offset(d: Seq<u8>, t: int) -> int {
    u32_le(d, 4 + 4 * t)
}

/// Entry `t` of a TEXTUREx lump: the bytes from its offset to the end.
pub open spec fn table_entry(d: Seq<u8>, t: int) -> Seq<u8> {
    d.subrange(table_offset(d, t), d.len() as int)
}

/// Name of entry `t` of a TEXTUREx lump.
pub open spec fn table_entry_name(d: Seq<u8>, t: int) -> Seq<char> {
    lump_name_view(table_entry(d, t).take(8))
}

/// Entry `t` is named `name`, ignoring ASCII case.
pub open spec fn entry_matches(d: Seq<u8>, t: int, name: Seq<char>) -> bool {
    eq_ignore_case(table_entry_name(d, t), name)
}

/// Entry `t` is the first entry named `name`.
pub open spec fn first_match(d: Seq<u8>, t: int, name: Seq<char>) -> bool {
    &&& 0 <= t < table_count(d)
    &&& entry_matches(d, t, name)
    &&& forall|j: int| 0 <= j < t ==> !#[trigger] entry_matches(d, j, name)
}

/// A search of the table `d` for `name` can read what it needs: the
/// header, the offsets, the name of every entry up to the first match, and
/// the match itself, which composes from `npatches` patches.
pub open spec fn table_ok(d: Seq<u8>, name: Seq<char>, npatches: int) -> bool {
    &&& d.len() >= 4
    &&& 4 + 4 * table_count(d) <= d.len()
    &&& forall|t: int|
        #![trigger table_offset(d, t)]
        0 <= t < table_count(d) && (forall|j: int| 0 <= j < t ==> !#[trigger] entry_matches(d, j, name))
            ==> table_offset(d, t) + 8 <= d.len() && (entry_matches(d, t, name) ==> entry_fits(
            table_entry(d, t),
            npatches,
        ))
}

/// The entry of `d` first named `name`, with its own name, if any.
pub open spec fn table_lookup(d: Seq<u8>, name: Seq<char>) -> Option<(Seq<u8>, Seq<char>)> {
    if exists|t: int| first_match(d, t, name) {
        let t = choose|t: int| first_match(d, t, name);
        Some((table_entry(d, t), table_entry_name(d, t)))
    } else {
        None
    }
}

/// Look `name` up in an optional table.
pub open spec fn opt_table_lookup(d: Option<Seq<u8>>, name: Seq<char>) -> Option<(Seq<u8>, Seq<char>)> {
    match d {
        Some(d) => table_lookup(d, name),
        None => None,
    }
}

/// The TEXTUREx entry that defines wall texture `name`: the first match in
/// TEXTURE1, else the first in TEXTURE2.
pub open spec fn wall_entry(wad: &Wad, name: Seq<char>) -> Option<(Seq<u8>, Seq<char>)> {
    let a = opt_table_lookup(wad.lump_named(texture1_name()), name);
    if a is Some {
        a
    } else {
        opt_table_lookup(wad.lump_named(texture2_name()), name)
    }
}

/// The tables a search for `name` reads can be read (TEXTURE2 only matters
/// when TEXTURE1 has no match).
pub open spec fn wall_tables_ok(wad: &Wad, name: Seq<char>, npatches: int) -> bool {
    &&& (wad.lump_named(texture1_name()) matches Some(d) ==> table_ok(d, name, npatches))
    &&& (opt_table_lookup(wad.lump_named(texture1_name()), name) is None ==> (wad.lump_named(texture2_name()) matches Some(
        d,
    ) ==> table_ok(d, name, npatches)))
}

/// Two first matches are the same entry.
proof fn lemma_first_match_unique(d: Seq<u8>, name: Seq<char>, a: int, b: int)
    requires
        first_match(d, a, name),
        first_match(d, b, name),
    ensures
        a == b,
{
    if a < b {
        assert(!entry_matches(d, a, name));
    } else if b < a {
        assert(!entry_matches(d, b, name));
    }
}

/// Search one TEXTUREx table for `name` and compose the first matching entry.
fn search_table(bytes: &[u8], patches: &[Texture], name: &str) -> (r: Option<Texture>)
    requires
        table_ok(bytes@, name@, patches@.len() as int),
        patches_ok(patches@),
    ensures
        match table_lookup(bytes@, name@) {
            Some((e, en)) => r matches Some(t) && composes(t, e, patches@, en),
            None => r is None,
        },
{
    let blen = bytes.len();
    let ntex = read_u32_at(bytes, 0) as usize;
    let mut t: usize = 0;
    while t < ntex
        invariant
            table_ok(bytes@, name@, patches@.len() as int),
            patches_ok(patches@),
            blen == bytes@.len(),
            ntex as int == table_count(bytes@),
            t <= ntex,
            forall|j: int| 0 <= j < t ==> !#[trigger] entry_matches(bytes@, j, name@),
        decreases ntex - t,
    {
        let off = read_u32_at(bytes, 4 + t * 4) as usize;
        assert(off as int == table_offset(bytes@, t as int));
        assert(off + 8 <= blen);
        let entry = &bytes[off..blen];
        assert(entry@ == table_entry(bytes@, t as int));
        let e_name_bytes = read_bytes8_at(entry, 0);
        let e_name = Wad::lump_name_str(&e_name_bytes);
        assert(entry@.subrange(0, 8) =~= table_entry(bytes@, t as int).take(8));
        if eq_ignore_ascii_case(e_name, name) {
            proof {
                assert(first_match(bytes@, t as int, name@));
                let c = choose|c: int| first_match(bytes@, c, name@);
                lemma_first_match_unique(bytes@, name@, c, t as int);
            }
            return Some(compose_texture(entry, patches, e_name));
        }
        t += 1;
    }
    proof {
        if exists|c: int| first_match(bytes@, c, name@) {
            let c = choose|c: int| first_match(bytes@, c, name@);
            assert(!entry_matches(bytes@, c, name@));
        }
    }
    None
}

/// Search the table lump named `table` (if the WAD has it) for `name`.
fn search_named_table(wad: &Wad, patches: &[Texture], table: &str, name: &str) -> (r: Option<Texture>)
    requires
        wad.well_formed(),
        patches_ok(patches@),
        wad.lump_named(table@) matches Some(d) ==> table_ok(d, name@, patches@.len() as int),
    ensures
        match opt_table_lookup(wad.lump_named(table@), name@) {
            Some((e, en)) => r matches Some(t) && composes(t, e, patches@, en),
            None => r is None,
        },
{
    match wad.find_lump(table) {
        Some(idx) => {
            proof {
                lemma_found(wad, table@, idx as int);
            }
            let bytes = match wad.lump_bytes(idx) {
                Ok(b) => b,
                Err(_) => return None,
            };
            search_table(bytes, patches, name)
        },
        None => {
            proof {
                lemma_not_found(wad, table@);
            }
            None
        },
    }
}

/// Compose wall texture `name` from the first TEXTUREx entry so named
/// (TEXTURE1 before TEXTURE2, ASCII case ignored); `None` when neither
/// table defines it.
pub fn build_wall_texture(wad: &Wad, patches: &[Texture], name: &str) -> (r: Option<Texture>)
    requires
        wad.well_formed(),
        patches_ok(patches@),
        wall_tables_ok(wad, name@, patches@.len() as int),
    ensures
        match wall_entry(wad, name@) {
            Some((e, en)) => r matches Some(t) && composes(t, e, patches@, en),
            None => r is None,
        },
{
    let t1 = "TEXTURE1";
    proof {
        reveal_strlit("TEXTURE1");
        assert(t1@ =~= texture1_name());
    }
    match search_named_table(wad, patches, t1, name) {
        Some(t) => return Some(t),
        None => {},
    }
    let t2 = "TEXTURE2";
    proof {
        reveal_strlit("TEXTURE2");
        assert(t2@ =~= texture2_name());
    }
    search_named_table(wad, patches, t2, name)
}

/*──────────────────────────── map loading ──────────────────────────*/

/// The name under which a raw 8-byte texture name is looked up in the bank
/// and the WAD: its text, upper-cased.
pub open spec fn lookup_name(raw: Seq<u8>) -> Seq<char> {
    lump_name_view(raw).map_values(|c: char| ascii_upper(c))
}

/// The bytes of flat `n`: the lump so named, when it is exactly 4096 bytes.
pub open spec fn flat_data(wad: &Wad, n: Seq<char>) -> Option<Seq<u8>> {
    match wad.lump_named(n) {
        Some(d) if d.len() == 4096 => Some(d),
        _ => None,
    }
}

/// The WAD provides a texture named `n`: a wall texture or a flat.
pub open spec fn provides(wad: &Wad, n: Seq<char>) -> bool {
    wall_entry(wad, n) is Some || flat_data(wad, n) is Some
}

/// `t` is the texture the WAD provides for `n`: the wall texture composed
/// from its patch list when a TEXTUREx entry defines `n`, else the flat.
pub open spec fn provided(wad: &Wad, n: Seq<char>, t: Texture) -> bool {
    match wall_entry(wad, n) {
        Some((e, en)) => exists|v: Seq<Texture>| patch_list(wad, v) && #[trigger] composes(t, e, v, en),
        None => match flat_data(wad, n) {
            Some(d) => t.name@ == n && t.w == 64 && t.h == 64 && t.pixels@ == d,
            None => false,
        },
    }
}

/// Bank names after resolving `n`: a name the bank lacks and the WAD
/// provides is appended; otherwise nothing changes.
pub open spec fn names_after(wad: &Wad, names: Seq<Seq<char>>, n: Seq<char>) -> Seq<Seq<char>> {
    if names.contains(n) || !provides(wad, n) {
        names
    } else {
        names.push(n)
    }
}

/// Bank names after resolving the upper, lower and middle textures of `s`.
pub open spec fn names_after_side(wad: &Wad, names: Seq<Seq<char>>, s: RawSidedef) -> Seq<Seq<char>> {
    names_after(
        wad,
        names_after(wad, names_after(wad, names, lookup_name(s.top_tex@)), lookup_name(s.bottom_tex@)),
        lookup_name(s.mid_tex@),
    )
}

/// Bank names after resolving the textures of the first `k` sidedefs.
pub open spec fn names_after_sides(wad: &Wad, names: Seq<Seq<char>>, sides: Seq<RawSidedef>, k: int) -> Seq<Seq<char>>
    decreases k,
{
    if k <= 0 {
        names
    } else {
        names_after_side(wad, names_after_sides(wad, names, sides, k - 1), sides[k - 1])
    }
}

/// Bank names after resolving the floor and ceiling textures of `c`.
pub open spec fn names_after_sector(wad: &Wad, names: Seq<Seq<char>>, c: RawSector) -> Seq<Seq<char>> {
    names_after(wad, names_after(wad, names, lookup_name(c.floor_tex@)), lookup_name(c.ceil_tex@))
}

/// Bank names after resolving the textures of the first `k` sectors.
pub open spec fn names_after_sectors(wad: &Wad, names: Seq<Seq<char>>, secs: Seq<RawSector>, k: int) -> Seq<Seq<char>>
    decreases k,
{
    if k <= 0 {
        names
    } else {
        names_after_sector(wad, names_after_sectors(wad, names, secs, k - 1), secs[k - 1])
    }
}

/// `id` is what `n` resolves to in a bank holding `names`: the position of
/// `n` (as a `TextureId`), or the fallback id 0 when it is absent.
pub open spec fn resolves_to(names: Seq<Seq<char>>, n: Seq<char>, id: TextureId) -> bool {
    if names.contains(n) {
        exists|p: int| 0 <= p < names.len() && names[p] == n && id == p as u16
    } else {
        id == NO_TEXTURE
    }
}

/// The bank `b` grew from `a` by textures the WAD provides: earlier
/// textures are kept, each new one is what the WAD provides for its name,
/// and nothing but the names and textures changed.
pub open spec fn bank_grew(wad: &Wad, a: TextureBank, b: TextureBank) -> bool {
    &&& b.wf()
    &&& b.names().len() >= a.names().len()
    &&& b.textures().len() == b.names().len()
    &&& forall|i: int| 0 <= i < a.textures().len() ==> #[trigger] b.textures()[i] == a.textures()[i]
    &&& forall|i: int| a.textures().len() <= i < b.textures().len() ==> provided(wad, b.names()[i], #[trigger] b.textures()[i])
    &&& b.palette() == a.palette()
    &&& b.colormap() == a.colormap()
    &&& b.shades() == a.shades()
    &&& b.sprites() == a.sprites()
}

/// Number of patches PNAMES lists.
pub open spec fn patch_count(wad: &Wad) -> int {
    match wad.lump_named(pnames_name()) {
        Some(d) => pnames_count(d),
        None => 0,
    }
}

/// The lookup name of the 8-byte texture name at byte `at` of record `k`
/// (of `rs` bytes) in lump `idx`.
pub open spec fn ref_name(wad: &Wad, idx: int, rs: int, k: int, at: int) -> Seq<char> {
    lookup_name(lump_data(wad.bytes@, wad.lumps@[idx]).subrange(rs * k + at, rs * k + at + 8))
}

/// Every texture name the map at `marker` references that `names` lacks
/// can be searched for in the TEXTUREx tables.
pub open spec fn level_refs_ok(wad: &Wad, marker: int, names: Seq<Seq<char>>) -> bool {
    &&& forall|k: int, at: int|
        0 <= k < lump_data(wad.bytes@, wad.lumps@[marker + 3]).len() / 30 && (at == 4 || at == 12 || at == 20)
            && !names.contains(#[trigger] ref_name(wad, marker + 3, 30, k, at)) ==> wall_tables_ok(
            wad,
            ref_name(wad, marker + 3, 30, k, at),
            patch_count(wad),
        )
    &&& forall|k: int, at: int|
        0 <= k < lump_data(wad.bytes@, wad.lumps@[marker + 8]).len() / 26 && (at == 4 || at == 12)
            && !names.contains(#[trigger] ref_name(wad, marker + 8, 26, k, at)) ==> wall_tables_ok(
            wad,
            ref_name(wad, marker + 8, 26, k, at),
            patch_count(wad),
        )
}

/// The map at `marker` decodes.
pub open spec fn level_parses(wad: &Wad, marker: int) -> bool {
    &&& marker < wad.lumps@.len()
    &&& wad.level_names_ok(marker)
    &&& wad.level_lumps_ok(marker)
}

/// The COLORMAP lump is there and holds 34 tables.
pub open spec fn colormap_present(wad: &Wad) -> bool {
    wad.lump_named(colormap_name()) matches Some(d) && d.len() >= 34 * 256
}

/// What loading the map at `marker` into a bank holding `names` reads can
/// be read, as far as loading gets.
pub open spec fn load_inputs_ok(wad: &Wad, marker: int, names: Seq<Seq<char>>) -> bool {
    level_parses(wad, marker) ==> {
        &&& palette_lump_ok(wad)
        &&& (wad.lump_named(playpal_name()) is Some && colormap_present(wad)) ==> pnames_ok(wad)
            && level_refs_ok(wad, marker, names)
    }
}

/// Texture ids of a sidedef.
#[derive(Clone, Copy, Debug, PartialEq, Eq)]
pub struct SideTextures {
    pub upper: TextureId,
    pub lower: TextureId,
    pub middle: TextureId,
}

/// Texture ids of a sector.
#[derive(Clone, Copy, Debug, PartialEq, Eq)]
pub struct SectorTextures {
    pub floor: TextureId,
    pub ceil: TextureId,
}

/// A decoded map with every texture name resolved to a bank id: entry `i`
/// of `sides` belongs to sidedef `i`, entry `i` of `sectors` to sector `i`.
#[derive(Debug)]
pub struct LoadedLevel {
    pub raw: RawLevel,
    pub sides: Vec<SideTextures>,
    pub sectors: Vec<SectorTextures>,
}

/// Resolve one raw texture name to a bank id: a name the bank knows keeps
/// its id; else the wall texture, then the flat, of that name is added;
/// else the fallback id 0.
fn resolve_texture(wad: &Wad, patches: &[Texture], bank: &mut TextureBank, raw_name: &[u8; 8]) -> (r: Result<TextureId, LoadError>)
    requires
        old(bank).wf(),
        wad.well_formed(),
        patch_list(wad, patches@),
        patches_ok(patches@),
        !old(bank).names().contains(lookup_name(raw_name@)) ==> wall_tables_ok(
            wad,
            lookup_name(raw_name@),
            patches@.len() as int,
        ),
    ensures
        r matches Ok(id) && resolves_to(final(bank).names(), lookup_name(raw_name@), id),
        final(bank).names() == names_after(wad, old(bank).names(), lookup_name(raw_name@)),
        bank_grew(wad, *old(bank), *final(bank)),
{
    let name = str_to_ascii_uppercase(Wad::lump_name_str(raw_name));
    let ghost n = lookup_name(raw_name@);
    assert(name@ == n);
    match bank.id(name.as_str()) {
        Some(id) => {
            return Ok(id);
        },
        None => {},
    }
    match build_wall_texture(wad, patches, name.as_str()) {
        Some(tex) => {
            return match bank.insert(name.as_str(), tex) {
                Ok(id) => {
                    proof {
                        assert(final(bank).names()[old(bank).names().len() as int] == n);
                    }
                    Ok(id)
                },
                Err(e) => Err(LoadError::Texture(e)),
            };
        },
        None => {},
    }
    match decode_flat(wad, name.as_str()) {
        Some(tex) => {
            match bank.insert(name.as_str(), tex) {
                Ok(id) => {
                    proof {
                        assert(final(bank).names()[old(bank).names().len() as int] == n);
                    }
                    Ok(id)
                },
                Err(e) => Err(LoadError::Texture(e)),
            }
        },
        None => Ok(NO_TEXTURE),
    }
}

/// The three textures of sidedef `s` resolve to `t` in a bank holding
/// `names`, and each name the bank lacks is one the WAD does not provide.
pub open spec fn side_resolved(wad: &Wad, names: Seq<Seq<char>>, s: RawSidedef, t: SideTextures) -> bool {
    &&& resolves_to(names, lookup_name(s.top_tex@), t.upper)
    &&& resolves_to(names, lookup_name(s.bottom_tex@), t.lower)
    &&& resolves_to(names, lookup_name(s.mid_tex@), t.middle)
    &&& (names.contains(lookup_name(s.top_tex@)) || !provides(wad, lookup_name(s.top_tex@)))
    &&& (names.contains(lookup_name(s.bottom_tex@)) || !provides(wad, lookup_name(s.bottom_tex@)))
    &&& (names.contains(lookup_name(s.mid_tex@)) || !provides(wad, lookup_name(s.mid_tex@)))
}

/// The two textures of sector `c` resolve to `t` in a bank holding `names`,
/// and each name the bank lacks is one the WAD does not provide.
pub open spec fn sector_resolved(wad: &Wad, names: Seq<Seq<char>>, c: RawSector, t: SectorTextures) -> bool {
    &&& resolves_to(names, lookup_name(c.floor_tex@), t.floor)
    &&& resolves_to(names, lookup_name(c.ceil_tex@), t.ceil)
    &&& (names.contains(lookup_name(c.floor_tex@)) || !provides(wad, lookup_name(c.floor_tex@)))
    &&& (names.contains(lookup_name(c.ceil_tex@)) || !provides(wad, lookup_name(c.ceil_tex@)))
}

/// A resolved sidedef's upper, lower and middle ids name its upper
/// (`top_tex`), lower (`bottom_tex`) and middle (`mid_tex`) texture
/// names in the bank, each 0 when the bank does not know the name.
pub proof fn law_side_ids(wad: &Wad, names: Seq<Seq<char>>, s: RawSidedef, t: SideTextures)
    requires
        names.len() <= 0x10000,
        side_resolved(wad, names, s, t),
    ensures
        names.contains(lookup_name(s.top_tex@)) ==> (t.upper as int) < names.len() && names[t.upper as int]
            == lookup_name(s.top_tex@),
        !names.contains(lookup_name(s.top_tex@)) ==> t.upper == 0,
        names.contains(lookup_name(s.bottom_tex@)) ==> (t.lower as int) < names.len() && names[t.lower as int]
            == lookup_name(s.bottom_tex@),
        !names.contains(lookup_name(s.bottom_tex@)) ==> t.lower == 0,
        names.contains(lookup_name(s.mid_tex@)) ==> (t.middle as int) < names.len() && names[t.middle as int]
            == lookup_name(s.mid_tex@),
        !names.contains(lookup_name(s.mid_tex@)) ==> t.middle == 0,
{
    lemma_resolved_id(names, lookup_name(s.top_tex@), t.upper);
    lemma_resolved_id(names, lookup_name(s.bottom_tex@), t.lower);
    lemma_resolved_id(names, lookup_name(s.mid_tex@), t.middle);
}

/// A resolved sector's floor and ceiling ids name its floor and ceiling
/// flat names in the bank, each 0 when the bank does not know the name.
pub proof fn law_sector_ids(wad: &Wad, names: Seq<Seq<char>>, c: RawSector, t: SectorTextures)
    requires
        names.len() <= 0x10000,
        sector_resolved(wad, names, c, t),
    ensures
        names.contains(lookup_name(c.floor_tex@)) ==> (t.floor as int) < names.len() && names[t.floor as int]
            == lookup_name(c.floor_tex@),
        !names.contains(lookup_name(c.floor_tex@)) ==> t.floor == 0,
        names.contains(lookup_name(c.ceil_tex@)) ==> (t.ceil as int) < names.len() && names[t.ceil as int]
            == lookup_name(c.ceil_tex@),
        !names.contains(lookup_name(c.ceil_tex@)) ==> t.ceil == 0,
{
    lemma_resolved_id(names, lookup_name(c.floor_tex@), t.floor);
    lemma_resolved_id(names, lookup_name(c.ceil_tex@), t.ceil);
}

/// A resolved id of a known name is that name's position.
proof fn lemma_resolved_id(names: Seq<Seq<char>>, n: Seq<char>, id: TextureId)
    requires
        names.len() <= 0x10000,
        resolves_to(names, n, id),
    ensures
        names.contains(n) ==> (id as int) < names.len() && names[id as int] == n,
        !names.contains(n) ==> id == 0,
{
    if names.contains(n) {
        let p = choose|p: int| 0 <= p < names.len() && names[p] == n && id == p as u16;
        assert(p as u16 as int == p);
    }
}

/// Resolving `m` keeps what `n` resolved to.
proof fn lemma_resolved_stable(wad: &Wad, names: Seq<Seq<char>>, m: Seq<char>, n: Seq<char>, id: TextureId)
    requires
        resolves_to(names, n, id),
        names.contains(n) || !provides(wad, n),
    ensures
        resolves_to(names_after(wad, names, m), n, id),
        names_after(wad, names, m).contains(n) || !provides(wad, n),
{
    let after = names_after(wad, names, m);
    if names.contains(n) {
        let p = choose|p: int| 0 <= p < names.len() && names[p] == n && id == p as u16;
        assert(after[p] == n);
    } else {
        if after.contains(n) {
            let q = choose|q: int| 0 <= q < after.len() && after[q] == n;
            if q < names.len() {
                assert(names[q] == n);
            }
        }
    }
}

/// Resolving a name only ever appends to the bank's names.
proof fn lemma_names_after_extends(wad: &Wad, names: Seq<Seq<char>>, n: Seq<char>)
    ensures
        names_after(wad, names, n).len() >= names.len(),
        forall|j: int| 0 <= j < names.len() ==> #[trigger] names_after(wad, names, n)[j] == names[j],
{
}

/// A name absent from an extension of `a` is absent from `a`.
proof fn lemma_absent_from_prefix(a: Seq<Seq<char>>, b: Seq<Seq<char>>, n: Seq<char>)
    requires
        b.len() >= a.len(),
        forall|j: int| 0 <= j < a.len() ==> #[trigger] b[j] == a[j],
        !b.contains(n),
    ensures
        !a.contains(n),
{
    if a.contains(n) {
        let q = choose|q: int| 0 <= q < a.len() && a[q] == n;
        assert(b[q] == n);
    }
}

/// Resolving `n` itself leaves it resolved to the id found.
proof fn lemma_resolved_self(wad: &Wad, names: Seq<Seq<char>>, n: Seq<char>, id: TextureId)
    requires
        resolves_to(names_after(wad, names, n), n, id),
    ensures
        names_after(wad, names, n).contains(n) || !provides(wad, n),
{
    if !names.contains(n) && provides(wad, n) {
        assert(names.push(n)[names.len() as int] == n);
    }
}

/// Load the map at `marker`: decode its lumps, install the WAD's palette
/// and light tables in `bank`, and resolve every texture name its sidedefs
/// and sectors use to a bank id, adding wall textures and flats the bank
/// lacks.  Names the WAD does not provide resolve to the fallback id 0.
///
/// Errors, in order: the map does not decode (`Level`), there is no
/// PLAYPAL (`NoPalette`, bank untouched), COLORMAP is missing or short
/// (`NoColormap`, the palette is already installed).
pub fn load_level(wad: &Wad, marker: usize, bank: &mut TextureBank) -> (r: Result<LoadedLevel, LoadError>)
    requires
        old(bank).wf(),
        wad.well_formed(),
        load_inputs_ok(wad, marker as int, old(bank).names()),
    ensures
        final(bank).wf(),
        match r {
            Ok(l) => {
                &&& wad.parse_level_result(marker, Ok(l.raw))
                &&& wad.lump_named(playpal_name()) matches Some(pd) && forall|i: int|
                    0 <= i < 256 ==> #[trigger] final(bank).palette()[i] == rgb_at(pd, i)
                &&& colormap_present(wad)
                &&& wad.lump_named(colormap_name()) matches Some(cd) && forall|t: int, i: int|
                    0 <= t < 34 && 0 <= i < 256 ==> #[trigger] final(bank).colormap()[t][i] == cd[256 * t + i]
                &&& final(bank).names() == names_after_sectors(
                    wad,
                    names_after_sides(wad, old(bank).names(), l.raw.sidedefs@, l.raw.sidedefs@.len() as int),
                    l.raw.sectors@,
                    l.raw.sectors@.len() as int,
                )
                &&& forall|i: int| 0 <= i < old(bank).textures().len() ==> #[trigger] final(bank).textures()[i] == old(bank).textures()[i]
                &&& forall|i: int|
                    old(bank).textures().len() <= i < final(bank).textures().len() ==> provided(
                        wad,
                        final(bank).names()[i],
                        #[trigger] final(bank).textures()[i],
                    )
                &&& final(bank).shades() == old(bank).shades()
                &&& final(bank).sprites() == old(bank).sprites()
                &&& l.sides@.len() == l.raw.sidedefs@.len()
                &&& forall|i: int|
                    0 <= i < l.sides@.len() ==> side_resolved(wad, final(bank).names(), l.raw.sidedefs@[i], #[trigger] l.sides@[i])
                &&& l.sectors@.len() == l.raw.sectors@.len()
                &&& forall|i: int|
                    0 <= i < l.sectors@.len() ==> sector_resolved(wad, final(bank).names(), l.raw.sectors@[i], #[trigger] l.sectors@[i])
            },
            Err(LoadError::Level(e)) => wad.parse_level_result(marker, Err(e)) && *final(bank) == *old(bank),
            Err(LoadError::NoPalette) => {
                &&& level_parses(wad, marker as int)
                &&& wad.lump_named(playpal_name()) is None
                &&& *final(bank) == *old(bank)
            },
            Err(LoadError::NoColormap) => {
                &&& level_parses(wad, marker as int)
                &&& wad.lump_named(playpal_name()) matches Some(pd) && forall|i: int|
                    0 <= i < 256 ==> #[trigger] final(bank).palette()[i] == rgb_at(pd, i)
                &&& !colormap_present(wad)
                &&& final(bank).names() == old(bank).names()
                &&& final(bank).textures() == old(bank).textures()
                &&& final(bank).colormap() == old(bank).colormap()
                &&& final(bank).shades() == old(bank).shades()
                &&& final(bank).sprites() == old(bank).sprites()
            },
            Err(_) => false,
        },
{
    let raw = match wad.parse_level(marker) {
        Ok(l) => l,
        Err(e) => return Err(LoadError::Level(e)),
    };
    let ghost m = marker as int;
    assert(level_parses(wad, m));
    let palette = match load_palette(wad) {
        Some(p) => p,
        None => return Err(LoadError::NoPalette),
    };
    bank.set_palette(palette);
    let colormap = match load_colormap(wad) {
        Some(c) => c,
        None => return Err(LoadError::NoColormap),
    };
    bank.set_colormap(colormap);
    let patch_vec = match decode_all_patches(wad) {
        Ok(v) => v,
        Err(e) => return Err(LoadError::Wad(e)),
    };
    let ghost names0 = old(bank).names();
    let ghost start = *bank;
    let ghost side_data = lump_data(wad.bytes@, wad.lumps@[m + 3]);
    let ghost sector_data = lump_data(wad.bytes@, wad.lumps@[m + 8]);
    assert(names0 == start.names());
    assert(patch_vec@.len() == patch_count(wad));

    let mut sides: Vec<SideTextures> = Vec::new();
    let mut i: usize = 0;
    while i < raw.sidedefs.len()
        invariant
            wad.well_formed(),
            patch_list(wad, patch_vec@),
            patches_ok(patch_vec@),
            patch_vec@.len() == patch_count(wad),
            level_refs_ok(wad, m, names0),
            wad.records_match(m + 3, raw.sidedefs@),
            side_data == lump_data(wad.bytes@, wad.lumps@[m + 3]),
            start.wf(),
            start.names() == names0,
            bank.wf(),
            bank.names() == names_after_sides(wad, names0, raw.sidedefs@, i as int),
            bank.names().len() >= names0.len(),
            forall|j: int| 0 <= j < names0.len() ==> #[trigger] bank.names()[j] == names0[j],
            forall|j: int| 0 <= j < start.textures().len() ==> #[trigger] bank.textures()[j] == start.textures()[j],
            forall|j: int|
                start.textures().len() <= j < bank.textures().len() ==> provided(wad, bank.names()[j], #[trigger] bank.textures()[j]),
            bank.palette() == start.palette(),
            bank.colormap() == start.colormap(),
            bank.shades() == start.shades(),
            bank.sprites() == start.sprites(),
            i <= raw.sidedefs@.len(),
            sides@.len() == i,
            forall|j: int| 0 <= j < i ==> side_resolved(wad, bank.names(), raw.sidedefs@[j], #[trigger] sides@[j]),
        decreases raw.sidedefs@.len() - i,
    {
        let s = &raw.sidedefs[i];
        let ghost rec = side_data.subrange(i * 30, i * 30 + 30);
        proof {
            assert(s.decoded_from(rec));
            assert(s.top_tex@ =~= side_data.subrange(30 * i + 4, 30 * i + 4 + 8));
            assert(s.bottom_tex@ =~= side_data.subrange(30 * i + 12, 30 * i + 12 + 8));
            assert(s.mid_tex@ =~= side_data.subrange(30 * i + 20, 30 * i + 20 + 8));
            assert(lookup_name(s.top_tex@) == ref_name(wad, m + 3, 30, i as int, 4));
            assert(lookup_name(s.bottom_tex@) == ref_name(wad, m + 3, 30, i as int, 12));
            assert(lookup_name(s.mid_tex@) == ref_name(wad, m + 3, 30, i as int, 20));
        }
        let ghost b0 = *bank;
        proof {
            assert((i as int) < side_data.len() / 30);
            if !b0.names().contains(lookup_name(s.top_tex@)) {
                lemma_absent_from_prefix(names0, b0.names(), lookup_name(s.top_tex@));
            }
        }
        let upper = match resolve_texture(wad, patch_vec.as_slice(), bank, &s.top_tex) {
            Ok(id) => id,
            Err(e) => return Err(e),
        };
        let ghost b1 = *bank;
        proof {
            lemma_names_after_extends(wad, b0.names(), lookup_name(s.top_tex@));
            if !b1.names().contains(lookup_name(s.bottom_tex@)) {
                lemma_absent_from_prefix(names0, b1.names(), lookup_name(s.bottom_tex@));
            }
        }
        let lower = match resolve_texture(wad, patch_vec.as_slice(), bank, &s.bottom_tex) {
            Ok(id) => id,
            Err(e) => return Err(e),
        };
        let ghost b2 = *bank;
        proof {
            lemma_names_after_extends(wad, b1.names(), lookup_name(s.bottom_tex@));
            if !b2.names().contains(lookup_name(s.mid_tex@)) {
                lemma_absent_from_prefix(names0, b2.names(), lookup_name(s.mid_tex@));
            }
        }
        let middle = match resolve_texture(wad, patch_vec.as_slice(), bank, &s.mid_tex) {
            Ok(id) => id,
            Err(e) => return Err(e),
        };
        let t = SideTextures { upper, lower, middle };
        proof {
            let n1 = lookup_name(s.top_tex@);
            let n2 = lookup_name(s.bottom_tex@);
            let n3 = lookup_name(s.mid_tex@);
            lemma_resolved_self(wad, b0.names(), n1, upper);
            lemma_resolved_stable(wad, b1.names(), n2, n1, upper);
            lemma_resolved_stable(wad, b2.names(), n3, n1, upper);
            lemma_resolved_self(wad, b1.names(), n2, lower);
            lemma_resolved_stable(wad, b2.names(), n3, n2, lower);
            lemma_resolved_self(wad, b2.names(), n3, middle);
            assert forall|j: int| 0 <= j < i implies side_resolved(wad, bank.names(), raw.sidedefs@[j], #[trigger] sides@[j]) by {
                let sj = raw.sidedefs@[j];
                let tj = sides@[j];
                assert(side_resolved(wad, b0.names(), sj, tj));
                lemma_resolved_stable(wad, b0.names(), n1, lookup_name(sj.top_tex@), tj.upper);
                lemma_resolved_stable(wad, b1.names(), n2, lookup_name(sj.top_tex@), tj.upper);
                lemma_resolved_stable(wad, b2.names(), n3, lookup_name(sj.top_tex@), tj.upper);
                lemma_resolved_stable(wad, b0.names(), n1, lookup_name(sj.bottom_tex@), tj.lower);
                lemma_resolved_stable(wad, b1.names(), n2, lookup_name(sj.bottom_tex@), tj.lower);
                lemma_resolved_stable(wad, b2.names(), n3, lookup_name(sj.bottom_tex@), tj.lower);
                lemma_resolved_stable(wad, b0.names(), n1, lookup_name(sj.mid_tex@), tj.middle);
                lemma_resolved_stable(wad, b1.names(), n2, lookup_name(sj.mid_tex@), tj.middle);
                lemma_resolved_stable(wad, b2.names(), n3, lookup_name(sj.mid_tex@), tj.middle);
            }
        }
        sides.push(t);
        i += 1;
    }

    let ghost names1 = bank.names();
    let mut sectors: Vec<SectorTextures> = Vec::new();
    let mut k: usize = 0;
    while k < raw.sectors.len()
        invariant
            wad.well_formed(),
            patch_list(wad, patch_vec@),
            patches_ok(patch_vec@),
            patch_vec@.len() == patch_count(wad),
            level_refs_ok(wad, m, names0),
            wad.records_match(m + 8, raw.sectors@),
            sector_data == lump_data(wad.bytes@, wad.lumps@[m + 8]),
            start.wf(),
            start.names() == names0,
            names1 == names_after_sides(wad, names0, raw.sidedefs@, raw.sidedefs@.len() as int),
            bank.wf(),
            bank.names() == names_after_sectors(wad, names1, raw.sectors@, k as int),
            bank.names().len() >= names0.len(),
            forall|j: int| 0 <= j < names0.len() ==> #[trigger] bank.names()[j] == names0[j],
            forall|j: int| 0 <= j < start.textures().len() ==> #[trigger] bank.textures()[j] == start.textures()[j],
            forall|j: int|
                start.textures().len() <= j < bank.textures().len() ==> provided(wad, bank.names()[j], #[trigger] bank.textures()[j]),
            bank.palette() == start.palette(),
            bank.colormap() == start.colormap(),
            bank.shades() == start.shades(),
            bank.sprites() == start.sprites(),
            sides@.len() == raw.sidedefs@.len(),
            forall|j: int| 0 <= j < sides@.len() ==> side_resolved(wad, bank.names(), raw.sidedefs@[j], #[trigger] sides@[j]),
            k <= raw.sectors@.len(),
            sectors@.len() == k,
            forall|j: int| 0 <= j < k ==> sector_resolved(wad, bank.names(), raw.sectors@[j], #[trigger] sectors@[j]),
        decreases raw.sectors@.len() - k,
    {
        let c = &raw.sectors[k];
        let ghost rec = sector_data.subrange(k * 26, k * 26 + 26);
        proof {
            assert(c.decoded_from(rec));
            assert(c.floor_tex@ =~= sector_data.subrange(26 * k + 4, 26 * k + 4 + 8));
            assert(c.ceil_tex@ =~= sector_data.subrange(26 * k + 12, 26 * k + 12 + 8));
            assert(lookup_name(c.floor_tex@) == ref_name(wad, m + 8, 26, k as int, 4));
            assert(lookup_name(c.ceil_tex@) == ref_name(wad, m + 8, 26, k as int, 12));
        }
        let ghost b0 = *bank;
        proof {
            assert((k as int) < sector_data.len() / 26);
            if !b0.names().contains(lookup_name(c.floor_tex@)) {
                lemma_absent_from_prefix(names0, b0.names(), lookup_name(c.floor_tex@));
            }
        }
        let floor = match resolve_texture(wad, patch_vec.as_slice(), bank, &c.floor_tex) {
            Ok(id) => id,
            Err(e) => return Err(e),
        };
        let ghost b1 = *bank;
        proof {
            lemma_names_after_extends(wad, b0.names(), lookup_name(c.floor_tex@));
            if !b1.names().contains(lookup_name(c.ceil_tex@)) {
                lemma_absent_from_prefix(names0, b1.names(), lookup_name(c.ceil_tex@));
            }
        }
        let ceil = match resolve_texture(wad, patch_vec.as_slice(), bank, &c.ceil_tex) {
            Ok(id) => id,
            Err(e) => return Err(e),
        };
        let t = SectorTextures { floor, ceil };
        proof {
            let n1 = lookup_name(c.floor_tex@);
            let n2 = lookup_name(c.ceil_tex@);
            lemma_resolved_self(wad, b0.names(), n1, floor);
            lemma_resolved_stable(wad, b1.names(), n2, n1, floor);
            lemma_resolved_self(wad, b1.names(), n2, ceil);
            assert forall|j: int| 0 <= j < k implies sector_resolved(wad, bank.names(), raw.sectors@[j], #[trigger] sectors@[j]) by {
                let cj = raw.sectors@[j];
                let tj = sectors@[j];
                assert(sector_resolved(wad, b0.names(), cj, tj));
                lemma_resolved_stable(wad, b0.names(), n1, lookup_name(cj.floor_tex@), tj.floor);
                lemma_resolved_stable(wad, b1.names(), n2, lookup_name(cj.floor_tex@), tj.floor);
                lemma_resolved_stable(wad, b0.names(), n1, lookup_name(cj.ceil_tex@), tj.ceil);
                lemma_resolved_stable(wad, b1.names(), n2, lookup_name(cj.ceil_tex@), tj.ceil);
            }
            assert forall|j: int| 0 <= j < sides@.len() implies side_resolved(wad, bank.names(), raw.sidedefs@[j], #[trigger] sides@[j]) by {
                let sj = raw.sidedefs@[j];
                let tj = sides@[j];
                assert(side_resolved(wad, b0.names(), sj, tj));
                lemma_resolved_stable(wad, b0.names(), n1, lookup_name(sj.top_tex@), tj.upper);
                lemma_resolved_stable(wad, b1.names(), n2, lookup_name(sj.top_tex@), tj.upper);
                lemma_resolved_stable(wad, b0.names(), n1, lookup_name(sj.bottom_tex@), tj.lower);
                lemma_resolved_stable(wad, b1.names(), n2, lookup_name(sj.bottom_tex@), tj.lower);
                lemma_resolved_stable(wad, b0.names(), n1, lookup_name(sj.mid_tex@), tj.middle);
                lemma_resolved_stable(wad, b1.names(), n2, lookup_name(sj.mid_tex@), tj.middle);
            }
        }
        sectors.push(t);
        k += 1;
    }
    Ok(LoadedLevel { raw, sides, sectors })
}

} // verus!
