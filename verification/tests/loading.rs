use yadoom_rs::loader::{
    build_wall_texture, decode_all_patches, decode_flat, load_colormap, load_level, load_palette, LoadError,
};
use yadoom_rs::patch::{blit_patch, compose_texture, decode_patch};
use yadoom_rs::texture::{Texture, TextureBank, NO_TEXTURE};
use yadoom_rs::wad::Wad;

fn build_wad(lumps: &[(&str, Vec<u8>)]) -> Vec<u8> {
    let mut data: Vec<u8> = Vec::new();
    let mut dir: Vec<(u32, u32, [u8; 8])> = Vec::new();
    let mut off: u32 = 12;
    for (name, bytes) in lumps {
        let mut nm = [0u8; 8];
        for (i, b) in name.bytes().enumerate() {
            nm[i] = b;
        }
        dir.push((off, bytes.len() as u32, nm));
        data.extend_from_slice(bytes);
        off += bytes.len() as u32;
    }
    let mut out: Vec<u8> = Vec::new();
    out.extend_from_slice(b"IWAD");
    out.extend_from_slice(&(lumps.len() as u32).to_le_bytes());
    out.extend_from_slice(&off.to_le_bytes());
    out.extend_from_slice(&data);
    for (o, s, nm) in dir {
        out.extend_from_slice(&o.to_le_bytes());
        out.extend_from_slice(&s.to_le_bytes());
        out.extend_from_slice(&nm);
    }
    out
}

fn le16(v: i16) -> [u8; 2] {
    v.to_le_bytes()
}

fn name8(s: &str) -> [u8; 8] {
    let mut nm = [0u8; 8];
    for (i, b) in s.bytes().enumerate() {
        nm[i] = b;
    }
    nm
}

/// A `w`×`h` patch: column `x` holds one post covering rows `top..top+len`
/// with values `x*16 + row`, or no post when `len` is 0.
fn patch_bytes(w: u16, h: u16, top: u8, len: u8) -> Vec<u8> {
    let mut out = Vec::new();
    out.extend_from_slice(&w.to_le_bytes());
    out.extend_from_slice(&h.to_le_bytes());
    out.extend_from_slice(&[0, 0, 0, 0]);
    let header = 8 + 4 * w as u32;
    let col_len: u32 = if len == 0 { 1 } else { 4 + len as u32 + 1 };
    for x in 0..w as u32 {
        out.extend_from_slice(&(header + x * col_len).to_le_bytes());
    }
    for x in 0..w {
        if len > 0 {
            out.push(top);
            out.push(len);
            out.push(0);
            for r in 0..len {
                out.push(((x as u32 * 16 + top as u32 + r as u32) % 256) as u8);
            }
            out.push(0);
        }
        out.push(0xFF);
    }
    out
}

/// A TEXTUREx lump holding the given entries: (name, w, h, placements of
/// (ox, oy, patch index)).
fn texture_table(entries: &[(&str, i16, i16, Vec<(i16, i16, i16)>)]) -> Vec<u8> {
    let mut body: Vec<Vec<u8>> = Vec::new();
    for (name, w, h, places) in entries {
        let mut e = Vec::new();
        e.extend_from_slice(&name8(name));
        e.extend_from_slice(&[0, 0, 0, 0]);
        e.extend_from_slice(&le16(*w));
        e.extend_from_slice(&le16(*h));
        e.extend_from_slice(&[0, 0, 0, 0]);
        e.extend_from_slice(&le16(places.len() as i16));
        for (ox, oy, p) in places {
            e.extend_from_slice(&le16(*ox));
            e.extend_from_slice(&le16(*oy));
            e.extend_from_slice(&le16(*p));
            e.extend_from_slice(&le16(1));
            e.extend_from_slice(&le16(0));
        }
        body.push(e);
    }
    let mut out = Vec::new();
    out.extend_from_slice(&(entries.len() as u32).to_le_bytes());
    let mut off = 4 + 4 * entries.len() as u32;
    for e in &body {
        out.extend_from_slice(&off.to_le_bytes());
        off += e.len() as u32;
    }
    for e in body {
        out.extend_from_slice(&e);
    }
    out
}

fn map_lumps(nverts: usize) -> Vec<(String, Vec<u8>)> {
    let mut things = Vec::new();
    for v in [0i16, 0, 90, 1, 7] {
        things.extend_from_slice(&le16(v));
    }
    let mut linedefs = Vec::new();
    for v in [0i16, 1, 0, 0, 0, 0, -1] {
        linedefs.extend_from_slice(&le16(v));
    }
    let mut sidedefs = Vec::new();
    for (top, bottom, mid) in [("STARTAN3", "-", "startan3"), ("BROWN1", "-", "NOSUCH")] {
        sidedefs.extend_from_slice(&le16(0));
        sidedefs.extend_from_slice(&le16(0));
        sidedefs.extend_from_slice(&name8(top));
        sidedefs.extend_from_slice(&name8(bottom));
        sidedefs.extend_from_slice(&name8(mid));
        sidedefs.extend_from_slice(&le16(0));
    }
    let mut vertexes = Vec::new();
    for i in 0..nverts {
        vertexes.extend_from_slice(&le16(i as i16));
        vertexes.extend_from_slice(&le16(0));
    }
    let mut sectors = Vec::new();
    sectors.extend_from_slice(&le16(0));
    sectors.extend_from_slice(&le16(128));
    sectors.extend_from_slice(&name8("FLOOR4_8"));
    sectors.extend_from_slice(&name8("NOSUCH"));
    sectors.extend_from_slice(&le16(160));
    sectors.extend_from_slice(&le16(0));
    sectors.extend_from_slice(&le16(0));
    vec![
        ("E1M1".to_string(), Vec::new()),
        ("THINGS".to_string(), things),
        ("LINEDEFS".to_string(), linedefs),
        ("SIDEDEFS".to_string(), sidedefs),
        ("VERTEXES".to_string(), vertexes),
        ("SEGS".to_string(), vec![0u8; 12]),
        ("SSECTORS".to_string(), vec![1, 0, 0, 0]),
        ("NODES".to_string(), vec![0u8; 28]),
        ("SECTORS".to_string(), sectors),
    ]
}

fn palette_bytes() -> Vec<u8> {
    let mut pal = Vec::new();
    for i in 0..256u32 {
        pal.push(i as u8);
        pal.push((255 - i) as u8);
        pal.push((i / 2) as u8);
    }
    pal
}

fn colormap_bytes() -> Vec<u8> {
    let mut cm = Vec::new();
    for t in 0..34u32 {
        for i in 0..256u32 {
            cm.push(((i + t) % 256) as u8);
        }
    }
    cm
}

/// A complete little IWAD: palette, light tables, two patches, a texture
/// table defining STARTAN3 (128×128) and BROWN1, a flat, and one map.
fn full_wad(with_colormap: bool) -> Wad {
    let mut lumps: Vec<(String, Vec<u8>)> = Vec::new();
    lumps.push(("PLAYPAL".to_string(), palette_bytes()));
    if with_colormap {
        lumps.push(("COLORMAP".to_string(), colormap_bytes()));
    }
    let mut pnames = Vec::new();
    pnames.extend_from_slice(&3u32.to_le_bytes());
    pnames.extend_from_slice(&name8("WALL00_1"));
    pnames.extend_from_slice(&name8("GONE"));
    pnames.extend_from_slice(&name8("WALL00_2"));
    lumps.push(("PNAMES".to_string(), pnames));
    lumps.push((
        "TEXTURE1".to_string(),
        texture_table(&[
            ("STARTAN3", 128, 128, vec![(0, 0, 0), (64, 0, 2)]),
            ("BROWN1", 4, 4, vec![(-1, 1, 2)]),
        ]),
    ));
    lumps.push(("P_START".to_string(), Vec::new()));
    lumps.push(("WALL00_1".to_string(), patch_bytes(64, 128, 0, 128)));
    lumps.push(("WALL00_2".to_string(), patch_bytes(4, 4, 1, 2)));
    lumps.push(("P_END".to_string(), Vec::new()));
    lumps.push(("FLOOR4_8".to_string(), vec![5u8; 4096]));
    lumps.extend(map_lumps(301));
    let refs: Vec<(&str, Vec<u8>)> = lumps.iter().map(|(n, b)| (n.as_str(), b.clone())).collect();
    Wad::from_bytes(build_wad(&refs)).unwrap()
}

#[test]
fn level_and_textures_load() {
    let wad = full_wad(true);
    let mut bank = TextureBank::default_with_checker();

    let marker = wad.level_indices()[0]; // E1M1
    let lvl = load_level(&wad, marker, &mut bank).expect("load");

    // simple sanity checks
    assert!(lvl.raw.vertices.len() > 300);
    assert!(bank.len() > 1);

    let id = bank.id("STARTAN3").unwrap_or(NO_TEXTURE);
    let tex = bank.texture(id).unwrap();
    assert_eq!(tex.w, 128);
    assert_eq!(tex.h, 128); // STARTAN textures are 128×128
}

#[test]
fn unknown_name_gets_checker() {
    let bank = TextureBank::default_with_checker();
    // explicitly request missing name
    let id = bank.id_or_missing("NO_SUCH_TEXTURE_XYZ");
    assert_eq!(id, 0);
}

#[test]
fn load_level_resolves_every_reference() {
    let wad = full_wad(true);
    let mut bank = TextureBank::default_with_checker();
    let marker = wad.level_indices()[0];
    let lvl = load_level(&wad, marker, &mut bank).unwrap();
    // STARTAN3 (1), then BROWN1 (2), then the flat (3); "-", NOSUCH unknown.
    assert_eq!(bank.len(), 4);
    assert_eq!(bank.id("STARTAN3"), Some(1));
    assert_eq!(bank.id("BROWN1"), Some(2));
    assert_eq!(bank.id("FLOOR4_8"), Some(3));
    assert_eq!((lvl.sides[0].upper, lvl.sides[0].lower, lvl.sides[0].middle), (1, 0, 1));
    assert_eq!((lvl.sides[1].upper, lvl.sides[1].lower, lvl.sides[1].middle), (2, 0, 0));
    assert_eq!((lvl.sectors[0].floor, lvl.sectors[0].ceil), (3, 0));
    // palette and light tables installed
    bank.build_shade_table();
    assert_eq!(bank.get_color(0, 1), 0x0001_FE00);
    assert_eq!(bank.get_color(2, 1), 0x0003_FC01);
    // the composed texture: patch 0 on the left half, patch 2 at x = 64
    let t = bank.texture(1).unwrap();
    assert_eq!(t.pixels[5 * 128 + 3], 3 * 16 + 5);
    assert_eq!(t.pixels[1 * 128 + 65], 16 + 1);
    assert_eq!(t.pixels[0 * 128 + 65], 0);
    assert_eq!(t.pixels[9 * 128 + 100], 0);
    let flat = bank.texture(3).unwrap();
    assert_eq!((flat.w, flat.h, flat.pixels.len(), flat.pixels[77]), (64, 64, 4096, 5));
}

#[test]
fn load_level_reports_missing_colormap() {
    let wad = full_wad(false);
    let mut bank = TextureBank::default_with_checker();
    let marker = wad.level_indices()[0];
    let r = load_level(&wad, marker, &mut bank);
    assert!(matches!(r, Err(LoadError::NoColormap)));
    assert_eq!(bank.len(), 1);
}

#[test]
fn load_level_reports_missing_palette() {
    let refs: Vec<(String, Vec<u8>)> = map_lumps(3);
    let refs: Vec<(&str, Vec<u8>)> = refs.iter().map(|(n, b)| (n.as_str(), b.clone())).collect();
    let wad = Wad::from_bytes(build_wad(&refs)).unwrap();
    let mut bank = TextureBank::default_with_checker();
    assert!(matches!(load_level(&wad, 0, &mut bank), Err(LoadError::NoPalette)));
    assert!(matches!(load_level(&wad, 1, &mut bank), Err(LoadError::Level(_))));
}

#[test]
fn palette_and_colormap_decode() {
    let wad = full_wad(true);
    let pal = load_palette(&wad).unwrap();
    assert_eq!(pal.0[0], 0x0000_FF00);
    assert_eq!(pal.0[200], (200 << 16) | (55 << 8) | 100);
    let cm = load_colormap(&wad).unwrap();
    assert_eq!(cm.0[3][10], 13);
    assert_eq!(cm.0[33][255], 32);
    let bare = Wad::from_bytes(build_wad(&[("COLORMAP", vec![1; 100])])).unwrap();
    assert!(load_palette(&bare).is_none());
    assert!(load_colormap(&bare).is_none());
}

#[test]
fn patches_decode_by_columns() {
    let raw = patch_bytes(3, 5, 1, 3);
    let t = decode_patch(&raw, "P");
    assert_eq!((t.w, t.h), (3, 5));
    let expect: Vec<u8> = vec![0, 0, 0, 1, 17, 33, 2, 18, 34, 3, 19, 35, 0, 0, 0];
    assert_eq!(t.pixels, expect);
}

#[test]
fn later_posts_overwrite_earlier_ones() {
    // one column, two posts: rows 0..3 = 1,2,3 then rows 1..2 = 9
    let raw: Vec<u8> = vec![1, 0, 3, 0, 0, 0, 0, 0, 12, 0, 0, 0, 0, 3, 0, 1, 2, 3, 0, 1, 1, 0, 9, 0, 0xFF];
    let t = decode_patch(&raw, "Q");
    assert_eq!(t.pixels, vec![1, 9, 3]);
}

#[test]
fn patch_list_keeps_indices_aligned() {
    let wad = full_wad(true);
    let patches = decode_all_patches(&wad).unwrap();
    assert_eq!(patches.len(), 3);
    assert_eq!((patches[0].w, patches[0].h), (64, 128));
    assert_eq!(patches[1].name, "CHECKER");
    assert_eq!((patches[1].w, patches[1].h), (8, 8));
    assert_eq!(patches[2].name, "WALL00_2");
}

#[test]
fn wall_textures_compose_and_clip() {
    let wad = full_wad(true);
    let patches = decode_all_patches(&wad).unwrap();
    let t = build_wall_texture(&wad, &patches, "brown1").unwrap();
    assert_eq!(t.name, "BROWN1");
    assert_eq!((t.w, t.h), (4, 4));
    // patch 2 (4×4, rows 1..3 set) placed at (-1, 1): column 0 is cut off
    let expect: Vec<u8> = vec![0, 0, 0, 0, 0, 0, 0, 0, 17, 33, 49, 0, 18, 34, 50, 0];
    assert_eq!(t.pixels, expect);
    assert!(build_wall_texture(&wad, &patches, "NOSUCH").is_none());
}

#[test]
fn blit_skips_transparent_and_outside_pixels() {
    let p = Texture { name: "p".to_string(), w: 2, h: 2, pixels: vec![7, 0, 0, 9] };
    let mut dest = vec![1u8; 9];
    blit_patch(&mut dest, 3, 3, &p, 2, 2);
    assert_eq!(dest, vec![1, 1, 1, 1, 1, 1, 1, 1, 7]);
    let mut dest = vec![1u8; 9];
    blit_patch(&mut dest, 3, 3, &p, 0, 0);
    assert_eq!(dest, vec![7, 1, 1, 1, 9, 1, 1, 1, 1]);
}

#[test]
fn compose_places_patches_in_order() {
    let a = Texture { name: "a".to_string(), w: 2, h: 1, pixels: vec![4, 4] };
    let b = Texture { name: "b".to_string(), w: 2, h: 1, pixels: vec![5, 0] };
    let mut entry = Vec::new();
    entry.extend_from_slice(b"TWO\0\0\0\0\0");
    entry.extend_from_slice(&[0, 0, 0, 0]);
    entry.extend_from_slice(&le16(3));
    entry.extend_from_slice(&le16(1));
    entry.extend_from_slice(&[0, 0, 0, 0]);
    entry.extend_from_slice(&le16(2));
    for (ox, p) in [(0i16, 0i16), (1, 1)] {
        entry.extend_from_slice(&le16(ox));
        entry.extend_from_slice(&le16(0));
        entry.extend_from_slice(&le16(p));
        entry.extend_from_slice(&[0, 0, 0, 0]);
    }
    let t = compose_texture(&entry, &[a, b], "TWO");
    assert_eq!(t.pixels, vec![4, 5, 0]);
}

#[test]
fn flats_must_be_4096_bytes() {
    let wad = Wad::from_bytes(build_wad(&[("F1", vec![3; 4096]), ("F2", vec![3; 4095])])).unwrap();
    let f = decode_flat(&wad, "F1").unwrap();
    assert_eq!((f.name.as_str(), f.w, f.h), ("F1", 64, 64));
    assert!(decode_flat(&wad, "F2").is_none());
    assert!(decode_flat(&wad, "F3").is_none());
}
