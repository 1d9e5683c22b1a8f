use yadoom_rs::truecolor::{
    build_flats, build_textures, checker, decode_patch, load_palette, lump_name, norm, str_from, Texture, TextureTable,
};
use yadoom_rs::wad::Wad;

fn build_wad(lumps: &[(&str, Vec<u8>)]) -> Vec<u8> {
    let mut data: Vec<u8> = Vec::new();
    let mut dir: Vec<(u32, u32, [u8; 8])> = Vec::new();
    let mut off: u32 = 12;
    for (name, bytes) in lumps {
        let mut nm = [0u8; 8];
        for (i, b) in name.bytes().enumerate() {
            nm[i] = b;
        }
        dir.push((off, bytes.len() as u32, nm));
        data.extend_from_slice(bytes);
        off += bytes.len() as u32;
    }
    let mut out: Vec<u8> = Vec::new();
    out.extend_from_slice(b"IWAD");
    out.extend_from_slice(&(lumps.len() as u32).to_le_bytes());
    out.extend_from_slice(&off.to_le_bytes());
    out.extend_from_slice(&data);
    for (o, s, nm) in dir {
        out.extend_from_slice(&o.to_le_bytes());
        out.extend_from_slice(&s.to_le_bytes());
        out.extend_from_slice(&nm);
    }
    out
}

fn le16(v: i16) -> [u8; 2] {
    v.to_le_bytes()
}

fn name8(s: &str) -> [u8; 8] {
    let mut nm = [0u8; 8];
    for (i, b) in s.bytes().enumerate() {
        nm[i] = b;
    }
    nm
}

/// A `w`×`h` patch whose every column holds one post covering all rows,
/// with byte value `x + 1` in column `x`.
fn solid_patch(w: u16, h: u16) -> Vec<u8> {
    let mut out = Vec::new();
    out.extend_from_slice(&w.to_le_bytes());
    out.extend_from_slice(&h.to_le_bytes());
    out.extend_from_slice(&[0, 0, 0, 0]);
    let header = 8 + 4 * w as u32;
    let col_len = 4 + h as u32 + 1;
    for x in 0..w as u32 {
        out.extend_from_slice(&(header + x * col_len).to_le_bytes());
    }
    for x in 0..w {
        out.push(0);
        out.push(h as u8);
        out.push(0);
        for _ in 0..h {
            out.push(x as u8 + 1);
        }
        out.push(0);
        out.push(0xFF);
    }
    out
}

fn table_lump(entries: &[(&str, i16, i16, Vec<(i16, i16, i16)>)]) -> Vec<u8> {
    let mut body: Vec<Vec<u8>> = Vec::new();
    for (name, w, h, places) in entries {
        let mut e = Vec::new();
        e.extend_from_slice(&name8(name));
        e.extend_from_slice(&[0, 0, 0, 0]);
        e.extend_from_slice(&le16(*w));
        e.extend_from_slice(&le16(*h));
        e.extend_from_slice(&[0, 0, 0, 0]);
        e.extend_from_slice(&le16(places.len() as i16));
        for (ox, oy, p) in places {
            e.extend_from_slice(&le16(*ox));
            e.extend_from_slice(&le16(*oy));
            e.extend_from_slice(&le16(*p));
            e.extend_from_slice(&[0, 0, 0, 0]);
        }
        body.push(e);
    }
    let mut out = Vec::new();
    out.extend_from_slice(&(entries.len() as u32).to_le_bytes());
    let mut off = 4 + 4 * entries.len() as u32;
    for e in &body {
        out.extend_from_slice(&off.to_le_bytes());
        off += e.len() as u32;
    }
    for e in body {
        out.extend_from_slice(&e);
    }
    out
}

fn palette() -> Vec<u8> {
    let mut pal = Vec::new();
    for i in 0..256u32 {
        pal.push(i as u8);
        pal.push(0);
        pal.push(1);
    }
    pal
}

#[test]
fn names_are_trimmed_and_upper_cased() {
    assert_eq!(norm("startan3\0\0"), "STARTAN3");
    assert_eq!(norm("  sky1 \0"), "SKY1");
    assert_eq!(norm("\0\0"), "");
    assert_eq!(lump_name(b"AB\0CD"), "AB");
    assert_eq!(lump_name(b"ABCD"), "ABCD");
    assert_eq!(lump_name(b"\xc3\x28"), "MISSING");
    assert_eq!(str_from(b"FLOOR4_8"), "FLOOR4_8");
    assert_eq!(str_from(b"-\0\0\0\0\0\0\0"), "-");
}

#[test]
fn checkerboard_alternates_every_eight_pixels() {
    let t = checker();
    assert_eq!((t.w, t.h, t.pix.len()), (64, 64, 4096));
    assert_eq!(t.pix[0], 0x007F7FFF);
    assert_eq!(t.pix[8], 0x00FF7F7F);
    assert_eq!(t.pix[8 * 64], 0x00FF7F7F);
    assert_eq!(t.pix[9 * 64 + 9], 0x007F7FFF);
}

#[test]
fn table_replaces_on_insert() {
    let mut t = TextureTable::new();
    assert_eq!(t.len(), 0);
    t.insert("A".to_string(), Texture { w: 1, h: 1, pix: vec![1] });
    t.insert("B".to_string(), Texture { w: 1, h: 1, pix: vec![2] });
    t.insert("A".to_string(), Texture { w: 1, h: 1, pix: vec![3] });
    assert_eq!(t.len(), 2);
    assert_eq!(t.get("A").unwrap().pix[0], 3);
    assert_eq!(t.get("B").unwrap().pix[0], 2);
    assert!(t.get("C").is_none());
}

#[test]
fn direct_colour_patches_use_the_palette() {
    let mut pal = [0u32; 256];
    for i in 0..256 {
        pal[i] = 0x0010_0000 + i as u32;
    }
    let t = decode_patch(&solid_patch(2, 3), &pal);
    assert_eq!((t.w, t.h), (2, 3));
    assert_eq!(t.pix, vec![0x0010_0001, 0x0010_0002, 0x0010_0001, 0x0010_0002, 0x0010_0001, 0x0010_0002]);
}

#[test]
fn palette_is_required_and_decoded() {
    let wad = Wad::from_bytes(build_wad(&[("PLAYPAL", palette())])).unwrap();
    let pal = load_palette(&wad);
    assert_eq!(pal[0], 0x0000_0001);
    assert_eq!(pal[255], 0x00FF_0001);
}

#[test]
fn texture_table_from_pnames_and_both_tables() {
    let mut pnames = Vec::new();
    pnames.extend_from_slice(&2u32.to_le_bytes());
    pnames.extend_from_slice(&name8("PA"));
    pnames.extend_from_slice(&name8("NOPE"));
    let wad = Wad::from_bytes(build_wad(&[
        ("PLAYPAL", palette()),
        ("PNAMES", pnames),
        ("TEXTURE1", table_lump(&[("WALL", 3, 2, vec![(1, 0, 0)]), ("GHOST", 2, 2, vec![(0, 0, 1)])])),
        ("TEXTURE2", table_lump(&[("wall", 2, 1, vec![(0, 0, 0)])])),
        ("PA", solid_patch(2, 2)),
    ]))
    .unwrap();
    let pal = load_palette(&wad);
    let tbl = build_textures(&wad, &pal);
    assert_eq!(tbl.len(), 3);
    // TEXTURE2's "wall" replaced TEXTURE1's WALL
    let wall = tbl.get("WALL").unwrap();
    assert_eq!((wall.w, wall.h), (2, 1));
    assert_eq!(wall.pix, vec![pal[1], pal[2]]);
    // a placement of a patch no lump carries leaves the canvas blank
    let ghost = tbl.get("GHOST").unwrap();
    assert_eq!(ghost.pix, vec![0, 0, 0, 0]);
    assert_eq!(tbl.get("CHECKER").unwrap().w, 64);
}

#[test]
fn flats_between_markers_only() {
    let wad = Wad::from_bytes(build_wad(&[
        ("PLAYPAL", palette()),
        ("OUTSIDE", vec![1; 4096]),
        ("F_START", vec![]),
        ("FLAT1", vec![2; 4096]),
        ("SHORT", vec![2; 100]),
        ("F_END", vec![]),
        ("FLAT2", vec![3; 4096]),
        ("FF_START", vec![]),
        ("FLAT1", vec![4; 4096]),
        ("FF_END", vec![]),
    ]))
    .unwrap();
    let pal = load_palette(&wad);
    let flats = build_flats(&wad, &pal);
    assert_eq!(flats.len(), 2);
    assert_eq!(flats.get("FLAT1").unwrap().pix[100], pal[4]);
    assert!(flats.get("OUTSIDE").is_none());
    assert!(flats.get("SHORT").is_none());
    assert!(flats.get("FLAT2").is_none());
    assert_eq!(flats.get("CHECKER").unwrap().pix[0], 0x007F7FFF);
}
