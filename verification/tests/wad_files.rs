use yadoom_rs::level::{LevelError, RawVertex};
use yadoom_rs::wad::{LumpInfo, Wad, WadError};

/// Lay out an IWAD: header, the lumps back to back, then the directory.
fn build_wad(lumps: &[(&str, Vec<u8>)]) -> Vec<u8> {
    let mut data: Vec<u8> = Vec::new();
    let mut dir: Vec<(u32, u32, [u8; 8])> = Vec::new();
    let mut off: u32 = 12;
    for (name, bytes) in lumps {
        let mut nm = [0u8; 8];
        for (i, b) in name.bytes().enumerate() {
            nm[i] = b;
        }
        dir.push((off, bytes.len() as u32, nm));
        data.extend_from_slice(bytes);
        off += bytes.len() as u32;
    }
    let mut out: Vec<u8> = Vec::new();
    out.extend_from_slice(b"IWAD");
    out.extend_from_slice(&(lumps.len() as u32).to_le_bytes());
    out.extend_from_slice(&off.to_le_bytes());
    out.extend_from_slice(&data);
    for (o, s, nm) in dir {
        out.extend_from_slice(&o.to_le_bytes());
        out.extend_from_slice(&s.to_le_bytes());
        out.extend_from_slice(&nm);
    }
    out
}

fn le16(v: i16) -> [u8; 2] {
    v.to_le_bytes()
}

/// The eight lumps of a small map: `nverts` vertices, the first thing a
/// player 1 start.
fn map_lumps(marker: &str, nverts: usize) -> Vec<(String, Vec<u8>)> {
    let mut things = Vec::new();
    for t in [1i16, 3004] {
        things.extend_from_slice(&le16(64));
        things.extend_from_slice(&le16(-32));
        things.extend_from_slice(&le16(90));
        things.extend_from_slice(&le16(t));
        things.extend_from_slice(&le16(7));
    }
    let mut linedefs = Vec::new();
    for v in [0i16, 1, 0, 0, 0, 0, -1] {
        linedefs.extend_from_slice(&le16(v));
    }
    let mut sidedefs = Vec::new();
    sidedefs.extend_from_slice(&le16(0));
    sidedefs.extend_from_slice(&le16(0));
    sidedefs.extend_from_slice(b"STARTAN3");
    sidedefs.extend_from_slice(b"-\0\0\0\0\0\0\0");
    sidedefs.extend_from_slice(b"STARTAN3");
    sidedefs.extend_from_slice(&le16(0));
    let mut vertexes = Vec::new();
    for i in 0..nverts {
        vertexes.extend_from_slice(&le16(i as i16));
        vertexes.extend_from_slice(&le16(-(i as i16)));
    }
    let segs = vec![0u8; 12];
    let mut ssectors = Vec::new();
    ssectors.extend_from_slice(&le16(1));
    ssectors.extend_from_slice(&le16(0));
    let nodes = vec![0u8; 28];
    let mut sectors = Vec::new();
    sectors.extend_from_slice(&le16(0));
    sectors.extend_from_slice(&le16(128));
    sectors.extend_from_slice(b"FLOOR4_8");
    sectors.extend_from_slice(b"NOSUCH\0\0");
    sectors.extend_from_slice(&le16(160));
    sectors.extend_from_slice(&le16(0));
    sectors.extend_from_slice(&le16(0));
    vec![
        (marker.to_string(), Vec::new()),
        ("THINGS".to_string(), things),
        ("LINEDEFS".to_string(), linedefs),
        ("SIDEDEFS".to_string(), sidedefs),
        ("VERTEXES".to_string(), vertexes),
        ("SEGS".to_string(), segs),
        ("SSECTORS".to_string(), ssectors),
        ("NODES".to_string(), nodes),
        ("SECTORS".to_string(), sectors),
    ]
}

/// A WAD in the shape of the shareware IWAD: palette, title picture, one
/// map, and filler lumps up to `total` directory entries.
fn doom_like_wad(total: usize) -> Wad {
    let mut lumps: Vec<(String, Vec<u8>)> = Vec::new();
    let mut pal = Vec::new();
    for i in 0..256u32 {
        pal.push(i as u8);
        pal.push((255 - i) as u8);
        pal.push((i / 2) as u8);
    }
    lumps.push(("PLAYPAL".to_string(), pal));
    lumps.push(("TITLEPIC".to_string(), vec![7u8; 68168]));
    lumps.extend(map_lumps("E1M1", 467));
    let mut k = 0;
    while lumps.len() < total {
        lumps.push((format!("FILL{}", k), vec![k as u8; 3]));
        k += 1;
    }
    let refs: Vec<(&str, Vec<u8>)> = lumps.iter().map(|(n, b)| (n.as_str(), b.clone())).collect();
    Wad::from_bytes(build_wad(&refs)).unwrap()
}

#[test]
fn opens_header() {
    let wad = doom_like_wad(120);
    assert!(wad.lumps.len() > 100);
}

#[test]
fn find_lump_by_name() {
    let wad = doom_like_wad(120);
    let idx = wad.find_lump("PLAYPAL").expect("PLAYPAL not found");
    assert_eq!(Wad::lump_name_str(&wad.lumps[idx].name), "PLAYPAL");
}

#[test]
fn titlepic_reasonable_size() {
    let wad = doom_like_wad(120);
    let idx = wad.find_lump("TITLEPIC").unwrap();
    let size = wad.lumps[idx].size;
    assert!((64_000..200_000).contains(&size));
}

#[test]
fn byte_slice_len_matches_dir() {
    let wad = doom_like_wad(120);
    for (i, l) in wad.lumps.iter().enumerate() {
        assert_eq!(wad.lump_bytes(i).unwrap().len() as u32, l.size);
    }
}

#[test]
fn lump_to_vec_roundtrip() {
    // hand-craft lump [ (1,2), (3,4) ]
    let bytes = [1i16, 2, 3, 4].iter().flat_map(|v| v.to_le_bytes()).collect::<Vec<_>>();

    let wad = Wad {
        lumps: vec![LumpInfo { name: *b"FOO\0\0\0\0\0", offset: 12, size: bytes.len() as u32 }],
        bytes: {
            let mut v = vec![0u8; 12];
            v.extend(&bytes);
            v
        },
    };

    let v: Vec<RawVertex> = wad.lump_to_vec(0).unwrap();
    assert_eq!(v.len(), 2);
    assert_eq!((v[0].x, v[0].y), (1, 2));
    assert_eq!((v[1].x, v[1].y), (3, 4));
}

#[test]
fn first_map_parses() {
    let wad = doom_like_wad(120);
    let m0 = wad.level_indices()[0];
    let lvl = wad.parse_level(m0).expect("level decode");
    assert!(lvl.vertices.len() > 100);
    assert_eq!(lvl.things.first().unwrap().type_, 1); // Player 1 start
}

#[test]
fn bad_marker_oob() {
    let wad = doom_like_wad(120);
    let err = wad.parse_level(wad.lumps().len() + 10).unwrap_err();
    assert!(matches!(err, LevelError::MarkerOob(_)));
}

#[test]
fn missing_things_guard() {
    let wad = doom_like_wad(120);
    // The second lump after the map marker (LINEDEFS) is no marker:
    // parse_level complains that THINGS is missing.
    let idx = wad.level_indices()[0] + 2;
    let err = wad.parse_level(idx).unwrap_err();
    assert!(matches!(err, LevelError::Missing("THINGS")));
}

/*──────────────────────── header and directory errors ───────────────────*/

#[test]
fn short_file_is_unexpected_eof() {
    assert!(matches!(Wad::from_bytes(b"IW".to_vec()), Err(WadError::UnexpectedEof)));
    assert!(matches!(Wad::from_bytes(b"IWAD\x01\0\0\0".to_vec()), Err(WadError::UnexpectedEof)));
}

#[test]
fn pwad_magic_is_rejected() {
    let mut bytes = build_wad(&[("A", vec![1, 2])]);
    bytes[0] = b'P';
    assert!(matches!(Wad::from_bytes(bytes), Err(WadError::BadMagic)));
}

#[test]
fn directory_past_end_is_rejected() {
    let mut bytes = build_wad(&[("A", vec![1, 2])]);
    bytes[4] = 2; // two entries announced, one present
    assert!(matches!(Wad::from_bytes(bytes), Err(WadError::DirectoryOutOfBounds)));
}

#[test]
fn lump_past_end_is_bad_offset() {
    let mut bytes = build_wad(&[("A", vec![1, 2]), ("BIG", vec![3, 4])]);
    let n = bytes.len();
    // size field of the second directory entry
    bytes[n - 16 + 4] = 200;
    match Wad::from_bytes(bytes) {
        Err(WadError::BadOffset { index, name, offset, size, file_size }) => {
            assert_eq!(index, 1);
            assert_eq!(name, "BIG");
            assert_eq!(offset, 14);
            assert_eq!(size, 200);
            assert_eq!(file_size, n);
        }
        other => panic!("unexpected {:?}", other),
    }
}

#[test]
fn directory_fields_are_little_endian() {
    let bytes = build_wad(&[("AB", vec![9; 300]), ("CD", vec![1; 5])]);
    let wad = Wad::from_bytes(bytes).unwrap();
    assert_eq!(wad.lumps().len(), 2);
    assert_eq!(wad.lumps()[0].offset, 12);
    assert_eq!(wad.lumps()[0].size, 300);
    assert_eq!(wad.lumps()[1].offset, 312);
    assert_eq!(wad.lumps()[1].size, 5);
}

#[test]
fn lump_index_out_of_range() {
    let wad = Wad::from_bytes(build_wad(&[("A", vec![1, 2])])).unwrap();
    assert!(matches!(wad.lump_bytes(5), Err(WadError::BadIndex(5))));
}

#[test]
fn record_size_mismatch_is_bad_lump_size() {
    let wad = Wad::from_bytes(build_wad(&[("ODD", vec![1, 2, 3, 4, 5, 6])])).unwrap();
    match wad.lump_to_vec::<RawVertex>(0) {
        Err(WadError::BadLumpSize { index, name, size, elem_size }) => {
            assert_eq!((index, size, elem_size), (0, 6, 4));
            assert_eq!(name, "ODD");
        }
        other => panic!("unexpected {:?}", other.map(|v| v.len())),
    }
    let empty = Wad::from_bytes(build_wad(&[("NIL", vec![])])).unwrap();
    assert!(matches!(empty.lump_to_vec::<RawVertex>(0), Err(WadError::BadLumpSize { size: 0, .. })));
}

#[test]
fn find_lump_prefers_last_and_is_case_sensitive() {
    let wad = Wad::from_bytes(build_wad(&[("DUP", vec![1]), ("X", vec![2]), ("DUP", vec![3])])).unwrap();
    assert_eq!(wad.find_lump("DUP"), Some(2));
    assert_eq!(wad.find_lump("dup"), None);
    assert_eq!(wad.find_lump("NONE"), None);
}

#[test]
fn lump_names_stop_at_nul_and_reject_bad_utf8() {
    assert_eq!(Wad::lump_name_str(b"E1M1\0\0\0\0"), "E1M1");
    assert_eq!(Wad::lump_name_str(b"ABCDEFGH"), "ABCDEFGH");
    assert_eq!(Wad::lump_name_str(b"\xff\xfe\0\0\0\0\0\0"), "?");
}

#[test]
fn level_indices_find_both_marker_styles() {
    let mut lumps: Vec<(String, Vec<u8>)> = Vec::new();
    lumps.push(("E1M1X".to_string(), Vec::new()));
    lumps.extend(map_lumps("E1M1", 3));
    lumps.push(("E5M1".to_string(), Vec::new()));
    lumps.push(("MAP07".to_string(), Vec::new()));
    lumps.push(("E2M3".to_string(), vec![1]));
    let refs: Vec<(&str, Vec<u8>)> = lumps.iter().map(|(n, b)| (n.as_str(), b.clone())).collect();
    let wad = Wad::from_bytes(build_wad(&refs)).unwrap();
    assert_eq!(wad.level_indices(), vec![1, 11]);
}

#[test]
fn undecodable_map_lump_is_wad_error() {
    let mut lumps = map_lumps("MAP01", 3);
    lumps[4].1.push(0); // VERTEXES no longer a multiple of 4
    let refs: Vec<(&str, Vec<u8>)> = lumps.iter().map(|(n, b)| (n.as_str(), b.clone())).collect();
    let wad = Wad::from_bytes(build_wad(&refs)).unwrap();
    match wad.parse_level(0) {
        Err(LevelError::Wad(WadError::BadLumpSize { index: 4, size: 13, elem_size: 4, .. })) => {}
        other => panic!("unexpected {:?}", other.map(|l| l.name)),
    }
}

#[test]
fn parsed_map_fields_match_bytes() {
    let lumps = map_lumps("E1M1", 3);
    let refs: Vec<(&str, Vec<u8>)> = lumps.iter().map(|(n, b)| (n.as_str(), b.clone())).collect();
    let wad = Wad::from_bytes(build_wad(&refs)).unwrap();
    let lvl = wad.parse_level(0).unwrap();
    assert_eq!(lvl.name, "E1M1");
    assert_eq!(lvl.things.len(), 2);
    assert_eq!((lvl.things[1].x, lvl.things[1].y, lvl.things[1].angle, lvl.things[1].type_), (64, -32, 90, 3004));
    assert_eq!(lvl.linedefs[0].sidenum, [0, -1]);
    assert_eq!(&lvl.sidedefs[0].top_tex, b"STARTAN3");
    assert_eq!((lvl.vertices[2].x, lvl.vertices[2].y), (2, -2));
    assert_eq!(lvl.subsectors[0].seg_count, 1);
    assert_eq!(lvl.sectors[0].ceil_h, 128);
    assert_eq!(lvl.sectors[0].light, 160);
}
