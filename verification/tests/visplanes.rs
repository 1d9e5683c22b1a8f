use yadoom_rs::planes::{PlaneMap, NO_PLANE};

#[test]
fn new_planes_get_consecutive_ids() {
    let mut map = PlaneMap::new(8);
    let a = map.find(0, 3, 160, 0, 3);
    let b = map.find(64, 3, 160, 2, 5);
    assert_eq!((a, b), (0, 1));
    assert_eq!(map.len(), 2);
    let p = map.get(b).unwrap();
    assert_eq!((p.height, p.tex, p.light, p.min_x, p.max_x), (64, 3, 160, 2, 5));
    assert_eq!(p.top, vec![u16::MAX; 8]);
    assert_eq!(p.bottom, vec![0u16; 8]);
    assert!(!p.modified);
}

#[test]
fn same_key_span_widens_undrawn_plane() {
    let mut map = PlaneMap::new(10);
    let a = map.find(0, 1, 100, 2, 4);
    // overlapping columns not drawn yet: same plane, widened
    let b = map.find(0, 1, 100, 3, 7);
    assert_eq!(a, b);
    let p = map.get(a).unwrap();
    assert_eq!((p.min_x, p.max_x), (2, 7));
    assert_eq!(map.len(), 1);
}

#[test]
fn drawn_column_forces_a_new_plane() {
    let mut map = PlaneMap::new(10);
    let a = map.find(0, 1, 100, 2, 4);
    map.get(a).unwrap().top[3] = 50;
    // shares column 3, which was drawn into
    let b = map.find(0, 1, 100, 3, 6);
    assert_eq!(b, 1);
    // shares no drawn column: reuses plane 0
    let c = map.find(0, 1, 100, 5, 9);
    assert_eq!(c, 0);
    assert_eq!((map.get(0).unwrap().min_x, map.get(0).unwrap().max_x), (2, 9));
    // a different light never shares
    let d = map.find(0, 1, 101, 0, 1);
    assert_eq!(d, 2);
}

#[test]
fn get_rejects_unknown_ids_and_clear_forgets() {
    let mut map = PlaneMap::new(4);
    assert!(map.get(NO_PLANE).is_none());
    assert!(map.get(0).is_none());
    map.find(1, 1, 1, 0, 0);
    assert!(map.get(0).is_some());
    assert_eq!(map.iter().count(), 1);
    map.clear(6);
    assert_eq!(map.len(), 0);
    assert_eq!(map.find(1, 1, 1, 0, 5), 0);
    assert_eq!(map.get(0).unwrap().top.len(), 6);
}

#[test]
fn same_span_twice_gives_same_plane() {
    let mut map = PlaneMap::new(16);
    map.find(0, 1, 100, 0, 3);
    let a = map.find(8, 2, 120, 4, 9);
    let before: Vec<(u16, u16)> = map.iter().map(|p| (p.min_x, p.max_x)).collect();
    let b = map.find(8, 2, 120, 4, 9);
    let after: Vec<(u16, u16)> = map.iter().map(|p| (p.min_x, p.max_x)).collect();
    assert_eq!(a, b);
    assert_eq!(before, after);
    assert_eq!(map.len(), 2);
}

#[test]
fn default_map_is_empty() {
    let mut map = PlaneMap::default();
    assert_eq!(map.len(), 0);
    let id = map.find(0, 0, 0, 0, 0);
    assert_eq!(id, 0);
    assert!(map.get(id).unwrap().top.is_empty());
}
