use yadoom_rs::clip::{add_solid_seg, init_solid_segs, ClipRange};
use yadoom_rs::raster::draw_line;
use yadoom_rs::scratch::{next_power_of_two, FrameScratch};

/// Regression test for the "new_last not updated" bug in add_solid_seg().
#[test]
fn merge_chain_of_touching_spans() {
    // helper: build the initial solid-seg list
    let mut segs = vec![
        ClipRange { first: 0, last: 5 },
        ClipRange { first: 8, last: 12 },
        ClipRange { first: 13, last: 20 },
    ];

    // new wall span that should close BOTH gaps (5-6 and 12-13)
    add_solid_seg(&mut segs, 6, 9);

    // after the fix we expect ONE merged span covering 0..20
    let expected = vec![ClipRange { first: 0, last: 20 }];
    assert_eq!(segs, expected, "solid_segs should be fully coalesced after inserting a bridging span");
}

#[test]
fn sentinels_bracket_the_screen() {
    let mut segs = vec![ClipRange { first: 3, last: 4 }];
    init_solid_segs(&mut segs, 320);
    assert_eq!(segs, vec![ClipRange { first: -320, last: -1 }, ClipRange { first: 320, last: 640 }]);
}

#[test]
fn spans_insert_in_order_and_merge() {
    let mut segs = Vec::new();
    init_solid_segs(&mut segs, 100);
    add_solid_seg(&mut segs, 10, 20);
    add_solid_seg(&mut segs, 40, 50);
    assert_eq!(
        segs,
        vec![
            ClipRange { first: -100, last: -1 },
            ClipRange { first: 10, last: 20 },
            ClipRange { first: 40, last: 50 },
            ClipRange { first: 100, last: 200 },
        ]
    );
    // swallowed span: nothing changes
    add_solid_seg(&mut segs, 12, 18);
    assert_eq!(segs.len(), 4);
    // touching the left sentinel and the first span
    add_solid_seg(&mut segs, 0, 9);
    assert_eq!(segs[0], ClipRange { first: -100, last: 20 });
    assert_eq!(segs.len(), 3);
    // fill the rest of the screen
    add_solid_seg(&mut segs, 21, 99);
    assert_eq!(segs, vec![ClipRange { first: -100, last: 200 }]);
}

#[test]
fn horizontal_line_plots_every_column() {
    let mut buf = vec![0u32; 5 * 3];
    draw_line(&mut buf, 5, 3, 0, 1, 4, 1, 9);
    assert_eq!(buf, vec![0, 0, 0, 0, 0, 9, 9, 9, 9, 9, 0, 0, 0, 0, 0]);
}

#[test]
fn diagonal_and_reverse_lines() {
    let mut buf = vec![0u32; 4 * 4];
    draw_line(&mut buf, 4, 4, 3, 3, 0, 0, 1);
    for i in 0..4 {
        assert_eq!(buf[i * 4 + i], 1);
    }
    assert_eq!(buf.iter().filter(|&&c| c == 1).count(), 4);
    let mut buf = vec![0u32; 4 * 4];
    draw_line(&mut buf, 4, 4, 0, 3, 3, 0, 2);
    assert_eq!(buf[3 * 4], 2);
    assert_eq!(buf[3], 2);
    assert_eq!(buf.iter().filter(|&&c| c == 2).count(), 4);
}

#[test]
fn steep_line_has_no_gaps() {
    let mut buf = vec![0u32; 3 * 7];
    draw_line(&mut buf, 3, 7, 0, 0, 2, 6, 5);
    for y in 0..7 {
        let row = &buf[y * 3..y * 3 + 3];
        assert_eq!(row.iter().filter(|&&c| c == 5).count(), 1, "row {}", y);
    }
    assert_eq!(buf[0], 5);
    assert_eq!(buf[6 * 3 + 2], 5);
}

#[test]
fn points_outside_the_buffer_are_skipped() {
    let mut buf = vec![7u32; 3 * 3];
    draw_line(&mut buf, 3, 3, -2, 1, 5, 1, 4);
    assert_eq!(buf, vec![7, 7, 7, 4, 4, 4, 7, 7, 7]);
    let mut buf = vec![7u32; 3 * 3];
    draw_line(&mut buf, 3, 3, 10, 10, 12, 12, 4);
    assert_eq!(buf, vec![7u32; 9]);
}

#[test]
fn single_point_line() {
    let mut buf = vec![0u32; 4];
    draw_line(&mut buf, 2, 2, 1, 1, 1, 1, 3);
    assert_eq!(buf, vec![0, 0, 0, 3]);
}

#[test]
fn powers_of_two() {
    assert_eq!(next_power_of_two(0), 1);
    assert_eq!(next_power_of_two(1), 1);
    assert_eq!(next_power_of_two(5), 8);
    assert_eq!(next_power_of_two(64), 64);
    assert_eq!(next_power_of_two(65), 128);
}

#[test]
fn scratch_hands_out_consecutive_ranges() {
    let mut s = FrameScratch::default();
    assert_eq!(s.allocate(3), 0..3);
    assert_eq!(s.allocate(5), 3..8);
    assert_eq!(s.allocate(0), 8..8);
    s.reset();
    assert_eq!(s.allocate(2), 0..2);
}
