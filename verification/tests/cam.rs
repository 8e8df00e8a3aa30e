use ivac::cam::raster::{bayer_indices, bayer_side, RasterLink};
use ivac::cam::surface::Deviation;
use ivac::cam::waterline::nest_loops;
use ivac::cam::winding::{apply_cut_direction, enforce_winding, AreaSign, ContourKind, CutContext, CutDirection, OffsetShape};
use ivac::gcode::{SpindleDirection, ToolOffset};
use CutDirection::{Climb, Conventional};
use SpindleDirection::{Ccw, Cw};

#[test]
fn bayer_indices_match_classic_4x4() {
    let expected = vec![0, 8, 2, 10, 12, 4, 14, 6, 3, 11, 1, 9, 15, 7, 13, 5];
    assert_eq!(bayer_indices(4), expected);
}

#[test]
fn bayer_small_and_degenerate_sides() {
    assert_eq!(bayer_indices(0), vec![0]);
    assert_eq!(bayer_indices(1), vec![0]);
    assert_eq!(bayer_indices(2), vec![0, 2, 3, 1]);
    assert_eq!(bayer_indices(3), vec![0, 2, 0, 3, 1, 0, 0, 0, 0]);
    let m8 = bayer_indices(8);
    let mut sorted = m8.clone();
    sorted.sort();
    assert_eq!(sorted, (0..64).collect::<Vec<u32>>());
}

#[test]
fn raster_and_deviation_enums() {
    assert_eq!(RasterLink::default(), RasterLink::LiftBetween);
    assert_eq!(Deviation::OnTarget.wire_value(), 0);
    assert_eq!(Deviation::Gouge.wire_value(), 1);
    assert_eq!(Deviation::RestStock.wire_value(), 2);
}

#[test]
fn winding_truth_table() {
    // Right-hand spindle, conventional: inner wants CCW, outer CW.
    assert!(!enforce_winding(true, AreaSign::Ccw, CutContext::Inner, Conventional, Cw));
    assert!(enforce_winding(true, AreaSign::Cw, CutContext::Inner, Conventional, Cw));
    assert!(enforce_winding(true, AreaSign::Ccw, CutContext::Outer, Conventional, Cw));
    assert!(!enforce_winding(true, AreaSign::Ccw, CutContext::Outer, Climb, Cw));
    // Left-hand spindle flips.
    assert!(enforce_winding(true, AreaSign::Ccw, CutContext::Inner, Conventional, Ccw));
    // Open, skipped or degenerate offsets are never reversed.
    assert!(!enforce_winding(false, AreaSign::Cw, CutContext::Inner, Conventional, Cw));
    assert!(!enforce_winding(true, AreaSign::Cw, CutContext::Skip, Conventional, Cw));
    assert!(!enforce_winding(true, AreaSign::Degenerate, CutContext::Inner, Conventional, Cw));
}

#[test]
fn cut_direction_per_offset() {
    let offs = [
        OffsetShape { closed: true, area: AreaSign::Ccw, finishing: true },
        OffsetShape { closed: true, area: AreaSign::Cw, finishing: false },
        OffsetShape { closed: false, area: AreaSign::Cw, finishing: false },
    ];
    let pocket = apply_cut_direction(&offs, ContourKind::Pocket, CutDirection::Climb, CutDirection::Conventional, SpindleDirection::Cw);
    // Finish pass: inner + conventional wants CCW (kept); island ring: outer + climb wants CCW (reversed).
    assert_eq!(pocket, vec![false, true, false]);
    let on_line = apply_cut_direction(&offs, ContourKind::Profile(ToolOffset::On), CutDirection::Climb, CutDirection::Climb, SpindleDirection::Cw);
    assert_eq!(on_line, vec![false, false, false]);
    let outside = apply_cut_direction(&offs, ContourKind::Profile(ToolOffset::Outside), CutDirection::Conventional, CutDirection::Conventional, SpindleDirection::Cw);
    assert_eq!(outside, vec![true, false, false]);
}

fn no(n: usize) -> Vec<Vec<bool>> {
    vec![vec![false; n]; n]
}

#[test]
fn nest_single_loop_is_one_region() {
    let r = nest_loops(&no(1), &vec![true]);
    assert_eq!(r, vec![(0, vec![])]);
}

#[test]
fn nest_annulus_and_boss_in_cavity() {
    // 0 outer, 1 cavity inside 0, 2 boss inside 0 and 1.
    let mut m = no(3);
    m[1][0] = true;
    m[2][0] = true;
    m[2][1] = true;
    let r = nest_loops(&m, &vec![true, true, true]);
    assert_eq!(r, vec![(0, vec![1]), (2, vec![])]);
    // Two disjoint solids, given in reverse order.
    let r = nest_loops(&no(2), &vec![true, true]);
    assert_eq!(r, vec![(0, vec![]), (1, vec![])]);
    // A loop unusable as a boundary is no region.
    let r = nest_loops(&no(2), &vec![false, true]);
    assert_eq!(r, vec![(1, vec![])]);
}

#[test]
fn bayer_side_falls_back_to_4() {
    assert_eq!(bayer_side(2), 2);
    assert_eq!(bayer_side(4), 4);
    assert_eq!(bayer_side(8), 8);
    assert_eq!(bayer_side(3), 4);
    assert_eq!(bayer_side(0), 4);
    assert_eq!(bayer_side(16), 4);
}
