use ivac::cam::waterline::nest_loops;

type Point = (f64, f64);
type Loop = Vec<Point>;

/// An axis-aligned rectangle loop, counter-clockwise.
fn rect(x0: f64, y0: f64, x1: f64, y1: f64) -> Loop {
    vec![(x0, y0), (x1, y0), (x1, y1), (x0, y1)]
}

/// Even-odd point-in-polygon test.
fn point_in_polygon(poly: &[Point], x: f64, y: f64) -> bool {
    let n = poly.len();
    let mut inside = false;
    let mut j = n - 1;
    for i in 0..n {
        let (xi, yi) = poly[i];
        let (xj, yj) = poly[j];
        if (yi > y) != (yj > y) && x < (xj - xi) * (y - yi) / (yj - yi) + xi {
            inside = !inside;
        }
        j = i;
    }
    inside
}

fn loop_inside(inner: &[Point], outer: &[Point]) -> bool {
    inner.len() >= 3 && outer.len() >= 3 && point_in_polygon(outer, inner[0].0, inner[0].1)
}

/// Nest the loops of one level: the containment of each pair decided in
/// floating point, the regions by the library.
fn nest(loops: &[Loop]) -> Vec<(Loop, Vec<Loop>)> {
    let n = loops.len();
    let inside: Vec<Vec<bool>> = (0..n)
        .map(|i| (0..n).map(|j| i != j && loop_inside(&loops[i], &loops[j])).collect())
        .collect();
    let usable: Vec<bool> = loops.iter().map(|l| l.len() >= 3).collect();
    nest_loops(&inside, &usable)
        .into_iter()
        .map(|(b, hs)| (loops[b].clone(), hs.into_iter().map(|h| loops[h].clone()).collect()))
        .collect()
}

#[test]
fn nest_single_solid_has_no_holes() {
    let regions = nest(&[rect(0.0, 0.0, 10.0, 10.0)]);
    assert_eq!(regions.len(), 1);
    assert!(regions[0].1.is_empty());
}

#[test]
fn nest_annulus_is_one_region_with_one_hole() {
    let outer = rect(0.0, 0.0, 20.0, 20.0);
    let inner = rect(6.0, 6.0, 14.0, 14.0);
    let regions = nest(&[outer, inner.clone()]);
    assert_eq!(regions.len(), 1, "the outer solid is the only region");
    assert_eq!(regions[0].1.len(), 1);
    assert_eq!(regions[0].1[0], inner, "the inner loop is the hole");
}

#[test]
fn nest_disjoint_solids_are_two_regions() {
    let a = rect(0.0, 0.0, 5.0, 5.0);
    let b = rect(20.0, 20.0, 25.0, 25.0);
    let regions = nest(&[b, a]);
    assert_eq!(regions.len(), 2);
    assert!(regions.iter().all(|r| r.1.is_empty()));
}

#[test]
fn nest_boss_in_cavity_becomes_its_own_region() {
    let outer = rect(0.0, 0.0, 30.0, 30.0);
    let cavity = rect(6.0, 6.0, 24.0, 24.0);
    let boss = rect(12.0, 12.0, 18.0, 18.0);
    let regions = nest(&[outer, cavity.clone(), boss.clone()]);
    assert_eq!(regions.len(), 2);
    let outer_reg = regions.iter().find(|r| r.0[0] == (0.0, 0.0)).unwrap();
    assert_eq!(outer_reg.1, vec![cavity], "outer's only hole is the cavity");
    let boss_reg = regions.iter().find(|r| r.0 == boss).unwrap();
    assert!(boss_reg.1.is_empty(), "the boss is a solid with no holes");
}

#[test]
fn every_odd_depth_loop_is_a_hole_of_exactly_one_region() {
    // Depths 0, 1, 2, 3 nested, plus a lone solid and a hole in it.
    let loops = vec![
        rect(0.0, 0.0, 40.0, 40.0),
        rect(4.0, 4.0, 36.0, 36.0),
        rect(8.0, 8.0, 32.0, 32.0),
        rect(12.0, 12.0, 28.0, 28.0),
        rect(50.0, 0.0, 60.0, 10.0),
        rect(52.0, 2.0, 58.0, 8.0),
    ];
    let n = loops.len();
    let inside: Vec<Vec<bool>> = (0..n)
        .map(|i| (0..n).map(|j| i != j && loop_inside(&loops[i], &loops[j])).collect())
        .collect();
    let usable = vec![true; n];
    let regions = nest_loops(&inside, &usable);
    for i in 0..n {
        let depth = (0..n).filter(|&j| inside[i][j]).count();
        let listed = regions.iter().filter(|(_, hs)| hs.contains(&i)).count();
        assert_eq!(listed, if depth % 2 == 1 { 1 } else { 0 }, "loop {i} at depth {depth}");
    }
    assert_eq!(regions.len(), 3);
}
