//! Waterline roughing: sorting the contours sliced at one Z level into
//! solid regions with their holes, from which contour lies inside which.

use vstd::prelude::*;

verus! {

/// Whether loop `i` lies inside loop `j` (a loop never contains itself).
pub open spec fn contained(inside: Seq<Seq<bool>>, i: int, j: int) -> bool {
    i != j && inside[i][j]
}

/// How many of the loops `0..k` contain loop `i`.
pub open spec fn depth_upto(inside: Seq<Seq<bool>>, i: int, k: int) -> nat
    decreases k,
{
    if k <= 0 {
        0
    } else {
        depth_upto(inside, i, k - 1) + if contained(inside, i, k - 1) {
            1nat
        } else {
            0nat
        }
    }
}

/// How many loops contain loop `i`.
pub open spec fn depth(inside: Seq<Seq<bool>>, i: int) -> nat {
    depth_upto(inside, i, inside.len() as int)
}

/// The innermost container of `i` among loops `0..k`: the deepest one, a
/// later loop winning a tie.
pub open spec fn parent_upto(inside: Seq<Seq<bool>>, i: int, k: int) -> Option<int>
    decreases k,
{
    if k <= 0 {
        None
    } else {
        let p = parent_upto(inside, i, k - 1);
        let j = k - 1;
        if contained(inside, i, j) && (p is None || depth(inside, j) >= depth(inside, p->0)) {
            Some(j)
        } else {
            p
        }
    }
}

/// The innermost container of loop `i`, if any.
pub open spec fn parent(inside: Seq<Seq<bool>>, i: int) -> Option<int> {
    parent_upto(inside, i, inside.len() as int)
}

/// The loops among `0..k` whose innermost container is `s`.
pub open spec fn holes_upto(inside: Seq<Seq<bool>>, s: int, k: int) -> Seq<usize>
    decreases k,
{
    if k <= 0 {
        Seq::empty()
    } else if parent(inside, k - 1) == Some(s) {
        holes_upto(inside, s, k - 1).push((k - 1) as usize)
    } else {
        holes_upto(inside, s, k - 1)
    }
}

/// The regions among loops `0..k`: each loop inside an even number of
/// others (and usable as a boundary) with the loops it immediately
/// contains as holes.
pub open spec fn regions_upto(inside: Seq<Seq<bool>>, usable: Seq<bool>, k: int) -> Seq<
    (usize, Seq<usize>),
>
    decreases k,
{
    if k <= 0 {
        Seq::empty()
    } else if depth(inside, k - 1) % 2 == 0 && usable[k - 1] {
        regions_upto(inside, usable, k - 1).push(
            ((k - 1) as usize, holes_upto(inside, k - 1, inside.len() as int)),
        )
    } else {
        regions_upto(inside, usable, k - 1)
    }
}

pub open spec fn regions_view(r: Seq<(usize, Vec<usize>)>) -> Seq<(usize, Seq<usize>)> {
    r.map_values(|e: (usize, Vec<usize>)| (e.0, e.1@))
}

pub open spec fn square(inside: Seq<Vec<bool>>) -> bool {
    forall|i: int| 0 <= i < inside.len() ==> (#[trigger] inside[i])@.len() == inside.len()
}

pub open spec fn matrix(inside: Seq<Vec<bool>>) -> Seq<Seq<bool>> {
    inside.map_values(|r: Vec<bool>| r@)
}

/// Sort the loops of one Z level into solid regions by even-odd
/// containment, given `inside[i][j]` (loop `i` lies inside loop `j`) and
/// which loops are usable as a boundary: a loop inside an even number of
/// others is a region's boundary, and its holes are the loops whose
/// innermost container it is. Regions come in loop order, as
/// `(boundary, holes)` indices.
pub fn nest_loops(inside: &Vec<Vec<bool>>, usable: &Vec<bool>) -> (r: Vec<(usize, Vec<usize>)>)
    requires
        square(inside@),
        usable@.len() == inside@.len(),
    ensures
        regions_view(r@) == regions_upto(matrix(inside@), usable@, inside@.len() as int),
{
    let n = inside.len();
    let ghost m = matrix(inside@);
    // depth[i] = how many loops contain loop i.
    let mut depth_v: Vec<usize> = Vec::new();
    let mut i: usize = 0;
    while i < n
        invariant
            n == inside@.len(),
            m == matrix(inside@),
            square(inside@),
            i <= n,
            depth_v@.len() == i,
            forall|k: int| 0 <= k < i ==> #[trigger] depth_v@[k] as nat == depth(m, k),
        decreases n - i,
    {
        let mut c: usize = 0;
        let mut j: usize = 0;
        while j < n
            invariant
                n == inside@.len(),
                m == matrix(inside@),
                square(inside@),
                i < n,
                j <= n,
                c <= j,
                c as nat == depth_upto(m, i as int, j as int),
            decreases n - j,
        {
            proof {
                assert(inside@[i as int]@.len() == n);
                assert(m[i as int] == inside@[i as int]@);
            }
            if j != i && inside[i][j] {
                c = c + 1;
            }
            j = j + 1;
        }
        depth_v.push(c);
        i = i + 1;
    }
    // parent[i] = the deepest container of loop i, later winning ties.
    let mut parent_v: Vec<Option<usize>> = Vec::new();
    let mut i: usize = 0;
    while i < n
        invariant
            n == inside@.len(),
            m == matrix(inside@),
            square(inside@),
            i <= n,
            depth_v@.len() == n,
            forall|k: int| 0 <= k < n ==> #[trigger] depth_v@[k] as nat == depth(m, k),
            parent_v@.len() == i,
            forall|k: int|
                0 <= k < i ==> match #[trigger] parent_v@[k] {
                    Some(p) => parent(m, k) == Some(p as int),
                    None => parent(m, k) is None,
                },
        decreases n - i,
    {
        let mut best: Option<usize> = None;
        let mut best_depth: usize = 0;
        let mut j: usize = 0;
        while j < n
            invariant
                n == inside@.len(),
                m == matrix(inside@),
                square(inside@),
                i < n,
                j <= n,
                depth_v@.len() == n,
                forall|k: int| 0 <= k < n ==> #[trigger] depth_v@[k] as nat == depth(m, k),
                match best {
                    Some(p) => parent_upto(m, i as int, j as int) == Some(p as int) && p < n
                        && best_depth as nat == depth(m, p as int),
                    None => parent_upto(m, i as int, j as int) is None,
                },
            decreases n - j,
        {
            proof {
                assert(inside@[i as int]@.len() == n);
                assert(m[i as int] == inside@[i as int]@);
            }
            if j != i && inside[i][j] {
                if best.is_none() || depth_v[j] >= best_depth {
                    best = Some(j);
                    best_depth = depth_v[j];
                }
            }
            j = j + 1;
        }
        parent_v.push(best);
        i = i + 1;
    }
    // Each even-depth usable loop is a region; its holes are the loops it
    // immediately contains.
    let mut regions: Vec<(usize, Vec<usize>)> = Vec::new();
    let mut s: usize = 0;
    proof {
        assert(regions_view(regions@) =~= Seq::<(usize, Seq<usize>)>::empty());
    }
    while s < n
        invariant
            n == inside@.len(),
            m == matrix(inside@),
            usable@.len() == n,
            s <= n,
            depth_v@.len() == n,
            forall|k: int| 0 <= k < n ==> #[trigger] depth_v@[k] as nat == depth(m, k),
            parent_v@.len() == n,
            forall|k: int|
                0 <= k < n ==> match #[trigger] parent_v@[k] {
                    Some(p) => parent(m, k) == Some(p as int),
                    None => parent(m, k) is None,
                },
            regions_view(regions@) == regions_upto(m, usable@, s as int),
        decreases n - s,
    {
        if depth_v[s] % 2 == 0 && usable[s] {
            let mut holes: Vec<usize> = Vec::new();
            let mut i: usize = 0;
            while i < n
                invariant
                    n == inside@.len(),
                    m == matrix(inside@),
                    s < n,
                    i <= n,
                    parent_v@.len() == n,
                    forall|k: int|
                        0 <= k < n ==> match #[trigger] parent_v@[k] {
                            Some(p) => parent(m, k) == Some(p as int),
                            None => parent(m, k) is None,
                        },
                    holes@ == holes_upto(m, s as int, i as int),
                decreases n - i,
            {
                let is_child = match parent_v[i] {
                    Some(p) => p == s,
                    None => false,
                };
                proof {
                    let _ = parent_v@[i as int];
                }
                if is_child {
                    holes.push(i);
                }
                i = i + 1;
            }
            let ghost r0 = regions_view(regions@);
            regions.push((s, holes));
            proof {
                assert(regions_view(regions@) =~= r0.push((s, holes_upto(m, s as int, n as int))));
            }
        }
        s = s + 1;
    }
    regions
}


// ----- Laminar containment ----------------------------------------------------

/// Containment among the `n` loops is laminar, as it is for the loops of a
/// planar slice, which never cross: it is transitive and never mutual, and
/// two containers of the same loop nest one in the other.
pub open spec fn laminar(m: Seq<Seq<bool>>) -> bool {
    let n = m.len() as int;
    &&& forall|i: int, j: int, k: int|
        0 <= i < n && 0 <= j < n && 0 <= k < n && #[trigger] contained(m, i, j) && #[trigger] contained(
            m,
            j,
            k,
        ) ==> contained(m, i, k)
    &&& forall|i: int, j: int|
        0 <= i < n && 0 <= j < n && #[trigger] contained(m, i, j) ==> !contained(m, j, i)
    &&& forall|i: int, j: int, k: int|
        0 <= i < n && 0 <= j < n && 0 <= k < n && j != k && #[trigger] contained(m, i, j)
            && #[trigger] contained(m, i, k) ==> contained(m, j, k) || contained(m, k, j)
}

proof fn lemma_depth_shift(m: Seq<Seq<bool>>, i: int, p: int, k: int)
    requires
        0 <= p,
        forall|j: int| 0 <= j < k ==> (contained(m, i, j) <==> (contained(m, p, j) || j == p)),
    ensures
        depth_upto(m, i, k) == depth_upto(m, p, k) + if p < k {
            1nat
        } else {
            0nat
        },
    decreases k,
{
    if k > 0 {
        lemma_depth_shift(m, i, p, k - 1);
    }
}

proof fn lemma_depth_above(m: Seq<Seq<bool>>, q: int, p: int, k: int)
    requires
        0 <= p,
        forall|j: int| 0 <= j < k && contained(m, p, j) ==> contained(m, q, j),
        p < k ==> contained(m, q, p),
    ensures
        depth_upto(m, q, k) >= depth_upto(m, p, k) + if p < k {
            1nat
        } else {
            0nat
        },
    decreases k,
{
    if k > 0 {
        lemma_depth_above(m, q, p, k - 1);
    }
}

proof fn lemma_parent_upto(m: Seq<Seq<bool>>, i: int, k: int)
    ensures
        match parent_upto(m, i, k) {
            Some(p) => 0 <= p < k && contained(m, i, p) && forall|j: int|
                0 <= j < k && contained(m, i, j) ==> depth(m, j) <= depth(m, p),
            None => forall|j: int| 0 <= j < k ==> !contained(m, i, j),
        },
    decreases k,
{
    if k > 0 {
        lemma_parent_upto(m, i, k - 1);
    }
}

/// Law: when containment is laminar, a loop's innermost container lies one
/// containment level above it.
pub proof fn lemma_parent_one_level_up(m: Seq<Seq<bool>>, i: int)
    requires
        laminar(m),
        0 <= i < m.len(),
        parent(m, i) is Some,
    ensures
        depth(m, i) == depth(m, parent(m, i)->0) + 1,
{
    let n = m.len() as int;
    let p = parent(m, i)->0;
    lemma_parent_upto(m, i, n);
    assert forall|j: int| 0 <= j < n implies (contained(m, i, j) <==> (contained(m, p, j) || j
        == p)) by {
        if contained(m, p, j) {
            assert(contained(m, i, j));
        }
        if contained(m, i, j) && j != p {
            if contained(m, j, p) {
                assert forall|l: int| 0 <= l < n && contained(m, p, l) implies contained(m, j, l) by {
                }
                lemma_depth_above(m, j, p, n);
                assert(depth(m, j) <= depth(m, p));
                assert(false);
            }
            assert(contained(m, p, j));
        }
    }
    lemma_depth_shift(m, i, p, n);
}

proof fn lemma_holes_have_parent(m: Seq<Seq<bool>>, s: int, k: int, x: int)
    requires
        0 <= x < holes_upto(m, s, k).len(),
        k <= usize::MAX + 1,
    ensures
        parent(m, holes_upto(m, s, k)[x] as int) == Some(s),
        holes_upto(m, s, k)[x] < k,
    decreases k,
{
    if k > 0 {
        let prev = holes_upto(m, s, k - 1);
        if parent(m, k - 1) == Some(s) {
            if x < prev.len() {
                lemma_holes_have_parent(m, s, k - 1, x);
                assert(holes_upto(m, s, k)[x] == prev[x]);
            } else {
                assert(holes_upto(m, s, k)[x] == (k - 1) as usize);
            }
        } else {
            lemma_holes_have_parent(m, s, k - 1, x);
        }
    }
}

/// Law: when containment is laminar, every hole listed under a region lies
/// one containment level below the region's boundary.
pub proof fn lemma_holes_one_level_down(m: Seq<Seq<bool>>, usable: Seq<bool>, r: int, h: int)
    requires
        laminar(m),
        m.len() <= usize::MAX,
        0 <= r < regions_upto(m, usable, m.len() as int).len(),
        0 <= h < regions_upto(m, usable, m.len() as int)[r].1.len(),
    ensures
        ({
            let reg = regions_upto(m, usable, m.len() as int)[r];
            depth(m, reg.1[h] as int) == depth(m, reg.0 as int) + 1
        }),
{
    lemma_region_holes(m, usable, m.len() as int, r);
    let reg = regions_upto(m, usable, m.len() as int)[r];
    let hole = reg.1[h];
    lemma_holes_have_parent(m, reg.0 as int, m.len() as int, h);
    lemma_parent_upto(m, hole as int, m.len() as int);
    lemma_parent_one_level_up(m, hole as int);
}

proof fn lemma_region_holes(m: Seq<Seq<bool>>, usable: Seq<bool>, k: int, r: int)
    requires
        0 <= r < regions_upto(m, usable, k).len(),
        k <= usize::MAX + 1,
    ensures
        regions_upto(m, usable, k)[r].1 == holes_upto(
            m,
            regions_upto(m, usable, k)[r].0 as int,
            m.len() as int,
        ),
        0 <= regions_upto(m, usable, k)[r].0 < k,
    decreases k,
{
    if k > 0 {
        if depth(m, k - 1) % 2 == 0 && usable[k - 1] {
            if r < regions_upto(m, usable, k - 1).len() {
                lemma_region_holes(m, usable, k - 1, r);
            }
        } else {
            lemma_region_holes(m, usable, k - 1, r);
        }
    }
}

proof fn lemma_no_container_depth_zero(m: Seq<Seq<bool>>, i: int, k: int)
    requires
        forall|j: int| 0 <= j < k ==> !contained(m, i, j),
    ensures
        depth_upto(m, i, k) == 0,
    decreases k,
{
    if k > 0 {
        lemma_no_container_depth_zero(m, i, k - 1);
    }
}

proof fn lemma_child_in_holes(m: Seq<Seq<bool>>, s: int, i: int, k: int)
    requires
        0 <= i < k,
        k <= usize::MAX + 1,
        parent(m, i) == Some(s),
    ensures
        holes_upto(m, s, k).contains(i as usize),
    decreases k,
{
    if i == k - 1 {
        assert(holes_upto(m, s, k).last() == i as usize);
    } else {
        lemma_child_in_holes(m, s, i, k - 1);
        let prev = holes_upto(m, s, k - 1);
        let x = choose|x: int| 0 <= x < prev.len() && prev[x] == i as usize;
        if parent(m, k - 1) == Some(s) {
            assert(holes_upto(m, s, k)[x] == i as usize);
        }
    }
}

proof fn lemma_region_of_boundary(m: Seq<Seq<bool>>, usable: Seq<bool>, s: int, k: int)
    requires
        0 <= s < k,
        depth(m, s) % 2 == 0,
        usable[s],
    ensures
        exists|r: int|
            0 <= r < regions_upto(m, usable, k).len() && #[trigger] regions_upto(m, usable, k)[r].0
                == s as usize,
    decreases k,
{
    if s == k - 1 {
        let r = regions_upto(m, usable, k).len() - 1;
        assert(regions_upto(m, usable, k)[r].0 == s as usize);
    } else {
        lemma_region_of_boundary(m, usable, s, k - 1);
        let prev = regions_upto(m, usable, k - 1);
        let r = choose|r: int| 0 <= r < prev.len() && #[trigger] prev[r].0 == s as usize;
        assert(regions_upto(m, usable, k)[r] == prev[r]);
    }
}

proof fn lemma_region_boundaries_increase(m: Seq<Seq<bool>>, usable: Seq<bool>, k: int)
    requires
        k <= usize::MAX + 1,
    ensures
        forall|a: int, b: int|
            0 <= a < b < regions_upto(m, usable, k).len() ==> (#[trigger] regions_upto(
                m,
                usable,
                k,
            )[a]).0 < (#[trigger] regions_upto(m, usable, k)[b]).0,
    decreases k,
{
    if k > 0 {
        lemma_region_boundaries_increase(m, usable, k - 1);
        let prev = regions_upto(m, usable, k - 1);
        let cur = regions_upto(m, usable, k);
        if depth(m, k - 1) % 2 == 0 && usable[k - 1] {
            assert forall|a: int, b: int| 0 <= a < b < cur.len() implies (#[trigger] cur[a]).0 < (
            #[trigger] cur[b]).0 by {
                if b == cur.len() - 1 {
                    lemma_region_holes(m, usable, k - 1, a);
                    assert(cur[a] == prev[a]);
                } else {
                    assert(cur[a] == prev[a] && cur[b] == prev[b]);
                }
            }
        }
    }
}

/// Law: when containment is laminar and every loop that contains another is
/// usable as a boundary, each loop inside an odd number of others is listed
/// as a hole of exactly one region.
pub proof fn lemma_odd_loop_is_hole_of_one_region(
    m: Seq<Seq<bool>>,
    usable: Seq<bool>,
    i: int,
)
    requires
        laminar(m),
        m.len() <= usize::MAX,
        usable.len() == m.len(),
        forall|j: int, k: int|
            0 <= j < m.len() && 0 <= k < m.len() && #[trigger] contained(m, j, k) ==> usable[k],
        0 <= i < m.len(),
        depth(m, i) % 2 == 1,
    ensures
        ({
            let regs = regions_upto(m, usable, m.len() as int);
            exists|r: int|
                0 <= r < regs.len() && (#[trigger] regs[r]).1.contains(i as usize) && forall|
                    r2: int,
                |
                    0 <= r2 < regs.len() && (#[trigger] regs[r2]).1.contains(i as usize) ==> r2
                        == r
        }),
{
    let n = m.len() as int;
    let regs = regions_upto(m, usable, n);
    lemma_parent_upto(m, i, n);
    if parent(m, i) is None {
        lemma_no_container_depth_zero(m, i, n);
        assert(false);
    }
    let p = parent(m, i)->0;
    lemma_parent_one_level_up(m, i);
    assert(usable[p]);
    lemma_region_of_boundary(m, usable, p, n);
    let r = choose|r: int| 0 <= r < regs.len() && #[trigger] regs[r].0 == p as usize;
    lemma_region_holes(m, usable, n, r);
    lemma_child_in_holes(m, p, i, n);
    assert(regs[r].1.contains(i as usize));
    lemma_region_boundaries_increase(m, usable, n);
    assert forall|r2: int|
        0 <= r2 < regs.len() && (#[trigger] regs[r2]).1.contains(i as usize) implies r2 == r by {
        lemma_region_holes(m, usable, n, r2);
        let b = regs[r2].0 as int;
        let x = choose|x: int| 0 <= x < regs[r2].1.len() && regs[r2].1[x] == i as usize;
        lemma_holes_have_parent(m, b, n, x);
        assert(regs[r2].0 == regs[r].0);
        if r2 < r {
            assert(regs[r2].0 < regs[r].0);
        } else if r < r2 {
            assert(regs[r].0 < regs[r2].0);
        }
    }
}

} // verus!
