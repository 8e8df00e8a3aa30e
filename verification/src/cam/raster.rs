//! Laser raster engraving: how rows are linked, and the ordered (Bayer)
//! dither index matrix.

use vstd::prelude::*;

verus! {

/// How consecutive raster rows are linked.
#[derive(Debug, Clone, Copy, PartialEq, Eq, Structural)]
pub enum RasterLink {
    /// Laser off (and optional lift) between rows; every row scans the same
    /// way.
    LiftBetween,
    /// Boustrophedon: alternate rows scan in opposite directions with no
    /// lift.
    Bidirectional,
}

impl Default for RasterLink {
    fn default() -> (r: Self)
        ensures
            r == RasterLink::LiftBetween,
    {
        RasterLink::LiftBetween
    }
}

/// The quadrant offset of the Bayer doubling `M(2n) = [[4M, 4M+2], [4M+3,
/// 4M+1]]`.
pub open spec fn quadrant(lower: bool, right: bool) -> nat {
    if !lower && !right {
        0
    } else if !lower && right {
        2
    } else if lower && !right {
        3
    } else {
        1
    }
}

/// The Bayer index at row `y`, column `x` of the matrix of side `n`, built
/// by recursive doubling from the half-size matrix. For a side that is not
/// even, the cells the doubling does not reach stay 0.
pub open spec fn bayer_at(n: nat, y: nat, x: nat) -> nat
    decreases n,
{
    if n <= 1 {
        0
    } else {
        let h = n / 2;
        if y >= 2 * h || x >= 2 * h {
            0
        } else {
            4 * bayer_at(h, y % h, x % h) + quadrant(y >= h, x >= h)
        }
    }
}

proof fn lemma_bayer_bound(n: nat, y: nat, x: nat)
    ensures
        n >= 1 ==> bayer_at(n, y, x) < n * n,
    decreases n,
{
    if n == 1 {
        assert(bayer_at(n, y, x) == 0);
    }
    if n > 1 {
        let h = n / 2;
        if y < 2 * h && x < 2 * h {
            lemma_bayer_bound(h, y % h, x % h);
            let v = bayer_at(h, y % h, x % h);
            assert(bayer_at(n, y, x) == 4 * v + quadrant(y >= h, x >= h));
            assert(quadrant(y >= h, x >= h) <= 3);
            assert(4 * v + 3 < n * n) by (nonlinear_arith)
                requires
                    v < h * h,
                    2 * h <= n,
            ;
        } else {
            assert(n * n >= 1) by (nonlinear_arith)
                requires
                    n >= 1,
            ;
        }
    }
}

proof fn lemma_row_col(a: int, b: int, h: int)
    requires
        0 <= a < h,
        0 <= b < h,
    ensures
        (a * h + b) / h == a,
        (a * h + b) % h == b,
        a * h + b < h * h,
{
    assert((a * h + b) / h == a && (a * h + b) % h == b) by (nonlinear_arith)
        requires
            0 <= a < h,
            0 <= b < h,
    ;
    assert(a * h + b < h * h) by (nonlinear_arith)
        requires
            0 <= a < h,
            0 <= b < h,
    ;
}

/// The side of the Bayer tile a dither asks for: 2, 4 or 8 as given, any
/// other size falling back to 4.
pub fn bayer_side(matrix_size: u8) -> (n: usize)
    ensures
        n == (if matrix_size == 2 || matrix_size == 4 || matrix_size == 8 {
            matrix_size as usize
        } else {
            4
        }),
{
    match matrix_size {
        2 | 4 | 8 => matrix_size as usize,
        _ => 4,
    }
}

/// The integer Bayer index matrix of side `n`, row-major (a single `0`
/// for `n <= 1`): cell `i` holds [`bayer_at`] of row `i / n`, column
/// `i % n`.
pub fn bayer_indices(n: usize) -> (r: Vec<u32>)
    requires
        n * n <= u32::MAX,
    ensures
        r@.len() == (if n <= 1 {
            1
        } else {
            n * n
        }),
        n <= 1 ==> r@[0] == 0,
        n > 1 ==> forall|i: int|
            0 <= i < n * n ==> #[trigger] r@[i] as nat == bayer_at(
                n as nat,
                (i / n as int) as nat,
                (i % n as int) as nat,
            ),
    decreases n,
{
    if n <= 1 {
        return vec![0];
    }
    let h = n / 2;
    proof {
        assert(h * h <= n * n) by (nonlinear_arith)
            requires
                h <= n,
        ;
    }
    let half = bayer_indices(h);
    let total = n * n;
    let mut m: Vec<u32> = Vec::new();
    let mut i: usize = 0;
    while i < total
        invariant
            n > 1,
            h == n / 2,
            total == n * n,
            total <= u32::MAX,
            i <= total,
            m@.len() == i,
            half@.len() == (if h <= 1 {
                1
            } else {
                h * h
            }),
            h <= 1 ==> half@[0] == 0,
            h > 1 ==> forall|k: int|
                0 <= k < h * h ==> #[trigger] half@[k] as nat == bayer_at(
                    h as nat,
                    (k / h as int) as nat,
                    (k % h as int) as nat,
                ),
            forall|k: int|
                0 <= k < i ==> #[trigger] m@[k] as nat == bayer_at(
                    n as nat,
                    (k / n as int) as nat,
                    (k % n as int) as nat,
                ),
        decreases total - i,
    {
        let y = i / n;
        let x = i % n;
        let v: u32 = if y >= 2 * h || x >= 2 * h {
            0
        } else {
            let hy = y % h;
            let hx = x % h;
            proof {
                lemma_row_col(hy as int, hx as int, h as int);
                lemma_bayer_bound(h as nat, hy as nat, hx as nat);
                assert(h * h <= n * n) by (nonlinear_arith)
                    requires
                        h <= n,
                ;
                assert(hy * h + hx < h * h);
            }
            let hv = if h <= 1 {
                half[0]
            } else {
                half[hy * h + hx]
            };
            proof {
                if h <= 1 {
                    assert(hy == 0 && hx == 0);
                    assert(bayer_at(h as nat, 0, 0) == 0);
                } else {
                    assert(half@[(hy * h + hx) as int] as nat == bayer_at(
                        h as nat,
                        hy as nat,
                        hx as nat,
                    ));
                }
                assert(hv < h * h);
                assert(4 * hv + 3 < n * n) by (nonlinear_arith)
                    requires
                        hv < h * h,
                        2 * h <= n,
                ;
            }
            let q: u32 = if y < h && x < h {
                0
            } else if y < h {
                2
            } else if x < h {
                3
            } else {
                1
            };
            4 * hv + q
        };
        proof {
            assert(y == i / n && x == i % n);
        }
        m.push(v);
        i = i + 1;
    }
    m
}

pub open spec fn pow2(k: nat) -> nat
    decreases k,
{
    if k == 0 {
        1
    } else {
        2 * pow2((k - 1) as nat)
    }
}

proof fn lemma_pow2_pos(k: nat)
    ensures
        pow2(k) >= 1,
    decreases k,
{
    if k > 0 {
        lemma_pow2_pos((k - 1) as nat);
    }
}

proof fn lemma_mod_two_halves(y: nat, h: nat)
    requires
        h > 0,
        y < 2 * h,
    ensures
        y % h == (if y < h {
            y
        } else {
            (y - h) as nat
        }),
{
    if y < h {
        vstd::arithmetic::div_mod::lemma_small_mod(y, h);
    } else {
        vstd::arithmetic::div_mod::lemma_small_mod((y - h) as nat, h);
        vstd::arithmetic::div_mod::lemma_mod_add_multiples_vanish((y - h) as int, h as int);
    }
}

/// Law: for a side that is a power of two, distinct cells of the Bayer
/// matrix hold distinct indices.
pub proof fn lemma_bayer_injective(k: nat, y1: nat, x1: nat, y2: nat, x2: nat)
    requires
        y1 < pow2(k),
        x1 < pow2(k),
        y2 < pow2(k),
        x2 < pow2(k),
        bayer_at(pow2(k), y1, x1) == bayer_at(pow2(k), y2, x2),
    ensures
        y1 == y2 && x1 == x2,
    decreases k,
{
    if k > 0 {
        let n = pow2(k);
        let h = pow2((k - 1) as nat);
        lemma_pow2_pos((k - 1) as nat);
        assert(n / 2 == h);
        let a1 = bayer_at(h, y1 % h, x1 % h);
        let a2 = bayer_at(h, y2 % h, x2 % h);
        let q1 = quadrant(y1 >= h, x1 >= h);
        let q2 = quadrant(y2 >= h, x2 >= h);
        assert(bayer_at(n, y1, x1) == 4 * a1 + q1);
        assert(bayer_at(n, y2, x2) == 4 * a2 + q2);
        assert(q1 <= 3 && q2 <= 3);
        assert(q1 == q2 && a1 == a2) by (nonlinear_arith)
            requires
                4 * a1 + q1 == 4 * a2 + q2,
                q1 <= 3,
                q2 <= 3,
        ;
        lemma_mod_two_halves(y1, h);
        lemma_mod_two_halves(x1, h);
        lemma_mod_two_halves(y2, h);
        lemma_mod_two_halves(x2, h);
        lemma_bayer_injective((k - 1) as nat, y1 % h, x1 % h, y2 % h, x2 % h);
    }
}

/// Law: for a side that is a power of two, every index below the cell
/// count occurs in the Bayer matrix — with the previous law, the matrix
/// holds each of `0..n²` exactly once.
pub proof fn lemma_bayer_surjective(k: nat, v: nat)
    requires
        v < pow2(k) * pow2(k),
    ensures
        exists|y: nat, x: nat| y < pow2(k) && x < pow2(k) && #[trigger] bayer_at(pow2(k), y, x) == v,
    decreases k,
{
    if k == 0 {
        let p = pow2(k);
        assert(p == 1);
        assert(p * p == 1) by (nonlinear_arith)
            requires
                p == 1,
        ;
        assert(v == 0);
        assert(bayer_at(1, 0, 0) == 0);
        assert(bayer_at(pow2(k), 0, 0) == v);
    } else {
        let n = pow2(k);
        let h = pow2((k - 1) as nat);
        lemma_pow2_pos((k - 1) as nat);
        assert(n / 2 == h);
        let q = v % 4;
        let w = v / 4;
        assert(w < h * h) by (nonlinear_arith)
            requires
                v < n * n,
                n == 2 * h,
                w == v / 4,
        ;
        lemma_bayer_surjective((k - 1) as nat, w);
        let (y0, x0) = choose|y: nat, x: nat| y < h && x < h && #[trigger] bayer_at(h, y, x) == w;
        let lower = q == 3 || q == 1;
        let right = q == 2 || q == 1;
        let y: nat = if lower {
            y0 + h
        } else {
            y0
        };
        let x: nat = if right {
            x0 + h
        } else {
            x0
        };
        lemma_mod_two_halves(y, h);
        lemma_mod_two_halves(x, h);
        assert(quadrant(y >= h, x >= h) == q);
        assert(v == 4 * w + q);
        assert(bayer_at(n, y, x) == v);
    }
}

} // verus!
