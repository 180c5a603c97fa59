//! Triangle rasterization: a bounding-box scan with an exact
//! barycentric-coordinate containment test.
//!
//! The barycentric coordinates of a screen point with respect to a triangle
//! are exact rationals here: `barycentric` returns their three numerators and
//! the common denominator (twice the triangle's signed area), or the explicit
//! `Degenerate` outcome when that area is zero. A point lies in the triangle
//! exactly when all three coordinates are non-negative.

use vstd::prelude::*;
use vstd::math::{max, min};
use crate::Vec2i;
use crate::frame::{Color, Frame};

verus! {

/// First cross-product component: the numerator of the coordinate derived
/// as `n2 / den`.
pub open spec fn bary_ux(t0: (int, int), t1: (int, int), t2: (int, int), p: (int, int)) -> int {
    (t1.0 - t0.0) * (t0.1 - p.1) - (t0.0 - p.0) * (t1.1 - t0.1)
}

/// Second cross-product component: the numerator of the coordinate derived
/// as `n1 / den`.
pub open spec fn bary_uy(t0: (int, int), t1: (int, int), t2: (int, int), p: (int, int)) -> int {
    (t0.0 - p.0) * (t2.1 - t0.1) - (t2.0 - t0.0) * (t0.1 - p.1)
}

/// Third cross-product component, twice the triangle's signed area: the
/// common denominator of the derived coordinates. It does not depend on the
/// point.
pub open spec fn bary_uz(t0: (int, int), t1: (int, int), t2: (int, int)) -> int {
    (t2.0 - t0.0) * (t1.1 - t0.1) - (t1.0 - t0.0) * (t2.1 - t0.1)
}

/// Whether three screen points lie on one line: the parallelogram they span
/// has zero area.
pub open spec fn collinear(t0: (int, int), t1: (int, int), t2: (int, int)) -> bool {
    bary_uz(t0, t1, t2) == 0
}

/// Whether `p` lies within the triangle `t0 t1 t2` or on its boundary: the
/// triangle is not degenerate and each derived barycentric coordinate, a
/// rational with denominator `bary_uz`, is at least zero.
pub open spec fn inside_triangle(
    t0: (int, int),
    t1: (int, int),
    t2: (int, int),
    p: (int, int),
) -> bool {
    let ux = bary_ux(t0, t1, t2, p);
    let uy = bary_uy(t0, t1, t2, p);
    let uz = bary_uz(t0, t1, t2);
    &&& uz != 0
    &&& (uz - ux - uy) * uz >= 0
    &&& uy * uz >= 0
    &&& ux * uz >= 0
}

/// The barycentric coordinates of a point with respect to a triangle:
/// either the triangle is degenerate, or the three coordinates are the exact
/// rationals `n0 / den`, `n1 / den`, `n2 / den`.
#[derive(Debug, Clone, Copy, PartialEq, Eq, Structural)]
pub enum Barycentric {
    Degenerate,
    Coords { n0: i128, n1: i128, n2: i128, den: i128 },
}

impl Barycentric {
    /// Whether these coordinates place the point within the triangle or on
    /// its boundary: all three rationals are at least zero. A degenerate
    /// outcome counts as outside.
    pub open spec fn spec_inside(self) -> bool {
        match self {
            Barycentric::Degenerate => false,
            Barycentric::Coords { n0, n1, n2, den } => {
                &&& den != 0
                &&& n0 * den >= 0
                &&& n1 * den >= 0
                &&& n2 * den >= 0
            },
        }
    }

    /// Decide `spec_inside` by the signs of the numerators against the sign
    /// of the denominator.
    pub fn is_inside(&self) -> (r: bool)
        ensures
            r == self.spec_inside(),
    {
        match *self {
            Barycentric::Degenerate => false,
            Barycentric::Coords { n0, n1, n2, den } => {
                let r = if den > 0 {
                    n0 >= 0 && n1 >= 0 && n2 >= 0
                } else if den < 0 {
                    n0 <= 0 && n1 <= 0 && n2 <= 0
                } else {
                    false
                };
                proof {
                    assert(r == self.spec_inside()) by (nonlinear_arith)
                        requires
                            r == (if den > 0 {
                                n0 >= 0 && n1 >= 0 && n2 >= 0
                            } else if den < 0 {
                                n0 <= 0 && n1 <= 0 && n2 <= 0
                            } else {
                                false
                            }),
                            self == (Barycentric::Coords { n0, n1, n2, den }),
                    ;
                }
                r
            },
        }
    }
}

/// A product of two factors bounded in magnitude by `m` is bounded in
/// magnitude by `m * m`.
proof fn lemma_mul_bound(a: int, b: int, m: int)
    requires
        0 <= m,
        -m <= a <= m,
        -m <= b <= m,
    ensures
        -(m * m) <= a * b <= m * m,
{
    assert(-(m * m) <= a * b <= m * m) by (nonlinear_arith)
        requires
            0 <= m,
            -m <= a <= m,
            -m <= b <= m,
    ;
}

/// Compute the barycentric coordinates of `p` with respect to the triangle
/// `pts`, by the cross product of the two edge/point difference vectors; a
/// triangle of zero screen area yields the explicit `Degenerate` outcome.
pub fn barycentric(pts: &[Vec2i; 3], p: &Vec2i) -> (r: Barycentric)
    ensures
        ({
            let ux = bary_ux(pts[0]@, pts[1]@, pts[2]@, p@);
            let uy = bary_uy(pts[0]@, pts[1]@, pts[2]@, p@);
            let uz = bary_uz(pts[0]@, pts[1]@, pts[2]@);
            if uz == 0 {
                r == Barycentric::Degenerate
            } else {
                r matches Barycentric::Coords { n0, n1, n2, den } && n0 == uz - ux - uy && n1 == uy
                    && n2 == ux && den == uz
            }
        }),
        r.spec_inside() == inside_triangle(pts[0]@, pts[1]@, pts[2]@, p@),
{
    let x0 = pts[0].x as i128;
    let y0 = pts[0].y as i128;
    let x1 = pts[1].x as i128;
    let y1 = pts[1].y as i128;
    let x2 = pts[2].x as i128;
    let y2 = pts[2].y as i128;
    let px = p.x as i128;
    let py = p.y as i128;
    let ex1 = x1 - x0;
    let ey1 = y1 - y0;
    let ex2 = x2 - x0;
    let ey2 = y2 - y0;
    let fx = x0 - px;
    let fy = y0 - py;
    proof {
        lemma_mul_bound(ex1 as int, fy as int, 0x1_0000_0000);
        lemma_mul_bound(fx as int, ey1 as int, 0x1_0000_0000);
        lemma_mul_bound(fx as int, ey2 as int, 0x1_0000_0000);
        lemma_mul_bound(ex2 as int, fy as int, 0x1_0000_0000);
        lemma_mul_bound(ex2 as int, ey1 as int, 0x1_0000_0000);
        lemma_mul_bound(ex1 as int, ey2 as int, 0x1_0000_0000);
    }
    let ux = ex1 * fy - fx * ey1;
    let uy = fx * ey2 - ex2 * fy;
    let uz = ex2 * ey1 - ex1 * ey2;
    if uz == 0 {
        Barycentric::Degenerate
    } else {
        Barycentric::Coords { n0: uz - ux - uy, n1: uy, n2: ux, den: uz }
    }
}

/// For a point of a non-degenerate triangle, the three derived barycentric
/// coordinates are exact rationals over the common denominator; their
/// numerators sum to that denominator, so the coordinates sum to one, and
/// for a point inside the triangle each coordinate is at least zero.
pub proof fn lemma_barycentric_partition(
    t0: (int, int),
    t1: (int, int),
    t2: (int, int),
    p: (int, int),
)
    requires
        !collinear(t0, t1, t2),
    ensures
        ({
            let ux = bary_ux(t0, t1, t2, p);
            let uy = bary_uy(t0, t1, t2, p);
            let uz = bary_uz(t0, t1, t2);
            &&& (uz - ux - uy) + uy + ux == uz
            &&& inside_triangle(t0, t1, t2, p) ==> (uz - ux - uy) * uz >= 0 && uy * uz >= 0 && ux
                * uz >= 0
        }),
{
}

/// The lower edge of the clamped bounding box over one axis: the smallest of
/// the three coordinates, held within `[0, limit]` the way the scan builds
/// it.
pub open spec fn bb_lo(c0: int, c1: int, c2: int, limit: int) -> int {
    max(0, min(min(c0, c1), min(c2, limit)))
}

/// The upper edge of the clamped bounding box over one axis.
pub open spec fn bb_hi(c0: int, c1: int, c2: int, limit: int) -> int {
    min(limit, max(max(c0, c1), max(c2, 0)))
}

/// Whether the scan over a `w` by `h` frame paints `p` when filling the
/// triangle `t0 t1 t2`: the point lies within the clamped bounding box and
/// within the triangle.
pub open spec fn tri_covers(
    t0: (int, int),
    t1: (int, int),
    t2: (int, int),
    w: int,
    h: int,
    p: (int, int),
) -> bool {
    &&& bb_lo(t0.0, t1.0, t2.0, w - 1) <= p.0 <= bb_hi(t0.0, t1.0, t2.0, w - 1)
    &&& bb_lo(t0.1, t1.1, t2.1, h - 1) <= p.1 <= bb_hi(t0.1, t1.1, t2.1, h - 1)
    &&& inside_triangle(t0, t1, t2, p)
}

fn imin(a: i64, b: i64) -> (r: i64)
    ensures
        r == min(a as int, b as int),
{
    if a < b {
        a
    } else {
        b
    }
}

fn imax(a: i64, b: i64) -> (r: i64)
    ensures
        r == max(a as int, b as int),
{
    if a > b {
        a
    } else {
        b
    }
}

/// Fill every pixel the scan covers for the triangle `pts` with the given
/// colour: each pixel of the clamped bounding box whose barycentric
/// coordinates place it within the triangle or on its boundary. A triangle
/// of zero screen area fills nothing.
#[verifier::loop_isolation(false)]
#[verifier::rlimit(100)]
pub fn draw_triangle(pts: &[Vec2i; 3], frame: &mut Frame, color: Color)
    requires
        old(frame).wf(),
    ensures
        final(frame).wf(),
        final(frame).w() == old(frame).w(),
        final(frame).h() == old(frame).h(),
        final(frame).pix().dom() == old(frame).pix().dom(),
        forall|q: (int, int)| #[trigger]
            final(frame).pix().dom().contains(q) ==> final(frame).pix()[q] == if tri_covers(
                pts[0]@,
                pts[1]@,
                pts[2]@,
                old(frame).w(),
                old(frame).h(),
                q,
            ) {
                color@
            } else {
                old(frame).pix()[q]
            },
{
    let ghost pix0 = frame.pix();
    let ghost t0 = pts[0]@;
    let ghost t1 = pts[1]@;
    let ghost t2 = pts[2]@;
    let ghost gw = frame.w();
    let ghost gh = frame.h();
    proof {
        frame.lemma_wf_dom();
    }
    let w = frame.width();
    let h = frame.height();
    let x0 = pts[0].x as i64;
    let y0 = pts[0].y as i64;
    let x1 = pts[1].x as i64;
    let y1 = pts[1].y as i64;
    let x2 = pts[2].x as i64;
    let y2 = pts[2].y as i64;
    // The box never reaches past the coordinate range of the points, so a
    // clamp that exceeds it can be folded down to it.
    let wm1: i64 = if w >= 0x8000_0000 {
        0x7FFF_FFFF
    } else {
        w as i64 - 1
    };
    let hm1: i64 = if h >= 0x8000_0000 {
        0x7FFF_FFFF
    } else {
        h as i64 - 1
    };
    let bxlo = imax(0, imin(imin(x0, x1), imin(x2, wm1)));
    let bxhi = imin(wm1, imax(imax(x0, x1), imax(x2, 0)));
    let bylo = imax(0, imin(imin(y0, y1), imin(y2, hm1)));
    let byhi = imin(hm1, imax(imax(y0, y1), imax(y2, 0)));
    proof {
        assert(bxlo as int == bb_lo(t0.0, t1.0, t2.0, gw - 1));
        assert(bxhi as int == bb_hi(t0.0, t1.0, t2.0, gw - 1));
        assert(bylo as int == bb_lo(t0.1, t1.1, t2.1, gh - 1));
        assert(byhi as int == bb_hi(t0.1, t1.1, t2.1, gh - 1));
    }
    let mut x = bxlo;
    while x <= bxhi
        invariant
            frame.wf(),
            frame.w() == gw,
            frame.h() == gh,
            frame.pix().dom() == pix0.dom(),
            bxlo <= x,
            x <= bxhi + 1 || x == bxlo,
            forall|q: (int, int)| #[trigger]
                pix0.dom().contains(q) ==> frame.pix()[q] == if tri_covers(t0, t1, t2, gw, gh, q)
                    && q.0 < x {
                    color@
                } else {
                    pix0[q]
                },
        decreases bxhi + 1 - x,
    {
        let mut y = bylo;
        while y <= byhi
            invariant
                frame.wf(),
                frame.w() == gw,
                frame.h() == gh,
                frame.pix().dom() == pix0.dom(),
                bylo <= y,
                y <= byhi + 1 || y == bylo,
                forall|q: (int, int)| #[trigger]
                    pix0.dom().contains(q) ==> frame.pix()[q] == if tri_covers(
                        t0,
                        t1,
                        t2,
                        gw,
                        gh,
                        q,
                    ) && (q.0 < x || (q.0 == x && q.1 < y)) {
                        color@
                    } else {
                        pix0[q]
                    },
            decreases byhi + 1 - y,
        {
            let p = Vec2i { x: x as i32, y: y as i32 };
            let ghost qp = (x as int, y as int);
            let bc = barycentric(pts, &p);
            let ghost pix_prev = frame.pix();
            if bc.is_inside() {
                frame.set(x as usize, y as usize, color);
                proof {
                    assert(pix0.dom().contains(qp));
                    assert(frame.pix().dom() =~= pix0.dom());
                }
            }
            proof {
                assert(tri_covers(t0, t1, t2, gw, gh, qp) == bc.spec_inside());
                assert forall|q: (int, int)| #[trigger] pix0.dom().contains(q) implies frame.pix()[q]
                    == if tri_covers(t0, t1, t2, gw, gh, q) && (q.0 < x || (q.0 == x && q.1 < y
                    + 1)) {
                    color@
                } else {
                    pix0[q]
                } by {
                    if q != qp {
                        assert(frame.pix()[q] == pix_prev[q]);
                    }
                }
            }
            y = y + 1;
        }
        proof {
            assert forall|q: (int, int)| #[trigger] pix0.dom().contains(q) implies frame.pix()[q]
                == if tri_covers(t0, t1, t2, gw, gh, q) && q.0 < x + 1 {
                color@
            } else {
                pix0[q]
            } by {}
        }
        x = x + 1;
    }
}

/// A degenerate triangle — three collinear points — covers no pixel at all.
pub proof fn lemma_degenerate_triangle_covers_nothing(
    t0: (int, int),
    t1: (int, int),
    t2: (int, int),
    w: int,
    h: int,
    p: (int, int),
)
    requires
        collinear(t0, t1, t2),
    ensures
        !tri_covers(t0, t1, t2, w, h, p),
{
}

} // verus!
