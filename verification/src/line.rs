//! Line rasterization: the integer incremental (Bresenham-style) algorithm.
//!
//! `line_seq` is the mathematical statement of the algorithm: the pixels of a
//! segment, one per column of the axis of greater extent. `draw_line` plots
//! exactly those pixels, and the lemmas state the segment's symmetry and its
//! continuity.

use vstd::prelude::*;
use vstd::math::{abs, max};
use crate::frame::{Color, Frame};

verus! {

/// One step of the error accumulation: the state is `(error2, y)`; the error
/// grows by twice the minor extent `ady`, and when it exceeds the major
/// extent `dx` the minor coordinate advances one step towards its endpoint.
pub open spec fn bres_step(dx: int, ady: int, sy: int, s: (int, int)) -> (int, int) {
    let e2 = s.0 + 2 * ady;
    if e2 > dx {
        (e2 - 2 * dx, s.1 + sy)
    } else {
        (e2, s.1)
    }
}

/// The `(error2, y)` state before plotting the `k`-th pixel of a run that
/// starts at minor coordinate `b0`.
pub open spec fn bres_state(b0: int, dx: int, ady: int, sy: int, k: nat) -> (int, int)
    decreases k,
{
    if k == 0 {
        (0, b0)
    } else {
        bres_step(dx, ady, sy, bres_state(b0, dx, ady, sy, (k - 1) as nat))
    }
}

/// The `k`-th pixel of a run along the major axis from `(a0, b0)` to
/// `(a1, b1)`, where `a0 <= a1` and the major extent dominates.
pub open spec fn axis_pixel(a0: int, b0: int, a1: int, b1: int, k: int) -> (int, int) {
    let dx = a1 - a0;
    let ady = abs(b1 - b0) as int;
    let sy: int = if b1 > b0 {
        1
    } else {
        -1
    };
    (a0 + k, bres_state(b0, dx, ady, sy, k as nat).1)
}

/// The pixels of a run along the major axis from `(a0, b0)` to `(a1, b1)`,
/// in major-axis order, one pixel per major coordinate.
pub open spec fn axis_seq(a0: int, b0: int, a1: int, b1: int) -> Seq<(int, int)> {
    Seq::new((a1 - a0 + 1) as nat, |k: int| axis_pixel(a0, b0, a1, b1, k))
}

/// The run from the endpoint with the smaller major coordinate to the one
/// with the larger, whichever was given first.
pub open spec fn ordered_seq(a0: int, b0: int, a1: int, b1: int) -> Seq<(int, int)> {
    if a0 > a1 {
        axis_seq(a1, b1, a0, b0)
    } else {
        axis_seq(a0, b0, a1, b1)
    }
}

/// Swap the two coordinates of a pixel.
pub open spec fn transpose(p: (int, int)) -> (int, int) {
    (p.1, p.0)
}

/// Swap the two coordinates of every pixel of a run.
pub open spec fn transpose_seq(s: Seq<(int, int)>) -> Seq<(int, int)> {
    s.map_values(|p: (int, int)| transpose(p))
}

/// The pixels of the discrete segment from `(x0, y0)` to `(x1, y1)`: a steep
/// segment is walked along y with the roles of the axes swapped, any other
/// along x, always from the smaller major coordinate to the larger.
pub open spec fn line_seq(x0: int, y0: int, x1: int, y1: int) -> Seq<(int, int)> {
    if abs(x1 - x0) < abs(y1 - y0) {
        transpose_seq(ordered_seq(y0, x0, y1, x1))
    } else {
        ordered_seq(x0, y0, x1, y1)
    }
}

/// Invariants of the error accumulation, shown by induction on the number of
/// steps: the error stays within `[-dx, dx]`, encodes how often the minor
/// coordinate has advanced, and after the last step the minor coordinate has
/// advanced exactly `ady` times, reaching the far endpoint.
pub proof fn lemma_bres_state(b0: int, dx: int, ady: int, sy: int, k: nat)
    requires
        0 <= ady <= dx,
        sy == 1 || sy == -1,
        k <= dx,
    ensures
        ({
            let s = bres_state(b0, dx, ady, sy, k);
            let m = (s.1 - b0) * sy;
            &&& s.0 == 2 * ady * k - 2 * dx * m
            &&& 0 <= m <= ady
            &&& -dx <= s.0 <= dx
            &&& s.1 == b0 + sy * m
            &&& (k == dx ==> m == ady)
        }),
    decreases k,
{
    let s = bres_state(b0, dx, ady, sy, k);
    let m = (s.1 - b0) * sy;
    if k == 0 {
        assert(m == 0) by (nonlinear_arith)
            requires
                s.1 == b0,
                m == (s.1 - b0) * sy,
        ;
        assert(s.1 == b0 + sy * m) by (nonlinear_arith)
            requires
                s.1 == b0,
                m == 0,
        ;
        if k == dx {
            assert(ady == 0);
        }
    } else {
        lemma_bres_state(b0, dx, ady, sy, (k - 1) as nat);
        let sp = bres_state(b0, dx, ady, sy, (k - 1) as nat);
        let mp = (sp.1 - b0) * sy;
        assert(s == bres_step(dx, ady, sy, sp));
        let e2 = sp.0 + 2 * ady;
        assert(sp.0 == 2 * ady * (k - 1) - 2 * dx * mp);
        assert(2 * ady * k == 2 * ady * (k - 1) + 2 * ady) by (nonlinear_arith);
        if e2 > dx {
            // The minor coordinate advances; it cannot yet have advanced the
            // full `ady` times, else the error could not exceed `dx`.
            assert(mp < ady) by (nonlinear_arith)
                requires
                    sp.0 == 2 * ady * (k - 1) - 2 * dx * mp,
                    sp.0 + 2 * ady > dx,
                    0 <= ady <= dx,
                    0 <= mp <= ady,
                    1 <= k <= dx,
            ;
            assert(s.1 == sp.1 + sy);
            assert(m == mp + 1) by (nonlinear_arith)
                requires
                    m == (sp.1 + sy - b0) * sy,
                    mp == (sp.1 - b0) * sy,
                    sy == 1 || sy == -1,
            ;
            assert(s.0 == 2 * ady * k - 2 * dx * m) by (nonlinear_arith)
                requires
                    s.0 == sp.0 + 2 * ady - 2 * dx,
                    sp.0 == 2 * ady * (k - 1) - 2 * dx * mp,
                    m == mp + 1,
                    2 * ady * k == 2 * ady * (k - 1) + 2 * ady,
            ;
            assert(s.1 == b0 + sy * m) by (nonlinear_arith)
                requires
                    m == (s.1 - b0) * sy,
                    sy == 1 || sy == -1,
            ;
        } else {
            assert(s.1 == sp.1 && s.0 == e2);
            assert(m == mp);
            assert(s.0 == 2 * ady * k - 2 * dx * m) by (nonlinear_arith)
                requires
                    s.0 == sp.0 + 2 * ady,
                    sp.0 == 2 * ady * (k - 1) - 2 * dx * mp,
                    m == mp,
                    2 * ady * k == 2 * ady * (k - 1) + 2 * ady,
            ;
            assert(s.1 == b0 + sy * m) by (nonlinear_arith)
                requires
                    m == (s.1 - b0) * sy,
                    sy == 1 || sy == -1,
            ;
        }
        if k == dx {
            assert(m == ady) by (nonlinear_arith)
                requires
                    s.0 == 2 * ady * k - 2 * dx * m,
                    -dx <= s.0 <= dx,
                    k == dx,
                    1 <= dx,
                    0 <= m <= ady,
                    0 <= ady <= dx,
            ;
        }
    }
}

/// Whether `s` holds a given pixel among its first `k + 1` entries exactly
/// when it does among its first `k`, or the pixel is the `k`-th entry.
proof fn lemma_take_succ_contains<T>(s: Seq<T>, k: int, q: T)
    requires
        0 <= k < s.len(),
    ensures
        s.take(k + 1).contains(q) <==> (s.take(k).contains(q) || q == s[k]),
{
    if s.take(k + 1).contains(q) {
        let i = choose|i: int| 0 <= i < s.take(k + 1).len() && #[trigger] s.take(k + 1)[i] == q;
        if i < k {
            assert(s.take(k)[i] == q);
        }
    }
    if s.take(k).contains(q) {
        let i = choose|i: int| 0 <= i < s.take(k).len() && #[trigger] s.take(k)[i] == q;
        assert(s.take(k + 1)[i] == q);
    }
    if q == s[k] {
        assert(s.take(k + 1)[k] == q);
    }
}

/// How plotting the `k`-th pixel of a run extends the set of painted pixels
/// from the first `k` entries to the first `k + 1`.
proof fn lemma_plot_step(
    pix_prev: Map<(int, int), (u8, u8, u8, u8)>,
    pix_next: Map<(int, int), (u8, u8, u8, u8)>,
    pix0: Map<(int, int), (u8, u8, u8, u8)>,
    ls: Seq<(int, int)>,
    k: int,
    c: (u8, u8, u8, u8),
)
    requires
        0 <= k < ls.len(),
        pix_prev.dom() == pix0.dom(),
        forall|q: (int, int)| #[trigger]
            pix0.dom().contains(q) ==> pix_prev[q] == if ls.take(k).contains(q) {
                c
            } else {
                pix0[q]
            },
        pix0.dom().contains(ls[k]) ==> pix_next == pix_prev.insert(ls[k], c),
        !pix0.dom().contains(ls[k]) ==> pix_next == pix_prev,
    ensures
        pix_next.dom() == pix0.dom(),
        forall|q: (int, int)| #[trigger]
            pix0.dom().contains(q) ==> pix_next[q] == if ls.take(k + 1).contains(q) {
                c
            } else {
                pix0[q]
            },
{
    if pix0.dom().contains(ls[k]) {
        assert(pix_next.dom() =~= pix0.dom());
    }
    assert forall|q: (int, int)| #[trigger] pix0.dom().contains(q) implies pix_next[q] == if ls.take(
        k + 1,
    ).contains(q) {
        c
    } else {
        pix0[q]
    } by {
        lemma_take_succ_contains(ls, k, q);
        if q == ls[k] {
            assert(ls.take(k + 1).contains(q));
        }
    }
}

/// The pixels of a run along the major axis, transposed when the run walks
/// the y axis.
pub open spec fn run_seq(a0: int, b0: int, a1: int, b1: int, steep: bool) -> Seq<(int, int)> {
    if steep {
        transpose_seq(axis_seq(a0, b0, a1, b1))
    } else {
        axis_seq(a0, b0, a1, b1)
    }
}

/// Walk the major axis from `a0` to `a1`, accumulating the error term and
/// plotting one pixel per major coordinate.
#[verifier::loop_isolation(false)]
#[verifier::rlimit(100)]
fn draw_run(a0: i64, b0: i64, a1: i64, b1: i64, steep: bool, frame: &mut Frame, color: Color)
    requires
        old(frame).wf(),
        a0 <= a1,
        abs(b1 - b0) <= a1 - a0,
        -0x8000_0000 <= a0 && a1 < 0x8000_0000,
        -0x8000_0000 <= b0 < 0x8000_0000,
        -0x8000_0000 <= b1 < 0x8000_0000,
    ensures
        final(frame).wf(),
        final(frame).w() == old(frame).w(),
        final(frame).h() == old(frame).h(),
        final(frame).pix().dom() == old(frame).pix().dom(),
        forall|q: (int, int)| #[trigger]
            final(frame).pix().dom().contains(q) ==> final(frame).pix()[q] == if run_seq(
                a0 as int,
                b0 as int,
                a1 as int,
                b1 as int,
                steep,
            ).contains(q) {
                color@
            } else {
                old(frame).pix()[q]
            },
{
    let ghost pix0 = frame.pix();
    let ghost w0 = frame.w();
    let ghost h0 = frame.h();
    let ghost ls = run_seq(a0 as int, b0 as int, a1 as int, b1 as int, steep);
    let ghost base = axis_seq(a0 as int, b0 as int, a1 as int, b1 as int);
    proof {
        frame.lemma_wf_dom();
        assert(ls.len() == base.len());
    }

    let dx = a1 - a0;
    let ady = if b1 >= b0 {
        b1 - b0
    } else {
        b0 - b1
    };
    let ghost gsy: int = if b1 > b0 {
        1
    } else {
        -1
    };
    let derror2 = 2 * ady;
    let mut error2: i64 = 0;
    let mut y: i64 = b0;
    let mut k: i64 = 0;

    while k <= dx
        invariant
            frame.wf(),
            frame.w() == w0,
            frame.h() == h0,
            frame.pix().dom() == pix0.dom(),
            0 <= k <= dx + 1,
            (error2 as int, y as int) == bres_state(b0 as int, dx as int, ady as int, gsy, k as nat),
            forall|q: (int, int)| #[trigger]
                pix0.dom().contains(q) ==> frame.pix()[q] == if ls.take(k as int).contains(q) {
                    color@
                } else {
                    pix0[q]
                },
        decreases dx - k + 1,
    {
        proof {
            lemma_bres_state(b0 as int, dx as int, ady as int, gsy, k as nat);
        }
        let a = a0 + k;
        let (px, py) = if steep {
            (y, a)
        } else {
            (a, y)
        };
        proof {
            assert(base[k as int] == (a as int, y as int));
            if steep {
                assert(ls[k as int] == transpose(base[k as int]));
            }
            assert(ls[k as int] == (px as int, py as int));
        }
        let ghost pix_prev = frame.pix();
        if px >= 0 && py >= 0 {
            proof {
                assert(px < 0x8000_0000 && py < 0x8000_0000);
            }
            frame.set(px as usize, py as usize, color);
        }
        proof {
            lemma_plot_step(pix_prev, frame.pix(), pix0, ls, k as int, color@);
        }
        error2 = error2 + derror2;
        if error2 > dx {
            y = y + if b1 > b0 {
                1
            } else {
                -1
            };
            error2 = error2 - 2 * dx;
            proof {
                // The error exceeded the span, so the minor extent is not zero
                // and the exec step direction agrees with `gsy`.
                assert(ady > 0);
            }
        }
        k = k + 1;
    }
    proof {
        assert(ls.take(k as int) =~= ls);
    }
}

/// Plot every pixel of the discrete segment from `(x0, y0)` to `(x1, y1)`
/// with the given colour; pixels of the segment that fall outside the frame
/// are ignored.
pub fn draw_line(x0: i32, y0: i32, x1: i32, y1: i32, frame: &mut Frame, color: Color)
    requires
        old(frame).wf(),
    ensures
        final(frame).wf(),
        final(frame).w() == old(frame).w(),
        final(frame).h() == old(frame).h(),
        final(frame).pix().dom() == old(frame).pix().dom(),
        forall|q: (int, int)| #[trigger]
            final(frame).pix().dom().contains(q) ==> final(frame).pix()[q] == if line_seq(
                x0 as int,
                y0 as int,
                x1 as int,
                y1 as int,
            ).contains(q) {
                color@
            } else {
                old(frame).pix()[q]
            },
{
    let sx0 = x0 as i64;
    let sy0 = y0 as i64;
    let sx1 = x1 as i64;
    let sy1 = y1 as i64;
    let adx = if sx0 >= sx1 {
        sx0 - sx1
    } else {
        sx1 - sx0
    };
    let ady = if sy0 >= sy1 {
        sy0 - sy1
    } else {
        sy1 - sy0
    };
    // A steep segment is walked along y, with x as the minor coordinate.
    let steep = adx < ady;
    let (t0, u0, t1, u1) = if steep {
        (sy0, sx0, sy1, sx1)
    } else {
        (sx0, sy0, sx1, sy1)
    };
    // Walk from the endpoint with the smaller major coordinate.
    let (a0, b0, a1, b1) = if t0 > t1 {
        (t1, u1, t0, u0)
    } else {
        (t0, u0, t1, u1)
    };
    proof {
        assert(line_seq(x0 as int, y0 as int, x1 as int, y1 as int) == run_seq(
            a0 as int,
            b0 as int,
            a1 as int,
            b1 as int,
            steep,
        ));
    }
    draw_run(a0, b0, a1, b1, steep, frame, color);
}

/// The segment between two endpoints plots the same pixels whichever
/// endpoint is given first.
pub proof fn lemma_line_symmetry(x0: int, y0: int, x1: int, y1: int)
    ensures
        line_seq(x0, y0, x1, y1) == line_seq(x1, y1, x0, y0),
{
    if abs(x1 - x0) < abs(y1 - y0) {
        assert(y0 != y1);
        if y0 > y1 {
            assert(ordered_seq(y0, x0, y1, x1) == axis_seq(y1, x1, y0, x0));
            assert(ordered_seq(y1, x1, y0, x0) == axis_seq(y1, x1, y0, x0));
        } else {
            assert(ordered_seq(y0, x0, y1, x1) == axis_seq(y0, x0, y1, x1));
            assert(ordered_seq(y1, x1, y0, x0) == axis_seq(y0, x0, y1, x1));
        }
    } else {
        if x0 == x1 {
            assert(y0 == y1);
        }
    }
}

/// Whether two pixels are 8-connected neighbours: they differ by at most one
/// in each coordinate, and are not the same pixel.
pub open spec fn adjacent(p: (int, int), q: (int, int)) -> bool {
    max(abs(q.0 - p.0) as int, abs(q.1 - p.1) as int) == 1
}

/// Shape of a run along the major axis: one pixel per major coordinate from
/// `a0` to `a1`, starting at `(a0, b0)`, ending at `(a1, b1)`, the minor
/// coordinate moving by at most one per step.
proof fn lemma_axis_seq_props(a0: int, b0: int, a1: int, b1: int)
    requires
        a0 <= a1,
        abs(b1 - b0) <= a1 - a0,
    ensures
        ({
            let s = axis_seq(a0, b0, a1, b1);
            &&& s.len() == a1 - a0 + 1
            &&& s[0] == (a0, b0)
            &&& s[s.len() - 1] == (a1, b1)
            &&& forall|k: int| 0 <= k < s.len() ==> (#[trigger] s[k]).0 == a0 + k
            &&& forall|k: int|
                0 <= k < s.len() - 1 ==> abs(s[k + 1].1 - (#[trigger] s[k]).1) <= 1
        }),
{
    let s = axis_seq(a0, b0, a1, b1);
    let dx = a1 - a0;
    let ady = abs(b1 - b0) as int;
    let sy: int = if b1 > b0 {
        1
    } else {
        -1
    };
    assert(s[0] == (a0, b0));
    lemma_bres_state(b0, dx, ady, sy, dx as nat);
    assert(s[s.len() - 1] == (a1, b1));
    assert forall|k: int| 0 <= k < s.len() - 1 implies abs(s[k + 1].1 - (#[trigger] s[k]).1)
        <= 1 by {
        assert(bres_state(b0, dx, ady, sy, (k + 1) as nat) == bres_step(
            dx,
            ady,
            sy,
            bres_state(b0, dx, ady, sy, k as nat),
        ));
    }
}

/// The pixels of a segment form an 8-connected path with no gaps: there are
/// exactly `max(|dx|, |dy|) + 1` of them, all distinct, consecutive ones are
/// neighbours, and the path holds both endpoints.
pub proof fn lemma_line_continuity(x0: int, y0: int, x1: int, y1: int)
    ensures
        ({
            let s = line_seq(x0, y0, x1, y1);
            &&& s.len() == max(abs(x1 - x0) as int, abs(y1 - y0) as int) + 1
            &&& s.contains((x0, y0))
            &&& s.contains((x1, y1))
            &&& forall|k: int| 0 <= k < s.len() - 1 ==> adjacent(#[trigger] s[k], s[k + 1])
            &&& s.no_duplicates()
            &&& s.to_set().len() == s.len()
        }),
{
    let s = line_seq(x0, y0, x1, y1);
    let steep = abs(x1 - x0) < abs(y1 - y0);
    let (a0, b0, a1, b1): (int, int, int, int) = if steep {
        if y0 > y1 {
            (y1, x1, y0, x0)
        } else {
            (y0, x0, y1, x1)
        }
    } else {
        if x0 > x1 {
            (x1, y1, x0, y0)
        } else {
            (x0, y0, x1, y1)
        }
    };
    let base = axis_seq(a0, b0, a1, b1);
    lemma_axis_seq_props(a0, b0, a1, b1);
    assert(s == run_seq(a0, b0, a1, b1, steep));
    if steep {
        assert(s.len() == base.len());
        assert forall|k: int| 0 <= k < s.len() implies #[trigger] s[k] == transpose(base[k]) by {}
    }
    assert(s.contains((x0, y0))) by {
        if steep {
            if y0 > y1 {
                assert(s[s.len() - 1] == transpose(base[base.len() - 1]));
            } else {
                assert(s[0] == transpose(base[0]));
            }
        } else {
            if x0 > x1 {
                assert(s[s.len() - 1] == (x0, y0));
            } else {
                assert(s[0] == (x0, y0));
            }
        }
    }
    assert(s.contains((x1, y1))) by {
        if steep {
            if y0 > y1 {
                assert(s[0] == transpose(base[0]));
            } else {
                assert(s[s.len() - 1] == transpose(base[base.len() - 1]));
            }
        } else {
            if x0 > x1 {
                assert(s[0] == (x1, y1));
            } else {
                assert(s[s.len() - 1] == (x1, y1));
            }
        }
    }
    assert forall|k: int| 0 <= k < s.len() - 1 implies adjacent(#[trigger] s[k], s[k + 1]) by {
        assert(base[k].0 == a0 + k);
        assert(base[k + 1].0 == a0 + k + 1);
        assert(abs(base[k + 1].1 - base[k].1) <= 1);
    }
    assert(s.no_duplicates()) by {
        assert forall|i: int, j: int|
            0 <= i < s.len() && 0 <= j < s.len() && i != j implies s[i] != s[j] by {
            assert(base[i].0 == a0 + i);
            assert(base[j].0 == a0 + j);
            if steep {
                assert(s[i] == transpose(base[i]));
                assert(s[j] == transpose(base[j]));
            }
        }
    }
    s.unique_seq_to_set();
}

} // verus!
