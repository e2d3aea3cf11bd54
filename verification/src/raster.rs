//! Drawing projected triangles onto a canvas through its depth buffer.

use vstd::prelude::*;
use crate::bounds::clipped_span;
use crate::bounds::max3;
use crate::bounds::min3;
use crate::bounds::span_of;
use crate::canvas::Canvas;
use crate::canvas::Grid;
use crate::canvas::EMPTY_DEPTH;
use crate::canvas::MAX_EXTENT;
use crate::edge::edge;
use crate::edge::lemma_edges_are_weights;
use crate::edge::lemma_edges_sum_to_area;
use crate::edge::passes_edge_tests;
use crate::edge::pos;
use crate::edge::tri_edge_function;
use crate::edge::winding;
use crate::edge::Winding;

verus! {

/// The depth of a triangle over the screen, as a linear function of the
/// cell: `a * u + b * v + c` in column `u` of row `v`. The coefficients are
/// fixed-point numbers on a scale that the caller chooses.
#[derive(Clone, Copy, Debug)]
pub struct DepthPlane {
    pub a: i64,
    pub b: i64,
    pub c: i64,
}

proof fn lemma_term_bounds(k: int, x: int)
    by (nonlinear_arith)
    requires
        -0x8000_0000_0000_0000 <= k <= 0x7fff_ffff_ffff_ffff,
        0 <= x <= 65535,
    ensures
        -0x8000_0000_0000_0000_0000 <= k * x <= 0x8000_0000_0000_0000_0000,
{
}

impl DepthPlane {
    /// The depth of the plane in column `u` of row `v`.
    pub open spec fn at(self, u: int, v: int) -> int {
        self.a * u + self.b * v + self.c
    }

    /// On every cell that a canvas can have, the plane lies above the empty
    /// depth.
    pub proof fn lemma_above_empty(self, u: int, v: int)
        requires
            0 <= u <= MAX_EXTENT,
            0 <= v <= MAX_EXTENT,
        ensures
            self.at(u, v) > EMPTY_DEPTH,
    {
        lemma_term_bounds(self.a as int, u);
        lemma_term_bounds(self.b as int, v);
    }

    /// Evaluates the plane on a cell.
    pub fn depth_at(&self, u: u16, v: u16) -> (d: i128)
        ensures
            d == self.at(u as int, v as int),
            d > EMPTY_DEPTH,
    {
        proof {
            lemma_term_bounds(self.a as int, u as int);
            lemma_term_bounds(self.b as int, v as int);
        }
        (self.a as i128) * (u as i128) + (self.b as i128) * (v as i128) + (self.c as i128)
    }
}

/// A triangle ready to be drawn: its three corners on the screen in drawing
/// order, its depth plane, and the one intensity of its face.
#[derive(Clone, Copy, Debug)]
pub struct Facet {
    pub first: (usize, usize),
    pub second: (usize, usize),
    pub third: (usize, usize),
    pub plane: DepthPlane,
    pub intensity: u8,
}

impl Facet {
    /// Twice the signed area of the triangle on the screen.
    pub open spec fn area(self) -> int {
        edge(pos(self.first), pos(self.second), pos(self.third))
    }

    /// The triangle covers the cell: it has an area, and none of its three
    /// edge functions is negative there. Cells on an edge are covered.
    pub open spec fn covers(self, u: int, v: int) -> bool {
        self.area() != 0 && passes_edge_tests(pos(self.first), pos(self.second), pos(self.third), (u, v))
    }

    /// The triangle covers the cell and is not below the depth stored there.
    pub open spec fn wins(self, u: int, v: int, stored: int) -> bool {
        self.covers(u, v) && self.plane.at(u, v) >= stored
    }

    /// The depth of a cell after the triangle was drawn over a stored depth.
    pub open spec fn depth_over(self, u: int, v: int, stored: int) -> int {
        if self.wins(u, v, stored) {
            self.plane.at(u, v)
        } else {
            stored
        }
    }

    /// The intensity of a cell after the triangle was drawn over it.
    pub open spec fn intensity_over(self, u: int, v: int, stored: int, shown: u8) -> u8 {
        if self.wins(u, v, stored) {
            self.intensity
        } else {
            shown
        }
    }
}

/// A mean with non-negative weights is not below the smallest of the values
/// and not above the largest.
proof fn lemma_mean_between(
    sum: int,
    wa: int,
    wb: int,
    wc: int,
    a: int,
    b: int,
    c: int,
    p: int,
)
    requires
        wa >= 0,
        wb >= 0,
        wc >= 0,
        sum == wa + wb + wc,
        sum > 0,
        sum * p == wa * a + wb * b + wc * c,
    ensures
        min3(a, b, c) <= p <= max3(a, b, c),
{
    let lo = min3(a, b, c);
    let hi = max3(a, b, c);
    assert(wa * a >= wa * lo && wb * b >= wb * lo && wc * c >= wc * lo) by (nonlinear_arith)
        requires
            wa >= 0,
            wb >= 0,
            wc >= 0,
            lo <= a,
            lo <= b,
            lo <= c,
    ;
    assert(wa * a <= wa * hi && wb * b <= wb * hi && wc * c <= wc * hi) by (nonlinear_arith)
        requires
            wa >= 0,
            wb >= 0,
            wc >= 0,
            hi >= a,
            hi >= b,
            hi >= c,
    ;
    assert(sum * lo == wa * lo + wb * lo + wc * lo && sum * hi == wa * hi + wb * hi + wc * hi)
        by (nonlinear_arith)
        requires
            sum == wa + wb + wc,
    ;
    assert(lo <= p <= hi) by (nonlinear_arith)
        requires
            sum > 0,
            sum * lo <= sum * p <= sum * hi,
    ;
}

/// A cell that a triangle covers lies within the range that the corners
/// span, in columns and in rows.
pub proof fn lemma_covered_cell_in_box(facet: Facet, u: int, v: int)
    requires
        facet.covers(u, v),
    ensures
        facet.area() > 0,
        min3(facet.first.0 as int, facet.second.0 as int, facet.third.0 as int) <= u <= max3(
            facet.first.0 as int,
            facet.second.0 as int,
            facet.third.0 as int,
        ),
        min3(facet.first.1 as int, facet.second.1 as int, facet.third.1 as int) <= v <= max3(
            facet.first.1 as int,
            facet.second.1 as int,
            facet.third.1 as int,
        ),
{
    let (a, b, c) = (pos(facet.first), pos(facet.second), pos(facet.third));
    let p = (u, v);
    lemma_edges_sum_to_area(a, b, c, p);
    lemma_edges_are_weights(a, b, c, p);
    lemma_mean_between(
        facet.area(), edge(b, c, p), edge(c, a, p), edge(a, b, p), a.0, b.0, c.0, u,
    );
    lemma_mean_between(
        facet.area(), edge(b, c, p), edge(c, a, p), edge(a, b, p), a.1, b.1, c.1, v,
    );
}

/// While a triangle is being drawn row by row, the cells before column `u`
/// of row `v` hold what drawing the triangle makes of them, and the others
/// still hold what they held before.
spec fn drawn_up_to(before: Grid, now: Grid, facet: Facet, x: int, y: int, u: int, v: int) -> bool {
    let reached = y < v || (y == v && x < u);
    let stored = before.depth_at(x, y);
    let shown = before.intensity_at(x, y);
    if reached {
        &&& now.depth_at(x, y) == facet.depth_over(x, y, stored)
        &&& now.intensity_at(x, y) == facet.intensity_over(x, y, stored, shown)
    } else {
        &&& now.depth_at(x, y) == stored
        &&& now.intensity_at(x, y) == shown
    }
}

/// A cell outside the clipped box of a triangle is not covered by it.
proof fn lemma_outside_box_not_covered(
    grid: Grid,
    facet: Facet,
    cols: (usize, usize),
    rows: (usize, usize),
    x: int,
    y: int,
)
    requires
        grid.contains(x, y),
        span_of(facet.first.0 as int, facet.second.0 as int, facet.third.0 as int, grid.width as int)
            == Some((cols.0 as int, cols.1 as int)),
        span_of(facet.first.1 as int, facet.second.1 as int, facet.third.1 as int, grid.height as int)
            == Some((rows.0 as int, rows.1 as int)),
        x < cols.0 || x > cols.1 || y < rows.0 || y > rows.1,
    ensures
        !facet.covers(x, y),
{
    if facet.covers(x, y) {
        lemma_covered_cell_in_box(facet, x, y);
    }
}

impl Canvas {
    /// Draws one triangle. Each cell of the canvas that the triangle covers
    /// and on which it is not below the stored depth takes the depth of the
    /// triangle's plane there and the triangle's intensity; every other cell
    /// keeps what it held. A triangle without area, or one that turns
    /// counter-clockwise, changes nothing.
    pub fn rasterize(&mut self, facet: &Facet)
        requires
            old(self)@.wf(),
        ensures
            final(self)@.wf(),
            final(self)@.width == old(self)@.width,
            final(self)@.height == old(self)@.height,
            forall|u: int, v: int|
                old(self)@.contains(u, v) ==> #[trigger] final(self)@.depth_at(u, v)
                    == facet.depth_over(u, v, old(self)@.depth_at(u, v)),
            forall|u: int, v: int|
                old(self)@.contains(u, v) ==> #[trigger] final(self)@.intensity_at(u, v)
                    == facet.intensity_over(
                    u,
                    v,
                    old(self)@.depth_at(u, v),
                    old(self)@.intensity_at(u, v),
                ),
            facet.area() <= 0 ==> final(self)@ == old(self)@,
    {
        let ghost before = self@;
        match winding(facet.first, facet.second, facet.third) {
            Winding::Clockwise => {},
            _ => {
                proof {
                    assert forall|u: int, v: int| !facet.covers(u, v) by {
                        lemma_edges_sum_to_area(pos(facet.first), pos(facet.second), pos(facet.third), (u, v));
                    }
                }
                return ;
            },
        }
        let cols = match clipped_span(facet.first.0, facet.second.0, facet.third.0, self.width()) {
            Some(span) => span,
            None => {
                return ;
            },
        };
        let rows = match clipped_span(facet.first.1, facet.second.1, facet.third.1, self.height()) {
            Some(span) => span,
            None => {
                return ;
            },
        };
        let mut v: usize = rows.0;
        proof {
            assert forall|x: int, y: int| before.contains(x, y) implies #[trigger] drawn_up_to(
                before,
                self@,
                *facet,
                x,
                y,
                0,
                v as int,
            ) by {
                if y < v {
                    lemma_outside_box_not_covered(before, *facet, cols, rows, x, y);
                }
            }
        }
        while v <= rows.1
            invariant
                before.wf(),
                self@.wf(),
                self@.width == before.width,
                self@.height == before.height,
                facet.area() > 0,
                span_of(
                    facet.first.0 as int,
                    facet.second.0 as int,
                    facet.third.0 as int,
                    before.width as int,
                ) == Some((cols.0 as int, cols.1 as int)),
                span_of(
                    facet.first.1 as int,
                    facet.second.1 as int,
                    facet.third.1 as int,
                    before.height as int,
                ) == Some((rows.0 as int, rows.1 as int)),
                cols.0 <= cols.1 < before.width,
                rows.0 <= v <= rows.1 + 1,
                rows.1 < before.height,
                forall|x: int, y: int|
                    before.contains(x, y) ==> #[trigger] drawn_up_to(
                        before,
                        self@,
                        *facet,
                        x,
                        y,
                        0,
                        v as int,
                    ),
            decreases rows.1 + 1 - v,
        {
            let mut u: usize = cols.0;
            proof {
                assert forall|x: int, y: int| before.contains(x, y) implies #[trigger] drawn_up_to(
                    before,
                    self@,
                    *facet,
                    x,
                    y,
                    u as int,
                    v as int,
                ) by {
                    assert(drawn_up_to(before, self@, *facet, x, y, 0, v as int));
                    if y == v && x < u {
                        lemma_outside_box_not_covered(before, *facet, cols, rows, x, y);
                    }
                }
            }
            while u <= cols.1
                invariant
                    before.wf(),
                    self@.wf(),
                    self@.width == before.width,
                    self@.height == before.height,
                    facet.area() > 0,
                    cols.0 <= u <= cols.1 + 1,
                    cols.1 < before.width,
                    rows.0 <= v <= rows.1,
                    rows.1 < before.height,
                    forall|x: int, y: int|
                        before.contains(x, y) ==> #[trigger] drawn_up_to(
                            before,
                            self@,
                            *facet,
                            x,
                            y,
                            u as int,
                            v as int,
                        ),
                decreases cols.1 + 1 - u,
            {
                let ghost reached = self@;
                let inside = tri_edge_function(facet.first, facet.second, (u, v)) && tri_edge_function(
                    facet.second,
                    facet.third,
                    (u, v),
                ) && tri_edge_function(facet.third, facet.first, (u, v));
                if inside {
                    let depth = facet.plane.depth_at(u as u16, v as u16);
                    self.plot(u, v, depth, facet.intensity);
                }
                proof {
                    assert forall|x: int, y: int| before.contains(x, y) implies #[trigger] drawn_up_to(
                        before,
                        self@,
                        *facet,
                        x,
                        y,
                        u + 1,
                        v as int,
                    ) by {
                        assert(drawn_up_to(before, reached, *facet, x, y, u as int, v as int));
                        reached.lemma_index_in_range(x, y);
                        reached.lemma_index_in_range(u as int, v as int);
                        if x != u || y != v {
                            if reached.index(x, y) == reached.index(u as int, v as int) {
                                reached.lemma_index_injective(x, y, u as int, v as int);
                            }
                        }
                    }
                }
                u += 1;
            }
            proof {
                assert forall|x: int, y: int| before.contains(x, y) implies #[trigger] drawn_up_to(
                    before,
                    self@,
                    *facet,
                    x,
                    y,
                    0,
                    v + 1,
                ) by {
                    assert(drawn_up_to(before, self@, *facet, x, y, u as int, v as int));
                    if y == v && x >= u {
                        lemma_outside_box_not_covered(before, *facet, cols, rows, x, y);
                    }
                }
            }
            v += 1;
        }
        proof {
            assert forall|x: int, y: int| before.contains(x, y) implies drawn_up_to(
                before,
                self@,
                *facet,
                x,
                y,
                0,
                before.height as int,
            ) by {
                assert(drawn_up_to(before, self@, *facet, x, y, 0, v as int));
                if y >= v {
                    lemma_outside_box_not_covered(before, *facet, cols, rows, x, y);
                }
            }
            assert forall|x: int, y: int| before.contains(x, y) implies #[trigger] self@.depth_at(x, y)
                == facet.depth_over(x, y, before.depth_at(x, y)) by {
                assert(drawn_up_to(before, self@, *facet, x, y, 0, before.height as int));
            }
            assert forall|x: int, y: int| before.contains(x, y) implies #[trigger] self@.intensity_at(
                x,
                y,
            ) == facet.intensity_over(x, y, before.depth_at(x, y), before.intensity_at(x, y)) by {
                assert(drawn_up_to(before, self@, *facet, x, y, 0, before.height as int));
            }
        }
    }
}

} // verus!
