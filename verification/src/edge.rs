//! Edge functions: on which side of a directed segment a point lies.

use vstd::prelude::*;

verus! {

/// A screen position as a pair of mathematical integers.
pub open spec fn pos(p: (usize, usize)) -> (int, int) {
    (p.0 as int, p.1 as int)
}

/// Twice the signed area of the triangle `a`, `b`, `p`. On a screen whose
/// rows grow downwards it is positive when `a -> b -> p` turns clockwise,
/// zero when the three points lie on one line.
pub open spec fn edge(a: (int, int), b: (int, int), p: (int, int)) -> int {
    (b.0 - a.0) * (p.1 - a.1) - (b.1 - a.1) * (p.0 - a.0)
}

/// The sign of an integer: -1, 0 or 1.
pub open spec fn signum(x: int) -> int {
    if x < 0 {
        -1
    } else if x == 0 {
        0
    } else {
        1
    }
}

/// The turning direction of three screen points taken in order.
#[derive(Clone, Copy, Debug, PartialEq, Eq, Structural)]
pub enum Winding {
    /// `a -> b -> c` turns clockwise: the edge function is positive.
    Clockwise,
    /// The points lie on one line: the triangle has no area.
    Degenerate,
    /// `a -> b -> c` turns counter-clockwise: the edge function is negative.
    CounterClockwise,
}

impl Winding {
    /// The sign of the edge function that a winding stands for.
    pub open spec fn sign(self) -> int {
        match self {
            Winding::Clockwise => 1,
            Winding::Degenerate => 0,
            Winding::CounterClockwise => -1,
        }
    }
}

/// A product of two coordinate differences, held as a sign and a magnitude
/// so that it fits whatever the coordinates are.
struct SignedProduct {
    negative: bool,
    magnitude: u128,
}

impl SignedProduct {
    spec fn value(self) -> int {
        if self.negative {
            -(self.magnitude as int)
        } else {
            self.magnitude as int
        }
    }

    spec fn normal(self) -> bool {
        self.magnitude == 0 ==> !self.negative
    }
}

proof fn lemma_magnitude_fits(x: int, y: int)
    by (nonlinear_arith)
    requires
        0 <= x <= 0xffff_ffff_ffff_ffff,
        0 <= y <= 0xffff_ffff_ffff_ffff,
    ensures
        0 <= x * y <= 0xffff_ffff_ffff_fffe_0000_0000_0000_0001,
{
}

proof fn lemma_product_sign(dx: int, dy: int)
    by (nonlinear_arith)
    ensures
        (-dx) * dy == -(dx * dy),
        dx * (-dy) == -(dx * dy),
        (-dx) * (-dy) == dx * dy,
        (dx != 0 && dy != 0) ==> dx * dy != 0,
{
}

/// Computes `(x1 - x0) * (y1 - y0)` without overflow.
fn product_of_differences(x0: usize, x1: usize, y0: usize, y1: usize) -> (r: SignedProduct)
    ensures
        r.value() == (x1 - x0) * (y1 - y0),
        r.normal(),
{
    let dx_negative = x1 < x0;
    let dy_negative = y1 < y0;
    let dx: usize = if dx_negative { x0 - x1 } else { x1 - x0 };
    let dy: usize = if dy_negative { y0 - y1 } else { y1 - y0 };
    proof {
        lemma_magnitude_fits(dx as int, dy as int);
        lemma_product_sign(dx as int, dy as int);
    }
    let magnitude: u128 = (dx as u128) * (dy as u128);
    let negative = magnitude != 0 && dx_negative != dy_negative;
    SignedProduct { negative, magnitude }
}

/// The turning direction of `a -> b -> c`, exact for every coordinate.
pub fn winding(a: (usize, usize), b: (usize, usize), c: (usize, usize)) -> (w: Winding)
    ensures
        w.sign() == signum(edge(pos(a), pos(b), pos(c))),
{
    let left = product_of_differences(a.0, b.0, a.1, c.1);
    let right = product_of_differences(a.1, b.1, a.0, c.0);
    if left.negative == right.negative {
        if left.magnitude == right.magnitude {
            Winding::Degenerate
        } else if (left.magnitude > right.magnitude) != left.negative {
            Winding::Clockwise
        } else {
            Winding::CounterClockwise
        }
    } else if left.negative {
        Winding::CounterClockwise
    } else {
        Winding::Clockwise
    }
}

/// Tells whether `c` lies on the clockwise side of the directed edge
/// `a -> b`, or on the edge itself.
pub fn tri_edge_function(a: (usize, usize), b: (usize, usize), c: (usize, usize)) -> (r: bool)
    ensures
        r == (edge(pos(a), pos(b), pos(c)) >= 0),
{
    match winding(a, b, c) {
        Winding::CounterClockwise => false,
        _ => true,
    }
}

/// `p` is the mean of the corners `a`, `b`, `c` taken with the weights
/// `wa`, `wb`, `wc`, whose sum is positive.
pub open spec fn is_weighted_mean(
    a: (int, int),
    b: (int, int),
    c: (int, int),
    p: (int, int),
    wa: int,
    wb: int,
    wc: int,
) -> bool {
    &&& wa + wb + wc > 0
    &&& (wa + wb + wc) * p.0 == wa * a.0 + wb * b.0 + wc * c.0
    &&& (wa + wb + wc) * p.1 == wa * a.1 + wb * b.1 + wc * c.1
}

/// `p` lies strictly inside the boundary of the triangle `a`, `b`, `c`: it is
/// a mean of the corners in which every corner has a positive weight.
pub open spec fn strictly_inside(a: (int, int), b: (int, int), c: (int, int), p: (int, int)) -> bool {
    exists|wa: int, wb: int, wc: int|
        wa > 0 && wb > 0 && wc > 0 && #[trigger] is_weighted_mean(a, b, c, p, wa, wb, wc)
}

/// `p` lies inside the triangle `a`, `b`, `c` or on its boundary: it is a
/// mean of the corners in which no corner has a negative weight.
pub open spec fn inside_or_on_boundary(
    a: (int, int),
    b: (int, int),
    c: (int, int),
    p: (int, int),
) -> bool {
    exists|wa: int, wb: int, wc: int|
        wa >= 0 && wb >= 0 && wc >= 0 && #[trigger] is_weighted_mean(a, b, c, p, wa, wb, wc)
}

/// The inside test of the rasterizer: none of the three edge functions of
/// the triangle is negative at `p`.
pub open spec fn passes_edge_tests(a: (int, int), b: (int, int), c: (int, int), p: (int, int)) -> bool {
    edge(a, b, p) >= 0 && edge(b, c, p) >= 0 && edge(c, a, p) >= 0
}

/// The edge function written out as a sum of products of coordinates.
proof fn lemma_edge_expanded(a: (int, int), b: (int, int), p: (int, int))
    by (nonlinear_arith)
    ensures
        edge(a, b, p) == b.0 * p.1 - b.0 * a.1 - a.0 * p.1 - b.1 * p.0 + b.1 * a.0 + a.1 * p.0,
{
}

/// The three edge functions at any point add up to the edge function of the
/// triangle itself.
pub proof fn lemma_edges_sum_to_area(a: (int, int), b: (int, int), c: (int, int), p: (int, int))
    ensures
        edge(a, b, p) + edge(b, c, p) + edge(c, a, p) == edge(a, b, c),
{
    lemma_edge_expanded(a, b, p);
    lemma_edge_expanded(b, c, p);
    lemma_edge_expanded(c, a, p);
    lemma_edge_expanded(a, b, c);
}

/// Rotating the corners of a triangle leaves its edge function unchanged.
pub proof fn lemma_edge_is_cyclic(a: (int, int), b: (int, int), c: (int, int))
    ensures
        edge(b, c, a) == edge(a, b, c),
        edge(c, a, b) == edge(a, b, c),
{
    lemma_edge_expanded(a, b, c);
    lemma_edge_expanded(b, c, a);
    lemma_edge_expanded(c, a, b);
}

/// A difference times a factor, term by term.
proof fn lemma_difference_scaled(s: int, t: int, k: int)
    by (nonlinear_arith)
    ensures
        (s - t) * k == s * k - t * k,
{
}

/// A product of three factors does not depend on their grouping or order.
proof fn lemma_triple_product(x: int, y: int, z: int)
    by (nonlinear_arith)
    ensures
        (x * y) * z == (z * y) * x,
        (x * y) * z == (x * z) * y,
        (x * y) * z == (y * z) * x,
{
}

/// The weighted-mean identity for a triangle with one corner at the origin
/// and the other two at `u` and `v`, at the point `q`.
proof fn lemma_weights_at_origin(ux: int, uy: int, vx: int, vy: int, qx: int, qy: int)
    ensures
        (ux * vy - uy * vx) * qx == (qx * vy - qy * vx) * ux + (ux * qy - uy * qx) * vx,
        (ux * vy - uy * vx) * qy == (qx * vy - qy * vx) * uy + (ux * qy - uy * qx) * vy,
{
    lemma_difference_scaled(ux * vy, uy * vx, qx);
    lemma_difference_scaled(qx * vy, qy * vx, ux);
    lemma_difference_scaled(ux * qy, uy * qx, vx);
    lemma_triple_product(ux, vy, qx);
    lemma_triple_product(qy, vx, ux);
    lemma_triple_product(uy, vx, qx);
    lemma_difference_scaled(ux * vy, uy * vx, qy);
    lemma_difference_scaled(qx * vy, qy * vx, uy);
    lemma_difference_scaled(ux * qy, uy * qx, vy);
    lemma_triple_product(ux, vy, qy);
    lemma_triple_product(qx, vy, uy);
    lemma_triple_product(uy, vx, qy);
}

/// Moves the weighted-mean identity from the origin back to the corner `a`.
proof fn lemma_weights_shifted(
    area: int,
    ea: int,
    eb: int,
    ec: int,
    a: int,
    u: int,
    v: int,
    q: int,
)
    by (nonlinear_arith)
    requires
        area == ea + eb + ec,
        area * q == eb * u + ec * v,
    ensures
        area * (a + q) == ea * a + eb * (a + u) + ec * (a + v),
{
}

/// The edge functions at `p` are weights under which `p` is the mean of the
/// corners, up to the common factor `edge(a, b, c)`.
pub proof fn lemma_edges_are_weights(a: (int, int), b: (int, int), c: (int, int), p: (int, int))
    ensures
        edge(a, b, c) * p.0 == edge(b, c, p) * a.0 + edge(c, a, p) * b.0 + edge(a, b, p) * c.0,
        edge(a, b, c) * p.1 == edge(b, c, p) * a.1 + edge(c, a, p) * b.1 + edge(a, b, p) * c.1,
{
    let u = (b.0 - a.0, b.1 - a.1);
    let v = (c.0 - a.0, c.1 - a.1);
    let q = (p.0 - a.0, p.1 - a.1);
    lemma_edges_sum_to_area(a, b, c, p);
    lemma_edge_is_cyclic(a, p, c);
    assert(edge(a, b, c) == u.0 * v.1 - u.1 * v.0);
    assert(edge(a, b, p) == u.0 * q.1 - u.1 * q.0);
    assert(edge(c, a, p) == q.0 * v.1 - q.1 * v.0);
    lemma_weights_at_origin(u.0, u.1, v.0, v.1, q.0, q.1);
    lemma_weights_shifted(
        edge(a, b, c), edge(b, c, p), edge(c, a, p), edge(a, b, p), a.0, u.0, v.0, q.0,
    );
    lemma_weights_shifted(
        edge(a, b, c), edge(b, c, p), edge(c, a, p), edge(a, b, p), a.1, u.1, v.1, q.1,
    );
}

/// A weighted mean seen from the corner `a`: the offset of the point is the
/// mean of the offsets of the other two corners.
proof fn lemma_mean_offset(sum: int, wa: int, wb: int, wc: int, a: int, b: int, c: int, p: int)
    by (nonlinear_arith)
    requires
        sum == wa + wb + wc,
        sum * p == wa * a + wb * b + wc * c,
    ensures
        sum * (p - a) == wb * (b - a) + wc * (c - a),
{
}

/// At a point whose offset is the mean of the offsets `u` and `v`, the edge
/// function along `u` is the one of the whole triangle, scaled by the
/// weight of `v`.
proof fn lemma_mean_edge_at_origin(
    sum: int,
    wb: int,
    wc: int,
    ux: int,
    uy: int,
    vx: int,
    vy: int,
    qx: int,
    qy: int,
)
    requires
        sum * qx == wb * ux + wc * vx,
        sum * qy == wb * uy + wc * vy,
    ensures
        sum * (ux * qy - uy * qx) == wc * (ux * vy - uy * vx),
{
    assert(sum * (ux * qy - uy * qx) == ux * (sum * qy) - uy * (sum * qx)) by (nonlinear_arith);
    assert(ux * (wb * uy + wc * vy) - uy * (wb * ux + wc * vx) == wc * (ux * vy - uy * vx))
        by (nonlinear_arith);
}

/// At a weighted mean of the corners, each edge function is the edge
/// function of the triangle scaled by the weight of the opposite corner.
pub proof fn lemma_edges_at_weighted_mean(
    a: (int, int),
    b: (int, int),
    c: (int, int),
    p: (int, int),
    wa: int,
    wb: int,
    wc: int,
)
    requires
        is_weighted_mean(a, b, c, p, wa, wb, wc),
    ensures
        (wa + wb + wc) * edge(a, b, p) == wc * edge(a, b, c),
        (wa + wb + wc) * edge(b, c, p) == wa * edge(a, b, c),
        (wa + wb + wc) * edge(c, a, p) == wb * edge(a, b, c),
{
    let sum = wa + wb + wc;
    lemma_edge_is_cyclic(a, b, c);
    // seen from a
    lemma_mean_offset(sum, wa, wb, wc, a.0, b.0, c.0, p.0);
    lemma_mean_offset(sum, wa, wb, wc, a.1, b.1, c.1, p.1);
    lemma_mean_edge_at_origin(
        sum, wb, wc, b.0 - a.0, b.1 - a.1, c.0 - a.0, c.1 - a.1, p.0 - a.0, p.1 - a.1,
    );
    // seen from b
    lemma_mean_offset(sum, wb, wc, wa, b.0, c.0, a.0, p.0);
    lemma_mean_offset(sum, wb, wc, wa, b.1, c.1, a.1, p.1);
    lemma_mean_edge_at_origin(
        sum, wc, wa, c.0 - b.0, c.1 - b.1, a.0 - b.0, a.1 - b.1, p.0 - b.0, p.1 - b.1,
    );
    // seen from c
    lemma_mean_offset(sum, wc, wa, wb, c.0, a.0, b.0, p.0);
    lemma_mean_offset(sum, wc, wa, wb, c.1, a.1, b.1, p.1);
    lemma_mean_edge_at_origin(
        sum, wa, wb, a.0 - c.0, a.1 - c.1, b.0 - c.0, b.1 - c.1, p.0 - c.0, p.1 - c.1,
    );
}

/// Scaling two numbers by positive factors to a common value forces them to
/// have the same sign.
proof fn lemma_same_sign(sum: int, x: int, w: int, y: int)
    by (nonlinear_arith)
    requires
        sum > 0,
        w > 0,
        sum * x == w * y,
    ensures
        signum(x) == signum(y),
{
}

/// A number scaled by a positive factor to a product of a non-negative
/// weight and a positive number is itself non-negative.
proof fn lemma_not_negative(sum: int, x: int, w: int, y: int)
    by (nonlinear_arith)
    requires
        sum > 0,
        w >= 0,
        y > 0,
        sum * x == w * y,
    ensures
        x >= 0,
{
}

/// At every point strictly inside a triangle, each of the three edge
/// functions has the sign of the triangle's winding.
pub proof fn lemma_interior_agrees_with_winding(
    a: (usize, usize),
    b: (usize, usize),
    c: (usize, usize),
    p: (usize, usize),
)
    requires
        strictly_inside(pos(a), pos(b), pos(c), pos(p)),
    ensures
        signum(edge(pos(a), pos(b), pos(p))) == signum(edge(pos(a), pos(b), pos(c))),
        signum(edge(pos(b), pos(c), pos(p))) == signum(edge(pos(a), pos(b), pos(c))),
        signum(edge(pos(c), pos(a), pos(p))) == signum(edge(pos(a), pos(b), pos(c))),
{
    let (wa, wb, wc): (int, int, int) = choose|wa: int, wb: int, wc: int|
        wa > 0 && wb > 0 && wc > 0 && #[trigger] is_weighted_mean(
            pos(a),
            pos(b),
            pos(c),
            pos(p),
            wa,
            wb,
            wc,
        );
    let area = edge(pos(a), pos(b), pos(c));
    lemma_edges_at_weighted_mean(pos(a), pos(b), pos(c), pos(p), wa, wb, wc);
    lemma_same_sign(wa + wb + wc, edge(pos(a), pos(b), pos(p)), wc, area);
    lemma_same_sign(wa + wb + wc, edge(pos(b), pos(c), pos(p)), wa, area);
    lemma_same_sign(wa + wb + wc, edge(pos(c), pos(a), pos(p)), wb, area);
}

/// The negated edge functions are weights as well.
proof fn lemma_negated_weights(area: int, ea: int, eb: int, ec: int, a: int, b: int, c: int, p: int)
    by (nonlinear_arith)
    requires
        area * p == ea * a + eb * b + ec * c,
    ensures
        (-area) * p == (-ea) * a + (-eb) * b + (-ec) * c,
{
}

/// At every point strictly outside a triangle that has an area, at least one
/// of the three edge functions has the sign opposite to the triangle's
/// winding.
pub proof fn lemma_exterior_disagrees_with_winding(
    a: (usize, usize),
    b: (usize, usize),
    c: (usize, usize),
    p: (usize, usize),
)
    requires
        edge(pos(a), pos(b), pos(c)) != 0,
        !inside_or_on_boundary(pos(a), pos(b), pos(c), pos(p)),
    ensures
        signum(edge(pos(a), pos(b), pos(p))) == -signum(edge(pos(a), pos(b), pos(c)))
            || signum(edge(pos(b), pos(c), pos(p))) == -signum(edge(pos(a), pos(b), pos(c)))
            || signum(edge(pos(c), pos(a), pos(p))) == -signum(edge(pos(a), pos(b), pos(c))),
{
    let (pa, pb, pc, pp) = (pos(a), pos(b), pos(c), pos(p));
    let area = edge(pa, pb, pc);
    let ea = edge(pb, pc, pp);
    let eb = edge(pc, pa, pp);
    let ec = edge(pa, pb, pp);
    lemma_edges_sum_to_area(pa, pb, pc, pp);
    lemma_edges_are_weights(pa, pb, pc, pp);
    if area > 0 {
        if ea >= 0 && eb >= 0 && ec >= 0 {
            assert(is_weighted_mean(pa, pb, pc, pp, ea, eb, ec));
        }
    } else {
        if ea <= 0 && eb <= 0 && ec <= 0 {
            lemma_negated_weights(area, ea, eb, ec, pa.0, pb.0, pc.0, pp.0);
            lemma_negated_weights(area, ea, eb, ec, pa.1, pb.1, pc.1, pp.1);
            assert(is_weighted_mean(pa, pb, pc, pp, -ea, -eb, -ec));
        }
    }
}

/// For a clockwise triangle the inside test passes exactly at the points
/// inside the triangle or on its boundary.
pub proof fn lemma_edge_tests_decide_membership(
    a: (usize, usize),
    b: (usize, usize),
    c: (usize, usize),
    p: (usize, usize),
)
    requires
        edge(pos(a), pos(b), pos(c)) > 0,
    ensures
        passes_edge_tests(pos(a), pos(b), pos(c), pos(p)) <==> inside_or_on_boundary(
            pos(a),
            pos(b),
            pos(c),
            pos(p),
        ),
{
    let (pa, pb, pc, pp) = (pos(a), pos(b), pos(c), pos(p));
    let area = edge(pa, pb, pc);
    if passes_edge_tests(pa, pb, pc, pp) {
        lemma_edges_sum_to_area(pa, pb, pc, pp);
        lemma_edges_are_weights(pa, pb, pc, pp);
        assert(is_weighted_mean(pa, pb, pc, pp, edge(pb, pc, pp), edge(pc, pa, pp), edge(pa, pb, pp)));
    }
    if inside_or_on_boundary(pa, pb, pc, pp) {
        let (wa, wb, wc): (int, int, int) = choose|wa: int, wb: int, wc: int|
            wa >= 0 && wb >= 0 && wc >= 0 && #[trigger] is_weighted_mean(pa, pb, pc, pp, wa, wb, wc);
        lemma_edges_at_weighted_mean(pa, pb, pc, pp, wa, wb, wc);
        lemma_not_negative(wa + wb + wc, edge(pa, pb, pp), wc, area);
        lemma_not_negative(wa + wb + wc, edge(pb, pc, pp), wa, area);
        lemma_not_negative(wa + wb + wc, edge(pc, pa, pp), wb, area);
    }
}

} // verus!
