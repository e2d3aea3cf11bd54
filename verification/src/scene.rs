//! Drawing a whole set of triangles: what each cell holds in the end.

use vstd::prelude::*;
use crate::canvas::Canvas;
use crate::canvas::BACKGROUND;
use crate::canvas::EMPTY_DEPTH;
use crate::canvas::MAX_EXTENT;
use crate::raster::Facet;

verus! {

/// `depth` is the largest among `floor` and the depths, on the cell, of the
/// triangles that cover it: it is one of them, and none of them is above it.
pub open spec fn is_deepest(facets: Seq<Facet>, u: int, v: int, floor: int, depth: int) -> bool {
    &&& depth >= floor
    &&& forall|i: int|
        0 <= i < facets.len() && #[trigger] facets[i].covers(u, v) ==> depth
            >= facets[i].plane.at(u, v)
    &&& (depth == floor || exists|i: int|
        0 <= i < facets.len() && #[trigger] facets[i].covers(u, v) && depth == facets[i].plane.at(
            u,
            v,
        ))
}

/// Triangle `i` is the one seen on the cell: it covers the cell at the depth
/// `depth`, and no later triangle does.
pub open spec fn shows(facets: Seq<Facet>, u: int, v: int, depth: int, i: int) -> bool {
    &&& 0 <= i < facets.len()
    &&& facets[i].covers(u, v)
    &&& facets[i].plane.at(u, v) == depth
    &&& forall|j: int|
        i < j < facets.len() && #[trigger] facets[j].covers(u, v) ==> facets[j].plane.at(u, v)
            != depth
}

/// The last triangle among the first `n` that covers the cell at the depth
/// `depth`, or -1 where there is none.
spec fn last_at_depth(facets: Seq<Facet>, u: int, v: int, depth: int, n: int) -> int
    decreases n,
{
    if n <= 0 {
        -1
    } else if n <= facets.len() && facets[n - 1].covers(u, v) && facets[n - 1].plane.at(u, v)
        == depth {
        n - 1
    } else {
        last_at_depth(facets, u, v, depth, n - 1)
    }
}

proof fn lemma_last_at_depth(facets: Seq<Facet>, u: int, v: int, depth: int, n: int)
    requires
        0 <= n <= facets.len(),
    ensures
        -1 <= last_at_depth(facets, u, v, depth, n) < n,
        last_at_depth(facets, u, v, depth, n) >= 0 ==> {
            let i = last_at_depth(facets, u, v, depth, n);
            facets[i].covers(u, v) && facets[i].plane.at(u, v) == depth
        },
        forall|j: int|
            last_at_depth(facets, u, v, depth, n) < j < n && #[trigger] facets[j].covers(u, v)
                ==> facets[j].plane.at(u, v) != depth,
    decreases n,
{
    if n > 0 {
        lemma_last_at_depth(facets, u, v, depth, n - 1);
    }
}

/// `shown` is the intensity of the cell once the triangles are drawn in
/// order over a cell of depth `floor` and intensity `under`, where `depth` is
/// the depth of the cell in the end: the intensity of the triangle seen on
/// the cell, or `under` where every covering triangle is below `floor`.
pub open spec fn is_shown(
    facets: Seq<Facet>,
    u: int,
    v: int,
    floor: int,
    depth: int,
    under: u8,
    shown: u8,
) -> bool {
    &&& (forall|i: int|
        0 <= i < facets.len() && #[trigger] facets[i].covers(u, v) ==> facets[i].plane.at(u, v)
            < floor) ==> shown == under
    &&& forall|i: int| #[trigger] shows(facets, u, v, depth, i) ==> shown == facets[i].intensity
}

/// The largest depth on a cell is determined: no two depths are both the
/// largest.
pub proof fn lemma_deepest_is_unique(
    facets: Seq<Facet>,
    u: int,
    v: int,
    floor: int,
    one: int,
    other: int,
)
    requires
        is_deepest(facets, u, v, floor, one),
        is_deepest(facets, u, v, floor, other),
    ensures
        one == other,
{
}

/// The intensity seen on a cell is determined by the triangles, the depth
/// of the cell in the end, and what the cell held.
pub proof fn lemma_shown_is_unique(
    facets: Seq<Facet>,
    u: int,
    v: int,
    floor: int,
    depth: int,
    under: u8,
    one: u8,
    other: u8,
)
    requires
        is_deepest(facets, u, v, floor, depth),
        is_shown(facets, u, v, floor, depth, under, one),
        is_shown(facets, u, v, floor, depth, under, other),
    ensures
        one == other,
{
    if exists|k: int|
        0 <= k < facets.len() && #[trigger] facets[k].covers(u, v) && facets[k].plane.at(u, v)
            >= floor {
        // some triangle reaches the floor, so one of them lies at `depth`,
        // and the last of those is the one seen
        lemma_last_at_depth(facets, u, v, depth, facets.len() as int);
        assert(shows(facets, u, v, depth, last_at_depth(facets, u, v, depth, facets.len() as int)));
    }
}

/// After a frame is rendered, the depth stored on a cell that some triangle
/// covers is the depth of one of the covering triangles, and none of them
/// is above it: the cell holds the depth of one triangle, not a mix of two.
pub proof fn lemma_rendered_depth_is_extremal(
    facets: Seq<Facet>,
    u: int,
    v: int,
    depth: int,
    k: int,
)
    requires
        0 <= u <= MAX_EXTENT,
        0 <= v <= MAX_EXTENT,
        is_deepest(facets, u, v, EMPTY_DEPTH as int, depth),
        0 <= k < facets.len(),
        facets[k].covers(u, v),
    ensures
        depth >= facets[k].plane.at(u, v),
        depth > EMPTY_DEPTH,
        exists|i: int|
            0 <= i < facets.len() && #[trigger] facets[i].covers(u, v) && depth
                == facets[i].plane.at(u, v),
{
    facets[k].plane.lemma_above_empty(u, v);
}

/// After a frame is rendered, a cell that no triangle covers is blank.
pub proof fn lemma_uncovered_cell_is_blank(facets: Seq<Facet>, u: int, v: int, depth: int, shown: u8)
    requires
        is_deepest(facets, u, v, EMPTY_DEPTH as int, depth),
        is_shown(facets, u, v, EMPTY_DEPTH as int, depth, BACKGROUND, shown),
        forall|i: int| 0 <= i < facets.len() ==> !#[trigger] facets[i].covers(u, v),
    ensures
        depth == EMPTY_DEPTH,
        shown == BACKGROUND,
{
}

/// Drawing one more triangle keeps the depth of a cell the largest so far,
/// and its intensity the one of the triangle seen there.
pub proof fn lemma_draw_one_more(
    facets: Seq<Facet>,
    k: int,
    u: int,
    v: int,
    floor: int,
    under: u8,
    depth: int,
    shown: u8,
)
    requires
        0 <= k < facets.len(),
        is_deepest(facets.take(k), u, v, floor, depth),
        is_shown(facets.take(k), u, v, floor, depth, under, shown),
    ensures
        is_deepest(facets.take(k + 1), u, v, floor, facets[k].depth_over(u, v, depth)),
        is_shown(
            facets.take(k + 1),
            u,
            v,
            floor,
            facets[k].depth_over(u, v, depth),
            under,
            facets[k].intensity_over(u, v, depth, shown),
        ),
{
    let done = facets.take(k);
    let more = facets.take(k + 1);
    let next = facets[k];
    let depth2 = next.depth_over(u, v, depth);
    let shown2 = next.intensity_over(u, v, depth, shown);
    assert(more[k] == next);
    assert forall|i: int| 0 <= i < k implies more[i] == done[i] by {}
    // the depth is not below any covering triangle, and is one of them
    assert forall|i: int| 0 <= i < more.len() && #[trigger] more[i].covers(u, v) implies depth2
        >= more[i].plane.at(u, v) by {
        if i < k {
            assert(done[i].covers(u, v));
        }
    }
    if next.wins(u, v, depth) {
        assert(more[k].covers(u, v) && depth2 == more[k].plane.at(u, v));
    } else if depth != floor {
        let i = choose|i: int|
            0 <= i < done.len() && #[trigger] done[i].covers(u, v) && depth == done[i].plane.at(u, v);
        assert(more[i].covers(u, v) && depth2 == more[i].plane.at(u, v));
    }
    // where every covering triangle is below the floor, nothing was drawn
    if forall|i: int|
        0 <= i < more.len() && #[trigger] more[i].covers(u, v) ==> more[i].plane.at(u, v) < floor {
        assert forall|i: int|
            0 <= i < done.len() && #[trigger] done[i].covers(u, v) implies done[i].plane.at(u, v)
            < floor by {
            assert(more[i].covers(u, v));
        }
        assert(next.covers(u, v) ==> more[k].covers(u, v));
        assert(shown2 == under);
    }
    // the triangle seen is the new one where it wins, and the one seen
    // before where it does not
    assert forall|i: int| #[trigger] shows(more, u, v, depth2, i) implies shown2
        == more[i].intensity by {
        if i < k {
            assert(next.covers(u, v) ==> more[k].covers(u, v));
            assert(!next.wins(u, v, depth));
            assert forall|j: int|
                i < j < done.len() && #[trigger] done[j].covers(u, v) implies done[j].plane.at(u, v)
                != depth by {
                assert(more[j].covers(u, v));
            }
            assert(shows(done, u, v, depth, i));
        }
    }
}

impl Canvas {
    /// Draws the triangles in order. In the end each cell holds the largest
    /// depth among the one it held and those of the triangles that cover it,
    /// and the intensity of the last triangle that covers it at that depth.
    pub fn draw(&mut self, facets: &Vec<Facet>)
        requires
            old(self)@.wf(),
        ensures
            final(self)@.wf(),
            final(self)@.width == old(self)@.width,
            final(self)@.height == old(self)@.height,
            forall|u: int, v: int|
                old(self)@.contains(u, v) ==> is_deepest(
                    facets@,
                    u,
                    v,
                    old(self)@.depth_at(u, v),
                    #[trigger] final(self)@.depth_at(u, v),
                ),
            forall|u: int, v: int|
                old(self)@.contains(u, v) ==> is_shown(
                    facets@,
                    u,
                    v,
                    old(self)@.depth_at(u, v),
                    final(self)@.depth_at(u, v),
                    old(self)@.intensity_at(u, v),
                    #[trigger] final(self)@.intensity_at(u, v),
                ),
    {
        let ghost before = self@;
        let mut k: usize = 0;
        while k < facets.len()
            invariant
                k <= facets.len(),
                self@.wf(),
                self@.width == before.width,
                self@.height == before.height,
                forall|u: int, v: int|
                    before.contains(u, v) ==> is_deepest(
                        facets@.take(k as int),
                        u,
                        v,
                        before.depth_at(u, v),
                        #[trigger] self@.depth_at(u, v),
                    ),
                forall|u: int, v: int|
                    before.contains(u, v) ==> is_shown(
                        facets@.take(k as int),
                        u,
                        v,
                        before.depth_at(u, v),
                        self@.depth_at(u, v),
                        before.intensity_at(u, v),
                        #[trigger] self@.intensity_at(u, v),
                    ),
            decreases facets.len() - k,
        {
            let ghost reached = self@;
            self.rasterize(&facets[k]);
            proof {
                assert forall|u: int, v: int| before.contains(u, v) implies is_deepest(
                    facets@.take(k + 1),
                    u,
                    v,
                    before.depth_at(u, v),
                    #[trigger] self@.depth_at(u, v),
                ) by {
                    lemma_draw_one_more(
                        facets@,
                        k as int,
                        u,
                        v,
                        before.depth_at(u, v),
                        before.intensity_at(u, v),
                        reached.depth_at(u, v),
                        reached.intensity_at(u, v),
                    );
                }
                assert forall|u: int, v: int| before.contains(u, v) implies is_shown(
                    facets@.take(k + 1),
                    u,
                    v,
                    before.depth_at(u, v),
                    self@.depth_at(u, v),
                    before.intensity_at(u, v),
                    #[trigger] self@.intensity_at(u, v),
                ) by {
                    lemma_draw_one_more(
                        facets@,
                        k as int,
                        u,
                        v,
                        before.depth_at(u, v),
                        before.intensity_at(u, v),
                        reached.depth_at(u, v),
                        reached.intensity_at(u, v),
                    );
                }
            }
            k += 1;
        }
        proof {
            assert(facets@.take(k as int) =~= facets@);
        }
    }

    /// Renders one frame: clears the canvas, then draws the triangles in
    /// order. A cell that no triangle covers shows the background; every
    /// other cell holds the largest depth among the triangles that cover it,
    /// and the intensity of the last triangle that covers it at that depth.
    pub fn render(&mut self, facets: &Vec<Facet>)
        requires
            old(self)@.wf(),
        ensures
            final(self)@.wf(),
            final(self)@.width == old(self)@.width,
            final(self)@.height == old(self)@.height,
            forall|u: int, v: int|
                old(self)@.contains(u, v) ==> is_deepest(
                    facets@,
                    u,
                    v,
                    EMPTY_DEPTH as int,
                    #[trigger] final(self)@.depth_at(u, v),
                ),
            forall|u: int, v: int|
                old(self)@.contains(u, v) ==> is_shown(
                    facets@,
                    u,
                    v,
                    EMPTY_DEPTH as int,
                    final(self)@.depth_at(u, v),
                    BACKGROUND,
                    #[trigger] final(self)@.intensity_at(u, v),
                ),
    {
        self.clear();
        let ghost blank = self@;
        proof {
            assert forall|u: int, v: int| blank.contains(u, v) implies blank.depth_at(u, v)
                == EMPTY_DEPTH && blank.intensity_at(u, v) == BACKGROUND by {
                blank.lemma_index_in_range(u, v);
            }
        }
        self.draw(facets);
    }
}

} // verus!
