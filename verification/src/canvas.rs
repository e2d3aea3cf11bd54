//! The frame buffer and the depth buffer of one viewport.

use vstd::prelude::*;

verus! {

/// The largest width or height of a viewport, in cells.
pub const MAX_EXTENT: usize = 65535;

/// The intensity of a cell on which nothing was drawn.
pub const BACKGROUND: u8 = 0;

/// The depth of a cell on which nothing was drawn: it lies below every depth
/// that a depth plane takes on a cell.
pub const EMPTY_DEPTH: i128 = i128::MIN;

/// What a canvas holds: its extent and, row by row, the intensity and the
/// depth of each cell.
pub struct Grid {
    pub width: nat,
    pub height: nat,
    pub intensity: Seq<u8>,
    pub depth: Seq<i128>,
}

impl Grid {
    /// Both buffers hold one entry for each cell, and the extent is one that
    /// a viewport can have.
    pub open spec fn wf(self) -> bool {
        &&& self.width <= MAX_EXTENT
        &&& self.height <= MAX_EXTENT
        &&& self.intensity.len() == self.width * self.height
        &&& self.depth.len() == self.width * self.height
    }

    /// The cell in column `u` of row `v` exists.
    pub open spec fn contains(self, u: int, v: int) -> bool {
        0 <= u < self.width && 0 <= v < self.height
    }

    /// The place of a cell in the buffers.
    pub open spec fn index(self, u: int, v: int) -> int {
        v * self.width + u
    }

    /// The intensity stored for a cell.
    pub open spec fn intensity_at(self, u: int, v: int) -> u8 {
        self.intensity[self.index(u, v)]
    }

    /// The depth stored for a cell.
    pub open spec fn depth_at(self, u: int, v: int) -> int {
        self.depth[self.index(u, v)] as int
    }

    /// The grid of the given extent on which nothing is drawn: every cell
    /// shows the background and holds the empty depth.
    pub open spec fn blank(width: nat, height: nat) -> Grid {
        Grid {
            width,
            height,
            intensity: Seq::new(width * height, |i: int| BACKGROUND),
            depth: Seq::new(width * height, |i: int| EMPTY_DEPTH),
        }
    }

    /// Every cell has a place in the buffers.
    pub proof fn lemma_index_in_range(self, u: int, v: int)
        requires
            self.contains(u, v),
        ensures
            0 <= self.index(u, v) < self.width * self.height,
    {
        let w = self.width as int;
        let h = self.height as int;
        assert(0 <= v * w && v * w + w <= h * w) by (nonlinear_arith)
            requires
                0 <= v < h,
                0 <= w,
        ;
        assert(h * w == w * h) by (nonlinear_arith);
    }

    /// Two different cells have different places in the buffers.
    pub proof fn lemma_index_injective(self, u: int, v: int, x: int, y: int)
        requires
            self.contains(u, v),
            self.contains(x, y),
            self.index(u, v) == self.index(x, y),
        ensures
            u == x,
            v == y,
    {
        let w = self.width as int;
        assert(v == y) by (nonlinear_arith)
            requires
                0 <= u < w,
                0 <= x < w,
                v * w + u == y * w + x,
        ;
    }
}

/// A frame buffer and a depth buffer for a viewport of `width` by `height`
/// cells, both stored row by row.
pub struct Canvas {
    width: usize,
    height: usize,
    frame: Vec<u8>,
    depth: Vec<i128>,
}

impl View for Canvas {
    type V = Grid;

    closed spec fn view(&self) -> Grid {
        Grid {
            width: self.width as nat,
            height: self.height as nat,
            intensity: self.frame@,
            depth: self.depth@,
        }
    }
}

/// The number of cells in a viewport fits the machine.
proof fn lemma_cell_count_fits(width: int, height: int)
    by (nonlinear_arith)
    requires
        0 <= width <= 65535,
        0 <= height <= 65535,
    ensures
        0 <= width * height <= 0xfffe_0001,
{
}

impl Canvas {
    /// A blank canvas of `width` by `height` cells.
    pub fn new(width: u16, height: u16) -> (canvas: Canvas)
        ensures
            canvas@.wf(),
            canvas@ == Grid::blank(width as nat, height as nat),
    {
        proof {
            lemma_cell_count_fits(width as int, height as int);
        }
        let cells: usize = (width as usize) * (height as usize);
        let mut frame: Vec<u8> = Vec::new();
        let mut depth: Vec<i128> = Vec::new();
        let mut i: usize = 0;
        while i < cells
            invariant
                i <= cells,
                frame.len() == i,
                depth.len() == i,
                forall|k: int| 0 <= k < i ==> frame[k] == BACKGROUND,
                forall|k: int| 0 <= k < i ==> depth[k] == EMPTY_DEPTH,
            decreases cells - i,
        {
            frame.push(BACKGROUND);
            depth.push(EMPTY_DEPTH);
            i += 1;
        }
        let canvas = Canvas { width: width as usize, height: height as usize, frame, depth };
        assert(canvas@.intensity =~= Grid::blank(width as nat, height as nat).intensity);
        assert(canvas@.depth =~= Grid::blank(width as nat, height as nat).depth);
        canvas
    }

    /// The number of columns.
    pub fn width(&self) -> (w: usize)
        ensures
            w == self@.width,
    {
        self.width
    }

    /// The number of rows.
    pub fn height(&self) -> (h: usize)
        ensures
            h == self@.height,
    {
        self.height
    }

    /// The intensity stored for the cell in column `u` of row `v`, if the
    /// canvas has such a cell.
    pub fn intensity(&self, u: usize, v: usize) -> (shown: Option<u8>)
        requires
            self@.wf(),
        ensures
            shown == if self@.contains(u as int, v as int) {
                Some(self@.intensity_at(u as int, v as int))
            } else {
                None
            },
    {
        if u >= self.width || v >= self.height {
            return None;
        }
        proof {
            self@.lemma_index_in_range(u as int, v as int);
            lemma_cell_count_fits(self.width as int, self.height as int);
        }
        Some(self.frame[v * self.width + u])
    }

    /// The depth stored for the cell in column `u` of row `v`, if the canvas
    /// has such a cell.
    pub fn depth(&self, u: usize, v: usize) -> (stored: Option<i128>)
        requires
            self@.wf(),
        ensures
            stored matches Some(d) ==> d == self@.depth_at(u as int, v as int),
            stored is Some <==> self@.contains(u as int, v as int),
    {
        if u >= self.width || v >= self.height {
            return None;
        }
        proof {
            self@.lemma_index_in_range(u as int, v as int);
            lemma_cell_count_fits(self.width as int, self.height as int);
        }
        Some(self.depth[v * self.width + u])
    }

    /// Resets every cell to the background, with nothing drawn on it. The
    /// buffers keep their size.
    pub fn clear(&mut self)
        requires
            old(self)@.wf(),
        ensures
            final(self)@.wf(),
            final(self)@ == Grid::blank(old(self)@.width, old(self)@.height),
    {
        let cells: usize = self.frame.len();
        let mut i: usize = 0;
        while i < cells
            invariant
                i <= cells,
                self.frame.len() == cells,
                self.depth.len() == cells,
                self.width == old(self).width,
                self.height == old(self).height,
                forall|k: int| 0 <= k < i ==> self.frame[k] == BACKGROUND,
                forall|k: int| 0 <= k < i ==> self.depth[k] == EMPTY_DEPTH,
            decreases cells - i,
        {
            self.frame[i] = BACKGROUND;
            self.depth[i] = EMPTY_DEPTH;
            i += 1;
        }
        assert(self@.intensity =~= Grid::blank(old(self)@.width, old(self)@.height).intensity);
        assert(self@.depth =~= Grid::blank(old(self)@.width, old(self)@.height).depth);
    }

    /// Offers one cell a new depth, and draws on it where the new depth is
    /// not below the stored one: the cell then takes the depth and the
    /// intensity. A cell outside the canvas is never drawn on. Tells whether
    /// the cell was drawn on.
    pub fn plot(&mut self, u: usize, v: usize, depth: i128, intensity: u8) -> (drawn: bool)
        requires
            old(self)@.wf(),
        ensures
            final(self)@.wf(),
            final(self)@.width == old(self)@.width,
            final(self)@.height == old(self)@.height,
            drawn == (old(self)@.contains(u as int, v as int) && depth >= old(self)@.depth_at(
                u as int,
                v as int,
            )),
            drawn ==> final(self)@.intensity == old(self)@.intensity.update(
                old(self)@.index(u as int, v as int),
                intensity,
            ),
            drawn ==> final(self)@.depth == old(self)@.depth.update(
                old(self)@.index(u as int, v as int),
                depth,
            ),
            !drawn ==> final(self)@ == old(self)@,
    {
        if u >= self.width || v >= self.height {
            return false;
        }
        proof {
            self@.lemma_index_in_range(u as int, v as int);
            lemma_cell_count_fits(self.width as int, self.height as int);
        }
        let i: usize = v * self.width + u;
        if depth < self.depth[i] {
            return false;
        }
        self.depth[i] = depth;
        self.frame[i] = intensity;
        true
    }
}

} // verus!
