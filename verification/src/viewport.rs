//! Following the size of the terminal.

use vstd::prelude::*;
use crate::canvas::Canvas;
use crate::canvas::Grid;

verus! {

/// What a poll of the terminal size found.
#[derive(Clone, Copy, Debug, PartialEq, Eq, Structural)]
pub enum ResizePoll {
    /// The terminal has a new size: the canvas was rebuilt for it, and
    /// whatever is derived from the size has to be computed again.
    Resized,
    /// The terminal has the size it had: nothing was touched.
    Unchanged,
    /// The size could not be had: nothing was touched, and the run ends.
    Fault,
}

/// Takes in the answer to a query of the terminal size, `None` where the
/// query failed. Stores a new size in `w` and `h` and tells whether the size
/// has changed; a failed query is an error and leaves both as they were.
pub fn update_size(w: &mut usize, h: &mut usize, size: Option<(u16, u16)>) -> (res: Result<bool, ()>)
    ensures
        size is None ==> res is Err && *final(w) == *old(w) && *final(h) == *old(h),
        size matches Some(s) ==> res == Ok::<bool, ()>(s.0 != *old(w) || s.1 != *old(h))
            && *final(w) == s.0 && *final(h) == s.1,
{
    if let Some(size) = size {
        let new_w: usize = size.0 as usize;
        let new_h: usize = size.1 as usize;

        if new_w == *w && new_h == *h {
            return Ok(false);
        }
        *w = new_w;
        *h = new_h;
        return Ok(true);
    } else {
        return Err(());
    }
}

/// What a poll finds for a grid and an answer to the query: a fault where
/// the query failed, no change where the answer is the extent of the grid,
/// and a new size otherwise.
pub open spec fn poll_outcome(grid: Grid, size: Option<(u16, u16)>) -> ResizePoll {
    match size {
        None => ResizePoll::Fault,
        Some(s) => if s.0 == grid.width && s.1 == grid.height {
            ResizePoll::Unchanged
        } else {
            ResizePoll::Resized
        },
    }
}

/// The grid after a poll: a blank grid of the new size where the size is
/// new, and the grid as it was otherwise.
pub open spec fn grid_after_poll(grid: Grid, size: Option<(u16, u16)>) -> Grid {
    match size {
        Some(s) if poll_outcome(grid, size) == ResizePoll::Resized => Grid::blank(
            s.0 as nat,
            s.1 as nat,
        ),
        _ => grid,
    }
}

/// Polling is idempotent: a second poll that gets the same answer as the
/// first finds nothing to do and leaves the grid as the first poll left it.
pub proof fn lemma_poll_is_idempotent(grid: Grid, size: Option<(u16, u16)>)
    ensures
        size is Some ==> poll_outcome(grid_after_poll(grid, size), size) == ResizePoll::Unchanged,
        grid_after_poll(grid_after_poll(grid, size), size) == grid_after_poll(grid, size),
{
}

impl Canvas {
    /// Brings the canvas in line with the answer to a query of the terminal
    /// size, `None` where the query failed. A new size gives a blank canvas
    /// of that size; the same size, or a failed query, leaves the canvas
    /// exactly as it was.
    pub fn poll_resize(&mut self, size: Option<(u16, u16)>) -> (poll: ResizePoll)
        requires
            old(self)@.wf(),
        ensures
            final(self)@.wf(),
            poll == poll_outcome(old(self)@, size),
            final(self)@ == grid_after_poll(old(self)@, size),
            poll != ResizePoll::Resized ==> *final(self) == *old(self),
    {
        let mut w: usize = self.width();
        let mut h: usize = self.height();
        match update_size(&mut w, &mut h, size) {
            Err(_) => ResizePoll::Fault,
            Ok(false) => ResizePoll::Unchanged,
            Ok(true) => {
                *self = Canvas::new(w as u16, h as u16);
                ResizePoll::Resized
            },
        }
    }
}

} // verus!
