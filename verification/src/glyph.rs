//! Mapping from shaded intensity to a displayable glyph.

use vstd::prelude::*;
use crate::canvas::Canvas;
use crate::canvas::BACKGROUND;
use crate::canvas::Grid;

verus! {

/// The palette, ordered from the sparsest glyph to the densest.
pub open spec fn palette() -> Seq<char> {
    seq![' ', '.', ':', '=', '+', 'O', '0', '@']
}

/// The palette position that an intensity falls into: its top three bits.
pub open spec fn bucket(val: u8) -> int {
    val as int / 32
}

/// The glyph that stands for an intensity.
pub open spec fn glyph_of(val: u8) -> char {
    palette()[bucket(val)]
}

/// Turns an intensity from 0 to 255 into the glyph to print for it.
pub fn get_char_from_val(val: u8) -> (c: char)
    ensures
        c == glyph_of(val),
{
    let level: u8 = val >> 5;
    assert(level as int == val as int / 32) by (bit_vector)
        requires
            level == val >> 5,
    ;
    match level {
        7 => '@',
        6 => '0',
        5 => 'O',
        4 => '+',
        3 => '=',
        2 => ':',
        1 => '.',
        _ => ' ',
    }
}

/// The glyph mapping is a step function that never falls: a larger
/// intensity never gets a sparser glyph, and two intensities get the same
/// glyph exactly where their top three bits agree. The smallest intensity
/// gets the sparsest glyph of the palette and the largest intensity the
/// densest.
pub proof fn lemma_glyphs_are_monotone(low: u8, high: u8)
    requires
        low <= high,
    ensures
        0 <= bucket(low) <= bucket(high) < palette().len(),
        glyph_of(low) == glyph_of(high) <==> bucket(low) == bucket(high),
        glyph_of(0) == palette().first(),
        glyph_of(255) == palette().last(),
{
}

/// The number of characters that one row of a frame takes as text: one for
/// each cell and two for the end of the row.
pub open spec fn row_stride(grid: Grid) -> int {
    grid.width as int + 2
}

/// `text` is the frame as text: row after row, each row as the glyphs of its
/// cells from left to right, followed by a carriage return and a line feed.
pub open spec fn is_text_of(grid: Grid, text: Seq<char>) -> bool {
    &&& text.len() == grid.height * row_stride(grid)
    &&& forall|u: int, v: int|
        grid.contains(u, v) ==> #[trigger] text[v * row_stride(grid) + u] == glyph_of(
            grid.intensity_at(u, v),
        )
    &&& forall|v: int|
        0 <= v < grid.height ==> #[trigger] text[v * row_stride(grid) + grid.width] == '\r'
    &&& forall|v: int|
        0 <= v < grid.height ==> #[trigger] text[v * row_stride(grid) + grid.width + 1] == '\n'
}

/// While the text is written, every row before row `v` stands in it in full.
spec fn rows_written(grid: Grid, text: Seq<char>, v: int) -> bool {
    &&& forall|x: int, y: int|
        0 <= x < grid.width && 0 <= y < v ==> #[trigger] text[y * row_stride(grid) + x] == glyph_of(
            grid.intensity_at(x, y),
        )
    &&& forall|y: int| 0 <= y < v ==> #[trigger] text[y * row_stride(grid) + grid.width] == '\r'
    &&& forall|y: int| 0 <= y < v ==> #[trigger] text[y * row_stride(grid) + grid.width + 1] == '\n'
}

/// A place in an earlier row comes before the start of a later row.
proof fn lemma_earlier_row(y: int, v: int, stride: int, x: int)
    by (nonlinear_arith)
    requires
        0 <= y < v,
        0 <= x < stride,
    ensures
        0 <= y * stride + x < v * stride,
{
}

impl Canvas {
    /// Writes the frame as text, ready to be sent to the terminal.
    pub fn to_text(&self) -> (text: Vec<char>)
        requires
            self@.wf(),
        ensures
            is_text_of(self@, text@),
    {
        let ghost grid = self@;
        let ghost stride = row_stride(grid);
        let width: usize = self.width();
        let height: usize = self.height();
        let mut text: Vec<char> = Vec::new();
        let mut v: usize = 0;
        while v < height
            invariant
                grid == self@,
                grid.wf(),
                stride == row_stride(grid),
                width == grid.width,
                height == grid.height,
                v <= height,
                text.len() == v * stride,
                rows_written(grid, text@, v as int),
            decreases height - v,
        {
            let ghost start = text@;
            let mut u: usize = 0;
            while u < width
                invariant
                    grid == self@,
                    grid.wf(),
                    stride == row_stride(grid),
                    width == grid.width,
                    height == grid.height,
                    v < height,
                    u <= width,
                    text.len() == v * stride + u,
                    start.len() == v * stride,
                    forall|k: int| 0 <= k < start.len() ==> text[k] == start[k],
                    forall|x: int|
                        0 <= x < u ==> #[trigger] text[v * stride + x] == glyph_of(
                            grid.intensity_at(x, v as int),
                        ),
                decreases width - u,
            {
                let shown: u8 = match self.intensity(u, v) {
                    Some(shown) => shown,
                    None => BACKGROUND,
                };
                text.push(get_char_from_val(shown));
                u += 1;
            }
            text.push('\r');
            text.push('\n');
            proof {
                assert forall|x: int, y: int| 0 <= x < grid.width && 0 <= y < v + 1 implies #[trigger] text[y
                    * stride + x] == glyph_of(grid.intensity_at(x, y)) by {
                    if y < v {
                        lemma_earlier_row(y, v as int, stride, x);
                        assert(start[y * stride + x] == glyph_of(grid.intensity_at(x, y)));
                    }
                }
                assert forall|y: int| 0 <= y < v + 1 implies #[trigger] text[y * stride + grid.width]
                    == '\r' by {
                    if y < v {
                        lemma_earlier_row(y, v as int, stride, grid.width as int);
                        assert(start[y * stride + grid.width] == '\r');
                    }
                }
                assert forall|y: int| 0 <= y < v + 1 implies #[trigger] text[y * stride + grid.width + 1]
                    == '\n' by {
                    if y < v {
                        lemma_earlier_row(y, v as int, stride, grid.width as int + 1);
                        assert(start[y * stride + grid.width + 1] == '\n');
                    }
                }
                assert((v + 1) * stride == v * stride + stride) by (nonlinear_arith);
            }
            v += 1;
        }
        text
    }
}

} // verus!
