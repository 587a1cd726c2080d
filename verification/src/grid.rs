use vstd::prelude::*;
use crate::canvas::TileState;
use vstd::arithmetic::div_mod::{
    lemma_div_pos_is_pos, lemma_fundamental_div_mod, lemma_fundamental_div_mod_converse,
    lemma_mod_bound,
};

verus! {

/// A rectangle of optional tiles, stored row by row: the mathematical
/// content of a canvas.
pub struct Grid {
    pub width: nat,
    pub height: nat,
    pub cells: Seq<Option<TileState>>,
}

impl Grid {
    /// There is exactly one cell for every position.
    pub open spec fn wf(self) -> bool {
        self.cells.len() == self.width * self.height
    }

    /// Whether `(x, y)` is a position of this grid.
    pub open spec fn contains(self, x: int, y: int) -> bool {
        0 <= x < self.width && 0 <= y < self.height
    }

    /// Where the cell at `(x, y)` lies in `cells`.
    pub open spec fn offset(self, x: int, y: int) -> int {
        y * self.width + x
    }

    /// The cell at `(x, y)`.
    pub open spec fn at(self, x: int, y: int) -> Option<TileState> {
        self.cells[self.offset(x, y)]
    }

    /// The grid of the given size with every cell empty.
    pub open spec fn blank(width: nat, height: nat) -> Grid {
        Grid { width, height, cells: Seq::new(width * height, |i: int| None) }
    }

    /// This grid with the cell at `(x, y)` replaced by `value`.
    pub open spec fn put(self, x: int, y: int, value: Option<TileState>) -> Grid {
        Grid { cells: self.cells.update(self.offset(x, y), value), ..self }
    }

    /// This grid with `value` in every cell of the rectangle whose opposite
    /// corners are `(x0, y0)` and `(x1, y1)`, the corners in either order.
    pub open spec fn fill_rect(self, x0: int, y0: int, x1: int, y1: int, value: Option<TileState>) -> Grid {
        let w = self.width as int;
        Grid {
            cells: Seq::new(
                self.cells.len(),
                |i: int|
                    if between(x0, x1, i % w) && between(y0, y1, i / w) {
                        value
                    } else {
                        self.cells[i]
                    },
            ),
            ..self
        }
    }

    /// This grid with `value` in every cell that `mask` marks; `mask` holds
    /// one row of flags for each row of the grid.
    pub open spec fn fill_mask(self, mask: Seq<Seq<bool>>, value: Option<TileState>) -> Grid {
        let w = self.width as int;
        Grid {
            cells: Seq::new(
                self.cells.len(),
                |i: int|
                    if mask[i / w][i % w] {
                        value
                    } else {
                        self.cells[i]
                    },
            ),
            ..self
        }
    }

    /// Whether `mask` has the shape of this grid.
    pub open spec fn fits_mask(self, mask: Seq<Seq<bool>>) -> bool {
        &&& mask.len() == self.height
        &&& forall|y: int| 0 <= y < mask.len() ==> (#[trigger] mask[y]).len() == self.width
    }

    /// How many columns a resize copies: as many as both the old grid, read
    /// from column `copy_x`, and the new one, written from column `paste_x`,
    /// have left.
    pub open spec fn span(new_size: int, paste: int, old_size: int, copy: int) -> int {
        if new_size - paste <= old_size - copy {
            new_size - paste
        } else {
            old_size - copy
        }
    }

    /// Whether a resize with these parameters reads and writes only cells
    /// that exist.
    pub open spec fn can_resize(
        self,
        width: int,
        height: int,
        copy_x: int,
        copy_y: int,
        paste_x: int,
        paste_y: int,
    ) -> bool {
        &&& 1 <= width
        &&& 1 <= height
        &&& width * height <= usize::MAX
        &&& 0 <= copy_x <= self.width
        &&& 0 <= copy_y <= self.height
        &&& 0 <= paste_x <= width
        &&& 0 <= paste_y <= height
    }

    /// The grid of size `width` by `height` that holds, from `(paste_x,
    /// paste_y)` on, the part of this grid that starts at `(copy_x, copy_y)`,
    /// as far as both grids reach, and is empty elsewhere.
    pub open spec fn resized(
        self,
        width: int,
        height: int,
        copy_x: int,
        copy_y: int,
        paste_x: int,
        paste_y: int,
    ) -> Grid {
        let span_x = Self::span(width, paste_x, self.width as int, copy_x);
        let span_y = Self::span(height, paste_y, self.height as int, copy_y);
        Grid {
            width: width as nat,
            height: height as nat,
            cells: Seq::new(
                (width * height) as nat,
                |i: int|
                    {
                        let x = i % width;
                        let y = i / width;
                        if paste_x <= x < paste_x + span_x && paste_y <= y < paste_y + span_y {
                            self.at(x - paste_x + copy_x, y - paste_y + copy_y)
                        } else {
                            None
                        }
                    },
            ),
        }
    }
}

/// Whether `v` lies between `a` and `b`, whichever of the two is smaller.
pub open spec fn between(a: int, b: int, v: int) -> bool {
    (a <= v <= b) || (b <= v <= a)
}

/// A position inside a grid of width `w` and height `h` has its offset
/// inside the row-major cell sequence.
pub proof fn lemma_offset_in_range(w: int, h: int, x: int, y: int)
    requires
        0 <= x < w,
        0 <= y < h,
    ensures
        0 <= y * w + x < w * h,
        0 <= y * w,
        y * w + w <= w * h,
{
    assert(0 <= y * w) by (nonlinear_arith)
        requires
            0 <= y,
            0 <= w,
    ;
    assert(y * w + w <= w * h) by (nonlinear_arith)
        requires
            y + 1 <= h,
            0 <= w,
    ;
}

/// The column and the row are recovered from an offset by remainder and
/// quotient.
pub proof fn lemma_offset_coords(w: int, x: int, y: int)
    requires
        0 <= x < w,
    ensures
        (y * w + x) % w == x,
        (y * w + x) / w == y,
{
    lemma_fundamental_div_mod_converse(y * w + x, w, y, x);
}

/// Every offset of the cell sequence belongs to exactly one position of the
/// grid.
pub proof fn lemma_coords_of_offset(w: int, h: int, i: int)
    requires
        0 <= i < w * h,
        0 <= w,
        0 <= h,
    ensures
        0 <= i % w < w,
        0 <= i / w < h,
        (i / w) * w + i % w == i,
{
    assert(w > 0) by (nonlinear_arith)
        requires
            0 <= i < w * h,
            0 <= w,
    ;
    lemma_fundamental_div_mod(i, w);
    lemma_mod_bound(i, w);
    lemma_div_pos_is_pos(i, w);
    let q = i / w;
    let r = i % w;
    assert(w * q == q * w) by (nonlinear_arith);
    assert(q < h) by (nonlinear_arith)
        requires
            q * w + r == i,
            i < w * h,
            0 <= r,
            0 < w,
    ;
}

} // verus!
