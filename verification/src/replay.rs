use vstd::prelude::*;
use crate::canvas::TileState;
use crate::grid::{lemma_offset_in_range, Grid};

verus! {

/// One edit of a canvas, as a mathematical value: what a command stands for.
pub enum Edit {
    /// Overwrite the cell at `(x, y)` with `c`.
    Point { c: Option<TileState>, x: int, y: int },
    /// Replace the canvas by one of `width` by `height` cells that keeps the
    /// part of the old content starting at `(start_x, start_y)`, placed at
    /// `(to_x, to_y)`.
    ChangeCanvasSize { width: int, height: int, start_x: int, start_y: int, to_x: int, to_y: int },
    /// Overwrite with `c` every cell that `cells` marks. The mask was
    /// computed from the seed `(x, y)` on the canvas as it was when the edit
    /// was made.
    Fill { c: Option<TileState>, x: int, y: int, cells: Seq<Seq<bool>> },
    /// Overwrite with `c` every cell of the rectangle with the opposite
    /// corners `(x0, y0)` and `(x1, y1)`.
    RectFill { c: Option<TileState>, x0: int, y0: int, x1: int, y1: int },
}

impl Edit {
    /// Whether this edit touches only cells that `g` has. A fill fits only a
    /// grid of the shape its mask was computed for: a resize between the
    /// making of a fill and its replay breaks this.
    pub open spec fn fits(self, g: Grid) -> bool {
        match self {
            Edit::Point { c, x, y } => g.contains(x, y),
            Edit::ChangeCanvasSize { width, height, start_x, start_y, to_x, to_y } => g.can_resize(
                width,
                height,
                start_x,
                start_y,
                to_x,
                to_y,
            ),
            Edit::Fill { c, x, y, cells } => g.fits_mask(cells),
            Edit::RectFill { c, x0, y0, x1, y1 } => g.contains(x0, y0) && g.contains(x1, y1),
        }
    }

    /// The grid after this edit.
    pub open spec fn apply(self, g: Grid) -> Grid {
        match self {
            Edit::Point { c, x, y } => g.put(x, y, c),
            Edit::ChangeCanvasSize { width, height, start_x, start_y, to_x, to_y } => g.resized(
                width,
                height,
                start_x,
                start_y,
                to_x,
                to_y,
            ),
            Edit::Fill { c, x, y, cells } => g.fill_mask(cells, c),
            Edit::RectFill { c, x0, y0, x1, y1 } => g.fill_rect(x0, y0, x1, y1, c),
        }
    }
}

/// The grid after the edits of `edits`, applied in order.
pub open spec fn apply_all(g: Grid, edits: Seq<Edit>) -> Grid
    decreases edits.len(),
{
    if edits.len() == 0 {
        g
    } else {
        edits.last().apply(apply_all(g, edits.drop_last()))
    }
}

/// Whether each edit of `edits` fits the grid that the edits before it leave.
pub open spec fn fits_all(g: Grid, edits: Seq<Edit>) -> bool
    decreases edits.len(),
{
    if edits.len() == 0 {
        true
    } else {
        fits_all(g, edits.drop_last()) && edits.last().fits(apply_all(g, edits.drop_last()))
    }
}

/// An edit that fits a well-formed grid leaves a well-formed grid.
pub proof fn lemma_apply_wf(e: Edit, g: Grid)
    requires
        g.wf(),
        e.fits(g),
    ensures
        e.apply(g).wf(),
{
    match e {
        Edit::Point { c, x, y } => {
            lemma_offset_in_range(g.width as int, g.height as int, x, y);
        },
        Edit::ChangeCanvasSize { width, height, start_x, start_y, to_x, to_y } => {
            assert((width * height) as nat == (width as nat) * (height as nat)) by (nonlinear_arith)
                requires
                    1 <= width,
                    1 <= height,
            ;
        },
        Edit::Fill { c, x, y, cells } => {},
        Edit::RectFill { c, x0, y0, x1, y1 } => {},
    }
}

/// Edits that fit a well-formed grid in turn leave a well-formed grid.
pub proof fn lemma_apply_all_wf(g: Grid, edits: Seq<Edit>)
    requires
        g.wf(),
        fits_all(g, edits),
    ensures
        apply_all(g, edits).wf(),
    decreases edits.len(),
{
    if edits.len() > 0 {
        lemma_apply_all_wf(g, edits.drop_last());
        lemma_apply_wf(edits.last(), apply_all(g, edits.drop_last()));
    }
}

/// Replaying a log in two parts gives what replaying it whole gives:
/// applying the first `k` edits and then the rest to the result equals
/// applying all of them, and the parts fit exactly when the whole does.
pub proof fn lemma_apply_split(g: Grid, edits: Seq<Edit>, k: int)
    requires
        0 <= k <= edits.len(),
    ensures
        apply_all(apply_all(g, edits.subrange(0, k)), edits.subrange(k, edits.len() as int))
            == apply_all(g, edits),
        (fits_all(g, edits.subrange(0, k)) && fits_all(
            apply_all(g, edits.subrange(0, k)),
            edits.subrange(k, edits.len() as int),
        )) == fits_all(g, edits),
    decreases edits.len() - k,
{
    let head = edits.subrange(0, k);
    let tail = edits.subrange(k, edits.len() as int);
    if k == edits.len() {
        assert(head =~= edits);
        assert(tail =~= Seq::empty());
    } else {
        let shorter = edits.drop_last();
        lemma_apply_split(g, shorter, k);
        assert(shorter.subrange(0, k) =~= head);
        assert(shorter.subrange(k, shorter.len() as int) =~= tail.drop_last());
        assert(tail.last() == edits.last());
    }
}

/// Every prefix of a log that fits a grid fits it too.
pub proof fn lemma_fits_prefix(g: Grid, edits: Seq<Edit>, k: int)
    requires
        0 <= k <= edits.len(),
        fits_all(g, edits),
    ensures
        fits_all(g, edits.subrange(0, k)),
{
    lemma_apply_split(g, edits, k);
}

/// Appending one edit to a log applies it to what the log leaves.
pub proof fn lemma_apply_push(g: Grid, edits: Seq<Edit>, e: Edit)
    ensures
        apply_all(g, edits.push(e)) == e.apply(apply_all(g, edits)),
        fits_all(g, edits.push(e)) == (fits_all(g, edits) && e.fits(apply_all(g, edits))),
{
    assert(edits.push(e).drop_last() =~= edits);
}

} // verus!
