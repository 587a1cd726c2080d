use vstd::prelude::*;
use vstd::std_specs::cmp::PartialEqSpecImpl;
use crate::canvas::{Canvas, TileState};
use crate::color_editer::{PencilState, ToolEnum};
use crate::grid::{
    between, lemma_coords_of_offset, lemma_offset_coords, lemma_offset_in_range, Grid,
};
use crate::region::{compute_contigeous_cell, mask_view, region};
use crate::replay::{apply_all, fits_all, lemma_apply_wf, lemma_fits_prefix, Edit};
use crate::timeline::{
    lemma_checkpoint_advance, lemma_push_keeps, lemma_redo_keeps, lemma_rendered_keeps,
    lemma_undo_keeps, Timeline, COMMAND_EXCUTE_GAP,
};

verus! {

/// A region fill: the value to write, the seed it was started from, and the
/// cells to overwrite.
#[derive(Debug)]
pub struct FillPos {
    c: Option<TileState>,
    x: usize,
    y: usize,
    cells: Vec<Vec<bool>>,
}

impl View for FillPos {
    type V = Edit;

    closed spec fn view(&self) -> Edit {
        Edit::Fill { c: self.c, x: self.x as int, y: self.y as int, cells: mask_view(self.cells) }
    }
}

/// One replayable edit of a canvas.
#[derive(Debug)]
pub enum Command {
    Point { c: Option<TileState>, x: usize, y: usize },
    ChangeCanvasSize {
        width: usize,
        height: usize,
        start_x: usize,
        start_y: usize,
        to_x: usize,
        to_y: usize,
    },
    Fill(FillPos),
    RectFill { c: Option<TileState>, x0: usize, y0: usize, x1: usize, y1: usize },
}

impl View for Command {
    type V = Edit;

    open spec fn view(&self) -> Edit {
        match *self {
            Command::Point { c, x, y } => Edit::Point { c, x: x as int, y: y as int },
            Command::ChangeCanvasSize { width, height, start_x, start_y, to_x, to_y } => {
                Edit::ChangeCanvasSize {
                    width: width as int,
                    height: height as int,
                    start_x: start_x as int,
                    start_y: start_y as int,
                    to_x: to_x as int,
                    to_y: to_y as int,
                }
            },
            Command::Fill(fill) => fill@,
            Command::RectFill { c, x0, y0, x1, y1 } => Edit::RectFill {
                c,
                x0: x0 as int,
                y0: y0 as int,
                x1: x1 as int,
                y1: y1 as int,
            },
        }
    }
}

/// The edits that a sequence of commands stands for.
pub open spec fn edits_of(commands: Seq<Command>) -> Seq<Edit> {
    commands.map_values(|c: Command| c@)
}

/// Whether two masks hold the same rows of flags.
fn same_cells(a: &Vec<Vec<bool>>, b: &Vec<Vec<bool>>) -> (same: bool)
    ensures
        same == (mask_view(*a) == mask_view(*b)),
{
    if a.len() != b.len() {
        assert(mask_view(*a).len() != mask_view(*b).len());
        return false;
    }
    for y in 0..a.len()
        invariant
            a.len() == b.len(),
            forall|j: int| 0 <= j < y ==> (#[trigger] a@[j])@ == b@[j]@,
    {
        let row_a = &a[y];
        let row_b = &b[y];
        if row_a.len() != row_b.len() {
            assert(mask_view(*a)[y as int] == row_a@);
            assert(mask_view(*b)[y as int] == row_b@);
            return false;
        }
        for x in 0..row_a.len()
            invariant
                row_a.len() == row_b.len(),
                row_a@ == a@[y as int]@,
                row_b@ == b@[y as int]@,
                y < a.len() == b.len(),
                forall|i: int| 0 <= i < x ==> row_a@[i] == row_b@[i],
        {
            if row_a[x] != row_b[x] {
                assert(mask_view(*a)[y as int] == row_a@);
                assert(mask_view(*b)[y as int] == row_b@);
                return false;
            }
        }
        assert(row_a@ =~= row_b@);
    }
    assert(mask_view(*a) =~= mask_view(*b));
    true
}

/// A copy of a mask.
fn copy_cells(cells: &Vec<Vec<bool>>) -> (copy: Vec<Vec<bool>>)
    ensures
        mask_view(copy) == mask_view(*cells),
{
    let mut copy: Vec<Vec<bool>> = Vec::with_capacity(cells.len());
    for y in 0..cells.len()
        invariant
            copy.len() == y,
            forall|j: int| 0 <= j < y ==> (#[trigger] copy@[j])@ == cells@[j]@,
    {
        let row = &cells[y];
        let mut row_copy: Vec<bool> = Vec::with_capacity(row.len());
        for x in 0..row.len()
            invariant
                row_copy.len() == x,
                forall|i: int| 0 <= i < x ==> row_copy@[i] == row@[i],
        {
            row_copy.push(row[x]);
        }
        assert(row_copy@ =~= row@);
        copy.push(row_copy);
    }
    assert(mask_view(copy) =~= mask_view(*cells));
    copy
}

impl Clone for FillPos {
    fn clone(&self) -> (copy: Self)
        ensures
            copy@ == self@,
    {
        FillPos { c: self.c, x: self.x, y: self.y, cells: copy_cells(&self.cells) }
    }
}

impl PartialEq for FillPos {
    /// Two fills are equal when they write the same value to the same cells
    /// from the same seed.
    fn eq(&self, other: &Self) -> (same: bool) {
        self.c == other.c && self.x == other.x && self.y == other.y && same_cells(
            &self.cells,
            &other.cells,
        )
    }
}

impl PartialEqSpecImpl for FillPos {
    open spec fn obeys_eq_spec() -> bool {
        true
    }

    open spec fn eq_spec(&self, other: &Self) -> bool {
        self@ == other@
    }
}

impl Clone for Command {
    fn clone(&self) -> (copy: Self)
        ensures
            copy@ == self@,
    {
        match self {
            Command::Point { c, x, y } => Command::Point { c: *c, x: *x, y: *y },
            Command::ChangeCanvasSize { width, height, start_x, start_y, to_x, to_y } => {
                Command::ChangeCanvasSize {
                    width: *width,
                    height: *height,
                    start_x: *start_x,
                    start_y: *start_y,
                    to_x: *to_x,
                    to_y: *to_y,
                }
            },
            Command::Fill(fill) => Command::Fill(fill.clone()),
            Command::RectFill { c, x0, y0, x1, y1 } => Command::RectFill {
                c: *c,
                x0: *x0,
                y0: *y0,
                x1: *x1,
                y1: *y1,
            },
        }
    }
}

impl PartialEq for Command {
    /// Two commands are equal when they are of the same kind and all their
    /// fields are equal.
    fn eq(&self, other: &Self) -> (same: bool) {
        match (self, other) {
            (Command::Point { c, x, y }, Command::Point { c: c2, x: x2, y: y2 }) => {
                *c == *c2 && *x == *x2 && *y == *y2
            },
            (
                Command::ChangeCanvasSize { width, height, start_x, start_y, to_x, to_y },
                Command::ChangeCanvasSize {
                    width: width2,
                    height: height2,
                    start_x: start_x2,
                    start_y: start_y2,
                    to_x: to_x2,
                    to_y: to_y2,
                },
            ) => {
                *width == *width2 && *height == *height2 && *start_x == *start_x2 && *start_y
                    == *start_y2 && *to_x == *to_x2 && *to_y == *to_y2
            },
            (Command::Fill(fill), Command::Fill(fill2)) => fill == fill2,
            (
                Command::RectFill { c, x0, y0, x1, y1 },
                Command::RectFill { c: c2, x0: x02, y0: y02, x1: x12, y1: y12 },
            ) => { *c == *c2 && *x0 == *x02 && *y0 == *y02 && *x1 == *x12 && *y1 == *y12 },
            _ => false,
        }
    }
}

impl PartialEqSpecImpl for Command {
    open spec fn obeys_eq_spec() -> bool {
        true
    }

    open spec fn eq_spec(&self, other: &Self) -> bool {
        self@ == other@
    }
}

impl Default for Command {
    fn default() -> (command: Self)
        ensures
            command@ == (Edit::Point { c: None, x: 0, y: 0 }),
    {
        Self::Point { c: None, x: 0, y: 0 }
    }
}

impl FillPos {
    /// A fill that writes `c` to the cells that `cells` marks, started from
    /// the seed `(x, y)`.
    pub fn new(c: Option<TileState>, x: usize, y: usize, cells: Vec<Vec<bool>>) -> (fill: Self)
        ensures
            fill@ == (Edit::Fill { c, x: x as int, y: y as int, cells: mask_view(cells) }),
    {
        FillPos { c, x, y, cells }
    }

    /// Writes the fill's value to every cell of `canvas` that its mask marks.
    fn paint(&self, canvas: &mut Canvas)
        requires
            old(canvas).wf(),
            self@.fits(old(canvas)@),
        ensures
            final(canvas).wf(),
            final(canvas)@ == self@.apply(old(canvas)@),
    {
        let ghost g = canvas@;
        let ghost w = canvas.width as int;
        let ghost h = canvas.height as int;
        let ghost mask = mask_view(self.cells);
        let rows = self.cells.len();
        for y in 0..rows
            invariant
                canvas.wf(),
                g.wf(),
                g.fits_mask(mask),
                mask == mask_view(self.cells),
                rows == self.cells.len(),
                canvas.width == g.width == w,
                canvas.height == g.height == h,
                forall|i: int|
                    0 <= i < w * h ==> #[trigger] canvas.cells@[i] == (if i / w < y && mask[i
                        / w][i % w] {
                        self.c
                    } else {
                        g.cells[i]
                    }),
        {
            assert(mask[y as int] == self.cells@[y as int]@);
            let row = &self.cells[y];
            let columns = row.len();
            for x in 0..columns
                invariant
                    canvas.wf(),
                    g.wf(),
                    g.fits_mask(mask),
                    mask == mask_view(self.cells),
                    y < rows == self.cells.len(),
                    row@ == mask[y as int],
                    columns == row.len() == w,
                    canvas.width == g.width == w,
                    canvas.height == g.height == h,
                    forall|i: int|
                        0 <= i < w * h ==> #[trigger] canvas.cells@[i] == (if (i / w < y || (i / w
                            == y && i % w < x)) && mask[i / w][i % w] {
                            self.c
                        } else {
                            g.cells[i]
                        }),
            {
                let need_filled = row[x];
                if need_filled {
                    let ghost before = canvas@;
                    *canvas.get_cell_mut(x, y) = self.c;
                    proof {
                        lemma_offset_coords(w, x as int, y as int);
                        lemma_offset_in_range(w, h, x as int, y as int);
                        assert(canvas@ == before.put(x as int, y as int, self.c));
                    }
                }
                proof {
                    let target = y * w + x;
                    lemma_offset_coords(w, x as int, y as int);
                    assert forall|i: int| 0 <= i < w * h implies #[trigger] canvas.cells@[i] == (if (i
                        / w < y || (i / w == y && i % w < x + 1)) && mask[i / w][i % w] {
                        self.c
                    } else {
                        g.cells[i]
                    }) by {
                        lemma_coords_of_offset(w, h, i);
                    }
                }
            }
            proof {
                assert forall|i: int| 0 <= i < w * h implies #[trigger] canvas.cells@[i] == (if i / w
                    < y + 1 && mask[i / w][i % w] {
                    self.c
                } else {
                    g.cells[i]
                }) by {
                    lemma_coords_of_offset(w, h, i);
                }
            }
        }
        proof {
            assert forall|i: int| 0 <= i < w * h implies #[trigger] canvas.cells@[i] == (if mask[i
                / w][i % w] {
                self.c
            } else {
                g.cells[i]
            }) by {
                lemma_coords_of_offset(w, h, i);
            }
            assert(canvas@.cells =~= g.fill_mask(mask, self.c).cells);
        }
    }
}

/// Writes `c` to every cell of the rectangle whose opposite corners are
/// `(x0, y0)` and `(x1, y1)`, given in either order.
fn paint_rect(canvas: &mut Canvas, c: Option<TileState>, x0: usize, y0: usize, x1: usize, y1: usize)
    requires
        old(canvas).wf(),
        old(canvas)@.contains(x0 as int, y0 as int),
        old(canvas)@.contains(x1 as int, y1 as int),
    ensures
        final(canvas).wf(),
        final(canvas)@ == old(canvas)@.fill_rect(x0 as int, y0 as int, x1 as int, y1 as int, c),
{
    let (left, right) = if x0 <= x1 {
        (x0, x1)
    } else {
        (x1, x0)
    };
    let (top, bottom) = if y0 <= y1 {
        (y0, y1)
    } else {
        (y1, y0)
    };
    let ghost g = canvas@;
    let ghost w = canvas.width as int;
    let ghost h = canvas.height as int;
    for y in top..bottom + 1
        invariant
            canvas.wf(),
            g.wf(),
            canvas.width == g.width == w,
            canvas.height == g.height == h,
            left <= right < w,
            top <= bottom < h,
            forall|i: int|
                0 <= i < w * h ==> #[trigger] canvas.cells@[i] == (if left <= i % w <= right && top
                    <= i / w < y {
                    c
                } else {
                    g.cells[i]
                }),
    {
        for x in left..right + 1
            invariant
                canvas.wf(),
                g.wf(),
                canvas.width == g.width == w,
                canvas.height == g.height == h,
                left <= right < w,
                top <= y <= bottom < h,
                forall|i: int|
                    0 <= i < w * h ==> #[trigger] canvas.cells@[i] == (if (left <= i % w <= right
                        && top <= i / w < y) || (left <= i % w < x && i / w == y) {
                        c
                    } else {
                        g.cells[i]
                    }),
        {
            let ghost before = canvas@;
            *canvas.get_cell_mut(x, y) = c;
            proof {
                lemma_offset_coords(w, x as int, y as int);
                lemma_offset_in_range(w, h, x as int, y as int);
                assert(canvas@ == before.put(x as int, y as int, c));
                assert forall|i: int| 0 <= i < w * h implies #[trigger] canvas.cells@[i] == (if (left
                    <= i % w <= right && top <= i / w < y) || (left <= i % w < x + 1 && i / w == y) {
                    c
                } else {
                    g.cells[i]
                }) by {
                    lemma_coords_of_offset(w, h, i);
                }
            }
        }
    }
    proof {
        assert forall|i: int| 0 <= i < w * h implies #[trigger] canvas.cells@[i] == (if between(
            x0 as int,
            x1 as int,
            i % w,
        ) && between(y0 as int, y1 as int, i / w) {
            c
        } else {
            g.cells[i]
        }) by {}
        assert(canvas@.cells =~= g.fill_rect(x0 as int, y0 as int, x1 as int, y1 as int, c).cells);
    }
}

/// Applies `commands` to `canvas`, in order.
pub fn excute_painting_command_to_canvas_mut(canvas: &mut Canvas, commands: &[Command])
    requires
        old(canvas).wf(),
        fits_all(old(canvas)@, edits_of(commands@)),
    ensures
        final(canvas).wf(),
        final(canvas)@ == apply_all(old(canvas)@, edits_of(commands@)),
{
    let ghost base = canvas@;
    let ghost edits = edits_of(commands@);
    for k in 0..commands.len()
        invariant
            canvas.wf(),
            edits == edits_of(commands@),
            fits_all(base, edits),
            canvas@ == apply_all(base, edits.subrange(0, k as int)),
    {
        proof {
            let done = edits.subrange(0, k as int);
            let next = edits.subrange(0, k + 1);
            assert(next.drop_last() =~= done);
            assert(next.last() == commands@[k as int]@);
            lemma_fits_prefix(base, edits, k + 1);
            lemma_apply_wf(commands@[k as int]@, canvas@);
        }
        match &commands[k] {
            Command::Point { c, x, y } => {
                *canvas.get_cell_mut(*x, *y) = *c;
            },
            Command::ChangeCanvasSize { width, height, start_x, start_y, to_x, to_y } => {
                canvas.change_canvas_size(*width, *height, *start_x, *start_y, *to_x, *to_y);
            },
            Command::Fill(fill) => {
                fill.paint(canvas);
            },
            Command::RectFill { c, x0, y0, x1, y1 } => {
                paint_rect(canvas, *c, *x0, *y0, *x1, *y1);
            },
        }
    }
    assert(edits.subrange(0, commands.len() as int) =~= edits);
}

/// A copy of `canvas` with `commands` applied to it, in order.
pub fn excute_painting_command_to_canvas(canvas: &Canvas, commands: &[Command]) -> (painted: Canvas)
    requires
        canvas.wf(),
        fits_all(canvas@, edits_of(commands@)),
    ensures
        painted.wf(),
        painted@ == apply_all(canvas@, edits_of(commands@)),
{
    let mut canvas = canvas.clone();
    excute_painting_command_to_canvas_mut(&mut canvas, commands);
    canvas
}

impl Edit {
    /// The edit that a pen in state `pen` makes at `(x, y)` of the canvas
    /// `g`, where the cell under the pen holds `cur_tile`. The edit writes
    /// the pen's tile, or with `need_swap` the tile with the pen's colours
    /// exchanged. The pencil writes one cell, the fill the region of `(x,
    /// y)`, the rectangle tool the rectangle from where the drag started to
    /// `(x, y)`.
    pub open spec fn of_pen(
        x: int,
        y: int,
        pen: PencilState,
        cur_tile: Option<TileState>,
        need_swap: bool,
        g: Grid,
    ) -> Edit {
        let tile = if need_swap {
            pen.swapped_tile()
        } else {
            pen.tile_for(cur_tile)
        };
        match pen.tool {
            ToolEnum::Pencil => Edit::Point { c: tile, x, y },
            ToolEnum::Fill => Edit::Fill { c: tile, x, y, cells: region(g, x, y) },
            ToolEnum::RectFilled => Edit::RectFill {
                c: tile,
                x0: (pen.start_xy->0).0 as int,
                y0: (pen.start_xy->0).1 as int,
                x1: x,
                y1: y,
            },
        }
    }
}

impl Command {
    /// Whether this command touches only cells that `canvas` has, so that
    /// it can be applied to it.
    pub fn fits(&self, canvas: &Canvas) -> (ok: bool)
        ensures
            ok == self@.fits(canvas@),
    {
        match self {
            Command::Point { c, x, y } => *x < canvas.width && *y < canvas.height,
            Command::ChangeCanvasSize { width, height, start_x, start_y, to_x, to_y } => {
                *width >= 1 && *height >= 1 && width.checked_mul(*height).is_some() && *start_x
                    <= canvas.width && *start_y <= canvas.height && *to_x <= *width && *to_y
                    <= *height
            },
            Command::Fill(fill) => {
                let ghost mask = mask_view(fill.cells);
                assert(self@ == fill@);
                assert(self@.fits(canvas@) == canvas@.fits_mask(mask));
                if fill.cells.len() != canvas.height {
                    return false;
                }
                for y in 0..fill.cells.len()
                    invariant
                        mask == mask_view(fill.cells),
                        self@.fits(canvas@) == canvas@.fits_mask(mask),
                        fill.cells.len() == canvas.height,
                        forall|j: int| 0 <= j < y ==> (#[trigger] mask[j]).len() == canvas.width,
                {
                    assert(mask[y as int] == fill.cells@[y as int]@);
                    if fill.cells[y].len() != canvas.width {
                        return false;
                    }
                }
                true
            },
            Command::RectFill { c, x0, y0, x1, y1 } => {
                *x0 < canvas.width && *y0 < canvas.height && *x1 < canvas.width && *y1
                    < canvas.height
            },
        }
    }

    /// The command that the pen makes at `(x, y)` of `canvas`, where the
    /// cell under the pen holds `cur_tile`.
    pub fn new(
        x: usize,
        y: usize,
        pen: &PencilState,
        cur_tile: &Option<TileState>,
        need_swap: bool,
        canvas: &Canvas,
    ) -> (command: Self)
        requires
            pen.tool == ToolEnum::Fill ==> canvas.wf() && x < canvas.width && y < canvas.height,
            pen.tool == ToolEnum::RectFilled ==> pen.start_xy is Some,
        ensures
            command@ == Edit::of_pen(x as int, y as int, *pen, *cur_tile, need_swap, canvas@),
    {
        let tile = if need_swap {
            pen.swap_color_and_into()
        } else {
            pen.into_tile_state(cur_tile)
        };
        match pen.tool {
            ToolEnum::Pencil => Self::Point { c: tile, x, y },
            ToolEnum::Fill => Self::Fill(
                FillPos { c: tile, cells: compute_contigeous_cell(canvas, x, y), x, y },
            ),
            ToolEnum::RectFilled => {
                let (x0, y0) = pen.start_xy.unwrap();
                Self::RectFill { c: tile, x0, y0, x1: x, y1: y }
            },
        }
    }
}

/// An edit made by a pen at a position of a canvas fits that canvas,
/// provided that a rectangle's drag started on the canvas too.
pub proof fn lemma_pen_edit_fits(
    x: int,
    y: int,
    pen: PencilState,
    cur_tile: Option<TileState>,
    need_swap: bool,
    g: Grid,
)
    requires
        g.contains(x, y),
        pen.tool == ToolEnum::RectFilled ==> pen.start_xy is Some && g.contains(
            (pen.start_xy->0).0 as int,
            (pen.start_xy->0).1 as int,
        ),
    ensures
        Edit::of_pen(x, y, pen, cur_tile, need_swap, g).fits(g),
{
}

/// An edit history: the commands in force, the commands that were undone,
/// and a canvas that holds the base with the first batches of commands
/// already applied, so that rendering replays only the rest.
pub struct History {
    rendering_canvas: Option<Canvas>,
    edit_history: Vec<Command>,
    undo_history: Vec<Command>,
    last_command: usize,
}

impl View for History {
    type V = Timeline;

    closed spec fn view(&self) -> Timeline {
        Timeline {
            edit_log: edits_of(self.edit_history@),
            redo_stack: edits_of(self.undo_history@),
            checkpoint: match self.rendering_canvas {
                Some(canvas) => Some(canvas@),
                None => None,
            },
            checkpoint_boundary: self.last_command as int,
        }
    }
}

impl History {
    /// The checkpoint covers a prefix of the log, and nothing when there is
    /// none.
    pub open spec fn wf(&self) -> bool {
        self@.wf()
    }

    /// A history with nothing in it.
    pub fn new() -> (history: Self)
        ensures
            history@ == Timeline::empty(),
            history.wf(),
    {
        let history = Self {
            edit_history: Vec::new(),
            undo_history: Vec::new(),
            last_command: 0,
            rendering_canvas: None,
        };
        assert(history@.edit_log =~= Seq::empty());
        assert(history@.redo_stack =~= Seq::empty());
        history
    }

    /// The number of commands in force.
    pub fn edit_len(&self) -> (len: usize)
        ensures
            len == self@.edit_log.len(),
    {
        self.edit_history.len()
    }

    /// The number of undone commands that a redo can bring back.
    pub fn undo_len(&self) -> (len: usize)
        ensures
            len == self@.redo_stack.len(),
    {
        self.undo_history.len()
    }

    /// The number of batches of commands that the checkpoint covers.
    pub fn last_command(&self) -> (boundary: usize)
        ensures
            boundary == self@.checkpoint_boundary,
    {
        self.last_command
    }

    /// Whether there is a checkpoint.
    pub fn has_checkpoint(&self) -> (present: bool)
        ensures
            present == (self@.checkpoint is Some),
    {
        self.rendering_canvas.is_some()
    }

    /// Takes the last command out of force, if there is one, and keeps it
    /// for a redo. A checkpoint that covered it is dropped.
    pub fn undo(&mut self)
        requires
            old(self).wf(),
        ensures
            final(self)@ == old(self)@.undo(),
            final(self).wf(),
            forall|base: Grid| old(self)@.consistent(base) ==> final(self)@.consistent(base),
    {
        proof {
            assert forall|base: Grid| old(self)@.consistent(base) implies old(self)@.undo().consistent(
                base,
            ) by {
                lemma_undo_keeps(old(self)@, base);
            }
            lemma_undo_keeps(old(self)@, Grid::blank(0, 0));
        }
        if let Some(command) = self.edit_history.pop() {
            self.undo_history.push(command);
            let last_command = self.edit_history.len() / COMMAND_EXCUTE_GAP;
            if last_command < self.last_command {
                self.last_command = 0;
                self.rendering_canvas = None;
            }
            proof {
                assert(self@.edit_log =~= old(self)@.edit_log.drop_last());
                assert(self@.redo_stack =~= old(self)@.redo_stack.push(old(self)@.edit_log.last()));
            }
        }
    }

    /// Puts the command undone last back in force, if there is one.
    pub fn redo(&mut self)
        requires
            old(self).wf(),
        ensures
            final(self)@ == old(self)@.redo(),
            final(self).wf(),
            forall|base: Grid| old(self)@.consistent(base) ==> final(self)@.consistent(base),
    {
        proof {
            assert forall|base: Grid| old(self)@.consistent(base) implies old(self)@.redo().consistent(
                base,
            ) by {
                lemma_redo_keeps(old(self)@, base);
            }
            lemma_redo_keeps(old(self)@, Grid::blank(0, 0));
        }
        if let Some(command) = self.undo_history.pop() {
            self.edit_history.push(command);
            proof {
                assert(self@.edit_log =~= old(self)@.edit_log.push(old(self)@.redo_stack.last()));
                assert(self@.redo_stack =~= old(self)@.redo_stack.drop_last());
            }
        }
    }

    /// Forgets the undone commands.
    pub fn clear_undo(&mut self)
        ensures
            final(self)@ == old(self)@.clear_undo(),
    {
        self.undo_history.clear();
        assert(self@.redo_stack =~= Seq::empty());
    }

    /// The canvas that shows `canvas` with every command in force applied.
    /// Full batches of commands are folded into the checkpoint first, so
    /// that the next call replays only what came after them.
    #[verifier::rlimit(50)]
    pub fn excute_on_canvas(&mut self, canvas: &Canvas) -> (painted: Canvas)
        requires
            old(self).wf(),
            canvas.wf(),
            old(self)@.consistent(canvas@),
            fits_all(canvas@, old(self)@.edit_log),
        ensures
            painted.wf(),
            painted@ == old(self)@.render(canvas@),
            final(self)@ == old(self)@.rendered(canvas@),
            final(self).wf(),
            final(self)@.consistent(canvas@),
    {
        let ghost base = canvas@;
        let ghost log = self@.edit_log;
        let ghost from = self@.covered();
        if let None = self.rendering_canvas {
            self.rendering_canvas = Some(canvas.clone());
        }
        proof {
            assert(log.subrange(0, 0) =~= Seq::empty());
            lemma_rendered_keeps(old(self)@, base);
        }

        let last_command = self.edit_history.len() / COMMAND_EXCUTE_GAP;
        let ghost to = last_command * COMMAND_EXCUTE_GAP;

        if last_command != self.last_command {
            proof {
                lemma_checkpoint_advance(base, log, from, to);
                assert(self.edit_history@.subrange(from, to).map_values(|c: Command| c@)
                    =~= log.subrange(from, to));
            }
            excute_painting_command_to_canvas_mut(
                self.rendering_canvas.as_mut().unwrap(),
                &self.edit_history[self.last_command * COMMAND_EXCUTE_GAP..(self.last_command
                    * COMMAND_EXCUTE_GAP) + (last_command - self.last_command) * COMMAND_EXCUTE_GAP],
            );
            self.last_command = last_command;
        }
        proof {
            lemma_checkpoint_advance(base, log, to, log.len() as int);
            assert(log.subrange(0, log.len() as int) =~= log);
            assert(self.edit_history@.subrange(to, log.len() as int).map_values(|c: Command| c@)
                =~= log.subrange(to, log.len() as int));
        }

        let canvas = excute_painting_command_to_canvas(
            self.rendering_canvas.as_ref().unwrap(),
            &self.edit_history[self.last_command * COMMAND_EXCUTE_GAP..self.edit_history.len()],
        );

        canvas
    }

    /// Puts `command` in force and forgets the undone commands, unless
    /// `command` equals the last command in force: then nothing changes.
    pub fn push(&mut self, command: Command)
        requires
            old(self).wf(),
        ensures
            final(self)@ == old(self)@.push(command@),
            final(self).wf(),
            forall|base: Grid| old(self)@.consistent(base) ==> final(self)@.consistent(base),
    {
        proof {
            assert forall|base: Grid| old(self)@.consistent(base) implies old(self)@.push(
                command@,
            ).consistent(base) by {
                lemma_push_keeps(old(self)@, command@, base);
            }
            lemma_push_keeps(old(self)@, command@, Grid::blank(0, 0));
        }
        let fresh = match self.edit_history.last() {
            None => true,
            Some(last) => *last != command,
        };
        if fresh {
            self.edit_history.push(command);
            self.clear_undo();
            proof {
                assert(self@.edit_log =~= old(self)@.edit_log.push(command@));
            }
        }
    }

    /// Empties the history and drops the checkpoint.
    pub fn clear(&mut self)
        ensures
            final(self)@ == Timeline::empty(),
            final(self).wf(),
    {
        self.last_command = 0;
        self.edit_history.clear();
        self.undo_history.clear();
        self.rendering_canvas = None;
        assert(self@.edit_log =~= Seq::empty());
        assert(self@.redo_stack =~= Seq::empty());
    }
}

/// What the pointer did over a cell of the canvas since the last frame.
#[derive(PartialEq, Eq, Clone, Copy, Debug, Structural)]
pub struct PointerInput {
    pub drag_started: bool,
    pub drag_released: bool,
    pub primary_down: bool,
    pub secondary_down: bool,
}

impl PointerInput {
    /// Whether this input makes a pen in state `pen` draw: the rectangle
    /// tool draws when a drag that it saw start is released, the other tools
    /// while a button is down.
    pub open spec fn draws(self, pen: PencilState) -> bool {
        if pen.tool == ToolEnum::RectFilled {
            !self.drag_started && self.drag_released && pen.start_xy is Some
        } else {
            self.primary_down || self.secondary_down
        }
    }

    /// Whether what is drawn has the pen's colours exchanged: only the
    /// secondary button, without the primary one, does that.
    pub open spec fn swaps(self, pen: PencilState) -> bool {
        pen.tool != ToolEnum::RectFilled && !self.primary_down
    }

    /// The pen after this input at `(x, y)`: the rectangle tool remembers
    /// where a drag started and forgets it when the drag is released.
    pub open spec fn pen_after(self, pen: PencilState, x: usize, y: usize) -> PencilState {
        if pen.tool == ToolEnum::RectFilled {
            if self.drag_started {
                PencilState { start_xy: Some((x, y)), ..pen }
            } else if self.drag_released {
                PencilState { start_xy: None, to_xy: None, ..pen }
            } else {
                pen
            }
        } else {
            pen
        }
    }
}

/// Reacts to what the pointer did over the cell at `(x, y)` of `canvas`,
/// which is what `history` shows: the pen's state follows a drag of the
/// rectangle tool, and where the input draws, the command that the pen makes
/// is pushed.
pub fn pointer_input(
    history: &mut History,
    pen: &mut PencilState,
    canvas: &Canvas,
    x: usize,
    y: usize,
    input: PointerInput,
)
    requires
        old(history).wf(),
        canvas.wf(),
        x < canvas.width,
        y < canvas.height,
    ensures
        final(history).wf(),
        *final(pen) == input.pen_after(*old(pen), x, y),
        !input.draws(*old(pen)) ==> final(history)@ == old(history)@,
        input.draws(*old(pen)) ==> final(history)@ == old(history)@.push(
            Edit::of_pen(
                x as int,
                y as int,
                *old(pen),
                canvas@.at(x as int, y as int),
                input.swaps(*old(pen)),
                canvas@,
            ),
        ),
        forall|base: Grid| old(history)@.consistent(base) ==> final(history)@.consistent(base),
{
    let cell = *canvas.get_cell(x, y);
    if pen.tool == ToolEnum::RectFilled {
        if input.drag_started {
            pen.start_xy = Some((x, y));
        } else if input.drag_released {
            if pen.start_xy.is_some() {
                pen.to_xy = Some((x, y));
                history.push(Command::new(x, y, pen, &cell, false, canvas));
            }
            pen.start_xy = None;
            pen.to_xy = None;
        }
    } else {
        if input.primary_down {
            history.push(Command::new(x, y, pen, &cell, false, canvas));
        } else if input.secondary_down {
            history.push(Command::new(x, y, pen, &cell, true, canvas));
        }
    }
}

} // verus!
