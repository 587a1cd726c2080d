use vstd::prelude::*;
use crate::color::Color;
use crate::grid::{lemma_coords_of_offset, lemma_offset_coords, lemma_offset_in_range, Grid};
use crate::undo::Command;

verus! {

/// What one cell of a canvas shows: a glyph of the tile set, drawn in a
/// foreground colour over a background colour.
#[derive(Clone, Copy, Debug, PartialEq, Eq, Structural)]
pub struct TileState {
    pub idx: usize,
    pub fc: Color,
    pub bc: Color,
}

/// The colour behind an empty cell at `(x, y)`: a checkerboard of two greys.
pub fn get_gray(x: usize, y: usize) -> (gray: Color)
    requires
        x + y <= usize::MAX,
    ensures
        gray == if (x + y) % 2 == 0 {
            Color::rgb(160, 160, 160)
        } else {
            Color::rgb(96, 96, 96)
        },
{
    if (y + x) % 2 == 0 {
        Color::from_rgb(160, 160, 160)
    } else {
        Color::from_rgb(96, 96, 96)
    }
}

/// The nine anchors of a resize: where the old content stays when the canvas
/// changes its size.
#[derive(PartialEq, Eq, Clone, Copy, Debug, Structural)]
pub enum Direction {
    LeftTop,
    TopMiddle,
    RightTop,
    Left,
    Center,
    Right,
    LeftBottom,
    BottomMiddle,
    RightBottom,
}

/// How an anchor places content along one axis: at the low end, centred, or
/// at the high end.
pub enum Alignment {
    Low,
    Mid,
    High,
}

impl Direction {
    /// The horizontal alignment of this anchor.
    pub open spec fn horizontal(self) -> Alignment {
        match self {
            Direction::LeftTop | Direction::Left | Direction::LeftBottom => Alignment::Low,
            Direction::TopMiddle | Direction::Center | Direction::BottomMiddle => Alignment::Mid,
            Direction::RightTop | Direction::Right | Direction::RightBottom => Alignment::High,
        }
    }

    /// The vertical alignment of this anchor.
    pub open spec fn vertical(self) -> Alignment {
        match self {
            Direction::LeftTop | Direction::TopMiddle | Direction::RightTop => Alignment::Low,
            Direction::Left | Direction::Center | Direction::Right => Alignment::Mid,
            Direction::LeftBottom | Direction::BottomMiddle | Direction::RightBottom => Alignment::High,
        }
    }
}

impl Alignment {
    /// Where reading starts in the old content, of size `origin`, when the
    /// new size along this axis is `target`: a shrinking axis drops what
    /// lies before this offset.
    pub open spec fn copy_start(self, target: int, origin: int) -> int {
        if target < origin {
            match self {
                Alignment::Low => 0,
                Alignment::Mid => (origin - target) / 2,
                Alignment::High => origin - target,
            }
        } else {
            0
        }
    }

    /// Where writing starts in the new content, of size `target`: a growing
    /// axis leaves this much padding before the old content.
    pub open spec fn paste_start(self, target: int, origin: int) -> int {
        if target < origin {
            0
        } else {
            match self {
                Alignment::Low => 0,
                Alignment::Mid => (target - origin) / 2,
                Alignment::High => target - origin,
            }
        }
    }
}

/// An axis is cropped or padded, never both; the offsets stay inside the old
/// and the new extent; and what is copied is as long as the shorter of the
/// two.
pub proof fn lemma_anchor_offsets(align: Alignment, target: int, origin: int)
    requires
        0 <= target,
        0 <= origin,
    ensures
        align.copy_start(target, origin) == 0 || align.paste_start(target, origin) == 0,
        0 <= align.copy_start(target, origin) <= origin,
        0 <= align.paste_start(target, origin) <= target,
        Grid::span(
            target,
            align.paste_start(target, origin),
            origin,
            align.copy_start(target, origin),
        ) == if target < origin {
            target
        } else {
            origin
        },
{
}

/// A resize to a size of at least one cell each way, with the offsets that
/// an anchor gives, reads and writes only cells that exist.
pub proof fn lemma_anchored_resize_fits(g: Grid, width: int, height: int, direct: Direction)
    requires
        1 <= width,
        1 <= height,
        width * height <= usize::MAX,
    ensures
        g.can_resize(
            width,
            height,
            direct.horizontal().copy_start(width, g.width as int),
            direct.vertical().copy_start(height, g.height as int),
            direct.horizontal().paste_start(width, g.width as int),
            direct.vertical().paste_start(height, g.height as int),
        ),
{
    lemma_anchor_offsets(direct.horizontal(), width, g.width as int);
    lemma_anchor_offsets(direct.vertical(), height, g.height as int);
}

fn compute_start_middle_pos(target_width: usize, origin_width: usize) -> (pos: usize)
    ensures
        pos == Alignment::Mid.copy_start(target_width as int, origin_width as int),
{
    if target_width < origin_width {
        (origin_width - target_width) / 2
    } else {
        0
    }
}

fn compute_start_right_pos(target_width: usize, origin_width: usize) -> (pos: usize)
    ensures
        pos == Alignment::High.copy_start(target_width as int, origin_width as int),
{
    if target_width < origin_width {
        origin_width - target_width
    } else {
        0
    }
}

fn compute_to_middle_pos(target_width: usize, origin_width: usize) -> (pos: usize)
    ensures
        pos == Alignment::Mid.paste_start(target_width as int, origin_width as int),
{
    if target_width < origin_width {
        0
    } else {
        (target_width - origin_width) / 2
    }
}

fn compute_to_right_pos(target_width: usize, origin_width: usize) -> (pos: usize)
    ensures
        pos == Alignment::High.paste_start(target_width as int, origin_width as int),
{
    if target_width < origin_width {
        0
    } else {
        target_width - origin_width
    }
}

/// Where to read the old content and where to write it when a canvas of
/// `origin_width` by `origin_height` becomes `target_width` by
/// `target_height` and `direct` says which part stays in place. Returns the
/// column and row at which copying starts in the old canvas, then the column
/// and row at which it starts in the new one.
pub fn compute_start_to_xy(
    origin_width: usize,
    origin_height: usize,
    target_width: usize,
    target_height: usize,
    direct: Direction,
) -> (offsets: (usize, usize, usize, usize))
    ensures
        offsets.0 == direct.horizontal().copy_start(target_width as int, origin_width as int),
        offsets.1 == direct.vertical().copy_start(target_height as int, origin_height as int),
        offsets.2 == direct.horizontal().paste_start(target_width as int, origin_width as int),
        offsets.3 == direct.vertical().paste_start(target_height as int, origin_height as int),
{
    let copy_start_x: usize;
    let copy_start_y: usize;

    let copy_to_x: usize;
    let copy_to_y: usize;

    match direct {
        Direction::LeftTop => {
            copy_start_x = 0;
            copy_start_y = 0;
            copy_to_x = 0;
            copy_to_y = 0;
        },
        Direction::TopMiddle => {
            copy_start_x = compute_start_middle_pos(target_width, origin_width);
            copy_start_y = 0;
            copy_to_x = compute_to_middle_pos(target_width, origin_width);
            copy_to_y = 0;
        },
        Direction::RightTop => {
            copy_start_x = compute_start_right_pos(target_width, origin_width);
            copy_start_y = 0;
            copy_to_x = compute_to_right_pos(target_width, origin_width);
            copy_to_y = 0;
        },
        Direction::Left => {
            copy_start_x = 0;
            copy_start_y = compute_start_middle_pos(target_height, origin_height);
            copy_to_x = 0;
            copy_to_y = compute_to_middle_pos(target_height, origin_height);
        },
        Direction::Center => {
            copy_start_x = compute_start_middle_pos(target_width, origin_width);
            copy_start_y = compute_start_middle_pos(target_height, origin_height);
            copy_to_x = compute_to_middle_pos(target_width, origin_width);
            copy_to_y = compute_to_middle_pos(target_height, origin_height);
        },
        Direction::Right => {
            copy_start_x = compute_start_right_pos(target_width, origin_width);
            copy_start_y = compute_start_middle_pos(target_height, origin_height);
            copy_to_x = compute_to_right_pos(target_width, origin_width);
            copy_to_y = compute_to_middle_pos(target_height, origin_height);
        },
        Direction::LeftBottom => {
            copy_start_x = 0;
            copy_start_y = compute_start_right_pos(target_height, origin_height);
            copy_to_x = 0;
            copy_to_y = compute_to_right_pos(target_height, origin_height);
        },
        Direction::BottomMiddle => {
            copy_start_x = compute_start_middle_pos(target_width, origin_width);
            copy_start_y = compute_start_right_pos(target_height, origin_height);
            copy_to_x = compute_to_middle_pos(target_width, origin_width);
            copy_to_y = compute_to_right_pos(target_height, origin_height);
        },
        Direction::RightBottom => {
            copy_start_x = compute_start_right_pos(target_width, origin_width);
            copy_start_y = compute_start_right_pos(target_height, origin_height);
            copy_to_x = compute_to_right_pos(target_width, origin_width);
            copy_to_y = compute_to_right_pos(target_height, origin_height);
        },
    };
    (copy_start_x, copy_start_y, copy_to_x, copy_to_y)
}

/// The state of the dialog that resizes the canvas: the size the canvas has,
/// the size asked for, the anchor, and the offsets that follow from them or
/// from the borders that the user set.
#[derive(Debug)]
pub struct CanvasSizeEditWindow {
    pub open: bool,
    pub origin_width: usize,
    pub origin_height: usize,
    pub width: usize,
    pub height: usize,
    pub direct: Direction,
    pub start_x: usize,
    pub start_y: usize,
    pub to_x: usize,
    pub to_y: usize,
}

impl Default for CanvasSizeEditWindow {
    /// Closed, for a canvas of 16 by 16 cells, anchored at the centre.
    fn default() -> (window: Self)
        ensures
            window == (CanvasSizeEditWindow {
                open: false,
                width: 16,
                height: 16,
                origin_width: 16,
                origin_height: 16,
                direct: Direction::Center,
                start_x: 0,
                start_y: 0,
                to_x: 0,
                to_y: 0,
            }),
    {
        Self {
            open: false,
            width: 16,
            height: 16,
            origin_width: 16,
            origin_height: 16,
            direct: Direction::Center,
            start_x: 0,
            start_y: 0,
            to_x: 0,
            to_y: 0,
        }
    }
}

impl CanvasSizeEditWindow {
    /// The borders that the offsets and sizes amount to: how many columns
    /// or rows the new canvas has more than the old one on the left, at the
    /// top, on the right and at the bottom; a negative border is a crop.
    pub open spec fn border_view(&self) -> (int, int, int, int) {
        let left = self.to_x - self.start_x;
        let top = self.to_y - self.start_y;
        (
            left,
            top,
            self.width - (left + self.origin_width),
            self.height - (top + self.origin_height),
        )
    }

    /// The state after the user set the borders to `left`, `top`, `right`
    /// and `bottom`: a positive border pads, a negative one crops, and the
    /// new size is the old one plus the borders, or 1 where that would be
    /// less: the dialog never asks for a canvas without cells.
    pub open spec fn with_borders(&self, left: int, top: int, right: int, bottom: int) -> Self {
        let width = left + right + self.origin_width;
        let height = top + bottom + self.origin_height;
        CanvasSizeEditWindow {
            start_x: if left > 0 {
                0usize
            } else {
                (-left) as usize
            },
            start_y: if top > 0 {
                0usize
            } else {
                (-top) as usize
            },
            to_x: if left > 0 {
                left as usize
            } else {
                0usize
            },
            to_y: if top > 0 {
                top as usize
            } else {
                0usize
            },
            width: if width < 1 {
                1usize
            } else {
                width as usize
            },
            height: if height < 1 {
                1usize
            } else {
                height as usize
            },
            ..*self
        }
    }

    /// The resize that the dialog stands for: its size, at least one cell
    /// each way, and its offsets, none past the end of the canvas that it
    /// reads from or writes to.
    pub open spec fn resize(&self) -> Command {
        let width = if self.width < 1 {
            1usize
        } else {
            self.width
        };
        let height = if self.height < 1 {
            1usize
        } else {
            self.height
        };
        Command::ChangeCanvasSize {
            width,
            height,
            start_x: if self.start_x > self.origin_width {
                self.origin_width
            } else {
                self.start_x
            },
            start_y: if self.start_y > self.origin_height {
                self.origin_height
            } else {
                self.start_y
            },
            to_x: if self.to_x > width {
                width
            } else {
                self.to_x
            },
            to_y: if self.to_y > height {
                height
            } else {
                self.to_y
            },
        }
    }

    /// The dialog after the user confirmed: closed, with the offsets back at
    /// zero.
    pub open spec fn confirmed(&self) -> Self {
        CanvasSizeEditWindow { open: false, start_x: 0, start_y: 0, to_x: 0, to_y: 0, ..*self }
    }

    /// Opens the dialog for a canvas of `width` by `height` cells.
    pub fn open(&mut self, width: usize, height: usize)
        ensures
            *final(self) == (CanvasSizeEditWindow {
                open: true,
                width,
                height,
                origin_width: width,
                origin_height: height,
                ..*old(self)
            }),
    {
        self.open = true;
        self.width = width;
        self.height = height;
        self.origin_width = width;
        self.origin_height = height;
    }

    /// Takes the offsets from the anchor, after the anchor or the size asked
    /// for has changed.
    pub fn apply_anchor(&mut self)
        ensures
            *final(self) == (CanvasSizeEditWindow {
                start_x: old(self).direct.horizontal().copy_start(
                    old(self).width as int,
                    old(self).origin_width as int,
                ) as usize,
                start_y: old(self).direct.vertical().copy_start(
                    old(self).height as int,
                    old(self).origin_height as int,
                ) as usize,
                to_x: old(self).direct.horizontal().paste_start(
                    old(self).width as int,
                    old(self).origin_width as int,
                ) as usize,
                to_y: old(self).direct.vertical().paste_start(
                    old(self).height as int,
                    old(self).origin_height as int,
                ) as usize,
                ..*old(self)
            }),
    {
        let (start_x, start_y, to_x, to_y) = compute_start_to_xy(
            self.origin_width,
            self.origin_height,
            self.width,
            self.height,
            self.direct,
        );
        self.start_x = start_x;
        self.start_y = start_y;
        self.to_x = to_x;
        self.to_y = to_y;
    }

    /// The borders on the left, at the top, on the right and at the bottom
    /// that the dialog shows.
    pub fn borders(&self) -> (borders: (isize, isize, isize, isize))
        requires
            self.start_x <= isize::MAX,
            self.start_y <= isize::MAX,
            self.to_x <= isize::MAX,
            self.to_y <= isize::MAX,
            self.width <= isize::MAX,
            self.height <= isize::MAX,
            self.origin_width <= isize::MAX,
            self.origin_height <= isize::MAX,
            isize::MIN <= self.to_x - self.start_x + self.origin_width <= isize::MAX,
            isize::MIN <= self.to_y - self.start_y + self.origin_height <= isize::MAX,
            isize::MIN <= self.border_view().2 <= isize::MAX,
            isize::MIN <= self.border_view().3 <= isize::MAX,
        ensures
            borders.0 == self.border_view().0,
            borders.1 == self.border_view().1,
            borders.2 == self.border_view().2,
            borders.3 == self.border_view().3,
    {
        let start_x = self.start_x as isize;
        let start_y = self.start_y as isize;
        let to_x = self.to_x as isize;
        let to_y = self.to_y as isize;

        let border_left = to_x - start_x;
        let border_top = to_y - start_y;
        let border_right = self.width as isize - (border_left + self.origin_width as isize);
        let border_bottom = self.height as isize - (border_top + self.origin_height as isize);
        (border_left, border_top, border_right, border_bottom)
    }

    /// Takes the offsets and the size from the borders that the user set.
    pub fn set_borders(
        &mut self,
        border_left: isize,
        border_top: isize,
        border_right: isize,
        border_bottom: isize,
    )
        requires
            border_left > isize::MIN,
            border_top > isize::MIN,
            old(self).origin_width <= isize::MAX,
            old(self).origin_height <= isize::MAX,
            isize::MIN <= border_left + border_right <= isize::MAX,
            isize::MIN <= border_top + border_bottom <= isize::MAX,
            isize::MIN <= border_left + border_right + old(self).origin_width <= isize::MAX,
            isize::MIN <= border_top + border_bottom + old(self).origin_height <= isize::MAX,
        ensures
            *final(self) == old(self).with_borders(
                border_left as int,
                border_top as int,
                border_right as int,
                border_bottom as int,
            ),
            final(self).width >= 1,
            final(self).height >= 1,
    {
        self.start_x = if border_left > 0 {
            0
        } else {
            (-border_left) as usize
        };
        self.start_y = if border_top > 0 {
            0
        } else {
            (-border_top) as usize
        };

        self.to_x = if border_left > 0 {
            border_left as usize
        } else {
            0
        };

        self.to_y = if border_top > 0 {
            border_top as usize
        } else {
            0
        };

        let width = border_left + border_right + self.origin_width as isize;
        let height = border_top + border_bottom + self.origin_height as isize;
        self.width = if width < 1 {
            1
        } else {
            width as usize
        };
        self.height = if height < 1 {
            1
        } else {
            height as usize
        };
    }

    /// Takes the answer of the Ok button. Where it was clicked, the resize
    /// that the dialog stands for is returned as a command, the dialog
    /// closes and its offsets start from zero again; where it was not,
    /// nothing is returned and nothing changes.
    pub fn confirm(&mut self, clicked: bool) -> (command: Option<Command>)
        ensures
            clicked ==> command == Some(old(self).resize()) && *final(self) == old(self).confirmed(),
            !clicked ==> command is None && *final(self) == *old(self),
    {
        if !clicked {
            return None;
        }
        let width = if self.width < 1 {
            1
        } else {
            self.width
        };
        let height = if self.height < 1 {
            1
        } else {
            self.height
        };
        let command = Command::ChangeCanvasSize {
            width,
            height,
            start_x: if self.start_x > self.origin_width {
                self.origin_width
            } else {
                self.start_x
            },
            start_y: if self.start_y > self.origin_height {
                self.origin_height
            } else {
                self.start_y
            },
            to_x: if self.to_x > width {
                width
            } else {
                self.to_x
            },
            to_y: if self.to_y > height {
                height
            } else {
                self.to_y
            },
        };
        self.start_x = 0;
        self.start_y = 0;
        self.to_x = 0;
        self.to_y = 0;
        self.open = false;
        Some(command)
    }
}

/// The resize that a dialog stands for fits every canvas of the size that
/// the dialog was opened for, provided that the cells of the new size can
/// be counted.
pub proof fn lemma_dialog_resize_fits(window: CanvasSizeEditWindow, g: Grid)
    requires
        g.width == window.origin_width,
        g.height == window.origin_height,
        window.resize()->width * window.resize()->height <= usize::MAX,
    ensures
        window.resize()@.fits(g),
        window.resize()->width >= 1,
        window.resize()->height >= 1,
{
}

/// After the borders were set, the dialog asks for at least one cell each
/// way, as long as the size that the borders add up to can be told.
pub proof fn lemma_borders_keep_cells(
    window: CanvasSizeEditWindow,
    left: int,
    top: int,
    right: int,
    bottom: int,
)
    requires
        left + right + window.origin_width <= usize::MAX,
        top + bottom + window.origin_height <= usize::MAX,
    ensures
        window.with_borders(left, top, right, bottom).width >= 1,
        window.with_borders(left, top, right, bottom).height >= 1,
{
}

/// A rectangular canvas of optional tiles, stored row by row.
#[derive(Debug)]
pub struct Canvas {
    pub width: usize,
    pub height: usize,
    pub cells: Vec<Option<TileState>>,
}

impl View for Canvas {
    type V = Grid;

    open spec fn view(&self) -> Grid {
        Grid { width: self.width as nat, height: self.height as nat, cells: self.cells@ }
    }
}

impl Clone for Canvas {
    fn clone(&self) -> (copy: Self)
        ensures
            copy@ == self@,
    {
        let mut cells: Vec<Option<TileState>> = Vec::with_capacity(self.cells.len());
        let mut i: usize = 0;
        while i < self.cells.len()
            invariant
                i <= self.cells.len(),
                cells@ == self.cells@.subrange(0, i as int),
            decreases self.cells.len() - i,
        {
            cells.push(self.cells[i]);
            i += 1;
            assert(cells@ =~= self.cells@.subrange(0, i as int));
        }
        assert(cells@ =~= self.cells@);
        Canvas { width: self.width, height: self.height, cells }
    }
}

impl Default for Canvas {
    fn default() -> (canvas: Self)
        ensures
            canvas@ == Grid::blank(16, 16),
    {
        Self::with_size(16, 16)
    }
}

impl Canvas {
    /// A canvas is well formed when it holds one cell for each position.
    pub open spec fn wf(&self) -> bool {
        self@.wf()
    }

    /// An empty canvas of the given size.
    pub fn with_size(width: usize, height: usize) -> (canvas: Self)
        requires
            width * height <= usize::MAX,
        ensures
            canvas@ == Grid::blank(width as nat, height as nat),
            canvas.wf(),
    {
        let size = width * height;
        let mut cells: Vec<Option<TileState>> = Vec::with_capacity(size);
        cells.resize(size, None);
        assert(cells@ =~= Grid::blank(width as nat, height as nat).cells);
        Self { cells, width, height }
    }

    /// The canvas of the given size that holds `cells`, row by row; nothing
    /// where `cells` is not one cell for each position.
    pub fn from_cells(width: usize, height: usize, cells: Vec<Option<TileState>>) -> (canvas: Option<
        Self,
    >)
        ensures
            canvas is Some <==> cells.len() == width * height,
            canvas is Some ==> canvas->0.wf() && canvas->0@ == (Grid {
                width: width as nat,
                height: height as nat,
                cells: cells@,
            }),
    {
        match width.checked_mul(height) {
            Some(size) => {
                if size == cells.len() {
                    Some(Self { width, height, cells })
                } else {
                    None
                }
            },
            None => None,
        }
    }

    /// The cell at column `x` of row `y`, for writing.
    pub fn get_cell_mut(&mut self, x: usize, y: usize) -> (cell: &mut Option<TileState>)
        requires
            old(self).wf(),
            x < old(self).width,
            y < old(self).height,
        ensures
            *cell == old(self)@.at(x as int, y as int),
            final(self)@ == old(self)@.put(x as int, y as int, *final(cell)),
    {
        proof {
            assert(self.cells.len() == self.width * self.height);
            lemma_offset_in_range(self.width as int, self.height as int, x as int, y as int);
        }
        &mut self.cells[y * self.width + x]
    }

    /// The cell at column `x` of row `y`.
    pub fn get_cell(&self, x: usize, y: usize) -> (cell: &Option<TileState>)
        requires
            self.wf(),
            x < self.width,
            y < self.height,
        ensures
            *cell == self@.at(x as int, y as int),
    {
        proof {
            assert(self.cells.len() == self.width * self.height);
            lemma_offset_in_range(self.width as int, self.height as int, x as int, y as int);
        }
        &self.cells[y * self.width + x]
    }

    /// Replaces the canvas by one of `width` by `height` cells. The part of
    /// the old content that starts at `(copy_start_x, copy_start_y)` is
    /// placed at `(copy_to_x, copy_to_y)`, as far as both canvases reach;
    /// every other cell is empty.
    pub fn change_canvas_size(
        &mut self,
        width: usize,
        height: usize,
        copy_start_x: usize,
        copy_start_y: usize,
        copy_to_x: usize,
        copy_to_y: usize,
    )
        requires
            old(self).wf(),
            old(self)@.can_resize(
                width as int,
                height as int,
                copy_start_x as int,
                copy_start_y as int,
                copy_to_x as int,
                copy_to_y as int,
            ),
        ensures
            final(self).wf(),
            final(self)@ == old(self)@.resized(
                width as int,
                height as int,
                copy_start_x as int,
                copy_start_y as int,
                copy_to_x as int,
                copy_to_y as int,
            ),
    {
        let mut new_canvas = Self::with_size(width, height);
        let rows = if height - copy_to_y < self.height - copy_start_y {
            height - copy_to_y
        } else {
            self.height - copy_start_y
        };
        let cols = if width - copy_to_x < self.width - copy_start_x {
            width - copy_to_x
        } else {
            self.width - copy_start_x
        };
        let ghost w = width as int;
        let ghost h = height as int;
        for y in 0..rows
            invariant
                self.wf(),
                new_canvas.wf(),
                new_canvas.width == width,
                new_canvas.height == height,
                1 <= w == width,
                1 <= h == height,
                w * h <= usize::MAX,
                rows == Grid::span(h, copy_to_y as int, self.height as int, copy_start_y as int),
                cols == Grid::span(w, copy_to_x as int, self.width as int, copy_start_x as int),
                copy_start_x <= self.width,
                copy_start_y <= self.height,
                copy_to_x <= width,
                copy_to_y <= height,
                forall|i: int|
                    0 <= i < w * h ==> #[trigger] new_canvas.cells@[i] == (if copy_to_x <= i % w
                        < copy_to_x + cols && copy_to_y <= i / w < copy_to_y + y {
                        self@.at(i % w - copy_to_x + copy_start_x, i / w - copy_to_y + copy_start_y)
                    } else {
                        None
                    }),
        {
            for x in 0..cols
                invariant
                    self.wf(),
                    new_canvas.wf(),
                    new_canvas.width == width,
                    new_canvas.height == height,
                    1 <= w == width,
                    1 <= h == height,
                    w * h <= usize::MAX,
                    y < rows,
                    rows == Grid::span(h, copy_to_y as int, self.height as int, copy_start_y as int),
                    cols == Grid::span(w, copy_to_x as int, self.width as int, copy_start_x as int),
                    copy_start_x <= self.width,
                    copy_start_y <= self.height,
                    copy_to_x <= width,
                    copy_to_y <= height,
                    forall|i: int|
                        0 <= i < w * h ==> #[trigger] new_canvas.cells@[i] == (if (copy_to_x <= i
                            % w < copy_to_x + cols && copy_to_y <= i / w < copy_to_y + y) || (
                        copy_to_x <= i % w < copy_to_x + x && i / w == copy_to_y + y) {
                            self@.at(
                                i % w - copy_to_x + copy_start_x,
                                i / w - copy_to_y + copy_start_y,
                            )
                        } else {
                            None
                        }),
            {
                let ghost before = new_canvas@;
                let tile = *self.get_cell(copy_start_x + x, copy_start_y + y);
                *new_canvas.get_cell_mut(copy_to_x + x, copy_to_y + y) = tile;
                proof {
                    let target = (copy_to_y + y) * w + (copy_to_x + x);
                    lemma_offset_coords(w, (copy_to_x + x) as int, (copy_to_y + y) as int);
                    lemma_offset_in_range(w, h, (copy_to_x + x) as int, (copy_to_y + y) as int);
                    assert(new_canvas@ == before.put(
                        (copy_to_x + x) as int,
                        (copy_to_y + y) as int,
                        tile,
                    ));
                    assert forall|i: int| 0 <= i < w * h implies #[trigger] new_canvas.cells@[i]
                        == (if (copy_to_x <= i % w < copy_to_x + cols && copy_to_y <= i / w
                        < copy_to_y + y) || (copy_to_x <= i % w < copy_to_x + x + 1 && i / w
                        == copy_to_y + y) {
                        self@.at(i % w - copy_to_x + copy_start_x, i / w - copy_to_y + copy_start_y)
                    } else {
                        None
                    }) by {
                        lemma_coords_of_offset(w, h, i);
                        if i != target {
                            assert(new_canvas.cells@[i] == before.cells[i]);
                        }
                    }
                }
            }
        }
        proof {
            assert(new_canvas@.cells =~= self@.resized(
                w,
                h,
                copy_start_x as int,
                copy_start_y as int,
                copy_to_x as int,
                copy_to_y as int,
            ).cells);
        }
        *self = new_canvas;
    }

    /// The number of cells.
    pub fn size(&self) -> (n: usize)
        requires
            self.wf(),
        ensures
            n == self.width * self.height,
            n == self@.cells.len(),
    {
        assert(self.cells.len() == self.width * self.height);
        self.width * self.height
    }
}

} // verus!
