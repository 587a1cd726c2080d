use fakepaint::canvas::{compute_start_to_xy, Canvas, CanvasSizeEditWindow, Direction};
use fakepaint::color_editer::gray_to_rgb;
use fakepaint::export_image::ExportImageWindow;
use fakepaint::canvas::TileState;
use fakepaint::color::Color;
use fakepaint::new_file::NewFileWinodw;
use fakepaint::region::compute_contigeous_cell;
use fakepaint::undo::Command;

fn glyph(idx: usize) -> Option<TileState> {
    Some(TileState { idx, fc: Color::from_rgb(1, 2, 3), bc: Color::from_rgb(4, 5, 6) })
}

#[test]
fn test_gray_to_rgb() {
    assert_eq!(gray_to_rgb(171), (171, 171, 171));
}

#[test]
fn with_size_is_empty() {
    let canvas = Canvas::with_size(3, 2);
    assert_eq!(canvas.width, 3);
    assert_eq!(canvas.height, 2);
    assert_eq!(canvas.cells.len(), 6);
    assert!(canvas.cells.iter().all(|c| c.is_none()));
    assert_eq!(canvas.size(), 6);
    let none = Canvas::with_size(0, 5);
    assert_eq!(none.size(), 0);
}

#[test]
fn from_cells_wants_one_cell_for_each_position() {
    let canvas = Canvas::from_cells(2, 1, vec![glyph(1), None]).unwrap();
    assert_eq!((canvas.width, canvas.height), (2, 1));
    assert_eq!(*canvas.get_cell(0, 0), glyph(1));
    assert!(Canvas::from_cells(2, 2, vec![None; 3]).is_none());
    assert!(Canvas::from_cells(2, 2, vec![None; 5]).is_none());
    assert!(Canvas::from_cells(usize::MAX, 2, vec![None; 2]).is_none());
    assert!(Canvas::from_cells(0, 7, Vec::new()).is_some());
}

#[test]
fn default_canvas_is_sixteen_square() {
    let canvas = Canvas::default();
    assert_eq!((canvas.width, canvas.height, canvas.cells.len()), (16, 16, 256));
}

#[test]
fn cells_are_stored_row_by_row() {
    let mut canvas = Canvas::with_size(3, 2);
    *canvas.get_cell_mut(2, 1) = glyph(9);
    *canvas.get_cell_mut(0, 1) = glyph(4);
    assert_eq!(canvas.cells[5], glyph(9));
    assert_eq!(canvas.cells[3], glyph(4));
    assert_eq!(*canvas.get_cell(2, 1), glyph(9));
    assert_eq!(*canvas.get_cell(1, 1), None);
    let copy = canvas.clone();
    assert_eq!(copy.cells, canvas.cells);
}

#[test]
fn center_anchor_crops_and_pads_evenly() {
    assert_eq!(compute_start_to_xy(10, 10, 6, 6, Direction::Center), (2, 2, 0, 0));
    assert_eq!(compute_start_to_xy(10, 10, 14, 14, Direction::Center), (0, 0, 2, 2));
}

#[test]
fn center_anchor_rounds_down() {
    assert_eq!(compute_start_to_xy(10, 10, 7, 13, Direction::Center), (1, 0, 0, 1));
}

#[test]
fn every_anchor_on_a_shrinking_and_a_growing_axis() {
    // width shrinks from 10 to 4, height grows from 3 to 8
    let cases = [
        (Direction::LeftTop, (0, 0, 0, 0)),
        (Direction::TopMiddle, (3, 0, 0, 0)),
        (Direction::RightTop, (6, 0, 0, 0)),
        (Direction::Left, (0, 0, 0, 2)),
        (Direction::Center, (3, 0, 0, 2)),
        (Direction::Right, (6, 0, 0, 2)),
        (Direction::LeftBottom, (0, 0, 0, 5)),
        (Direction::BottomMiddle, (3, 0, 0, 5)),
        (Direction::RightBottom, (6, 0, 0, 5)),
    ];
    for (direct, expected) in cases {
        assert_eq!(compute_start_to_xy(10, 3, 4, 8, direct), expected);
    }
}

#[test]
fn same_size_needs_no_offsets() {
    assert_eq!(compute_start_to_xy(5, 5, 5, 5, Direction::RightBottom), (0, 0, 0, 0));
}

#[test]
fn resize_copies_the_overlap() {
    let mut canvas = Canvas::with_size(3, 3);
    for y in 0..3 {
        for x in 0..3 {
            *canvas.get_cell_mut(x, y) = glyph(y * 3 + x);
        }
    }
    // shrink to 2 by 2, anchored at the bottom right
    let mut small = canvas.clone();
    let (sx, sy, tx, ty) = compute_start_to_xy(3, 3, 2, 2, Direction::RightBottom);
    small.change_canvas_size(2, 2, sx, sy, tx, ty);
    assert_eq!((small.width, small.height), (2, 2));
    assert_eq!(small.cells, vec![glyph(4), glyph(5), glyph(7), glyph(8)]);

    // grow to 4 by 5, anchored at the centre
    let mut large = canvas.clone();
    let (sx, sy, tx, ty) = compute_start_to_xy(3, 3, 4, 5, Direction::Center);
    assert_eq!((sx, sy, tx, ty), (0, 0, 0, 1));
    large.change_canvas_size(4, 5, sx, sy, tx, ty);
    assert_eq!((large.width, large.height, large.cells.len()), (4, 5, 20));
    for y in 0..5 {
        for x in 0..4 {
            let expected = if x < 3 && (1..4).contains(&y) { glyph((y - 1) * 3 + x) } else { None };
            assert_eq!(*large.get_cell(x, y), expected);
        }
    }
}

#[test]
fn resize_with_offsets_on_both_sides() {
    let mut canvas = Canvas::with_size(3, 1);
    for x in 0..3 {
        *canvas.get_cell_mut(x, 0) = glyph(x);
    }
    canvas.change_canvas_size(3, 1, 1, 0, 2, 0);
    assert_eq!(canvas.cells, vec![None, None, glyph(1)]);
}

#[test]
fn flood_fill_marks_the_connected_region_only() {
    // a a b
    // b a b
    // a b a
    let a = glyph(1);
    let b = glyph(2);
    let mut canvas = Canvas::with_size(3, 3);
    let layout = [[a, a, b], [b, a, b], [a, b, a]];
    for y in 0..3 {
        for x in 0..3 {
            *canvas.get_cell_mut(x, y) = layout[y][x];
        }
    }
    let mask = compute_contigeous_cell(&canvas, 0, 0);
    assert_eq!(
        mask,
        vec![vec![true, true, false], vec![false, true, false], vec![false, false, false]]
    );
    let mask = compute_contigeous_cell(&canvas, 2, 1);
    assert_eq!(
        mask,
        vec![vec![false, false, true], vec![false, false, true], vec![false, false, false]]
    );
    let mask = compute_contigeous_cell(&canvas, 2, 2);
    assert_eq!(
        mask,
        vec![vec![false, false, false], vec![false, false, false], vec![false, false, true]]
    );
}

#[test]
fn flood_fill_of_an_empty_canvas_marks_everything() {
    let canvas = Canvas::with_size(5, 4);
    let mask = compute_contigeous_cell(&canvas, 4, 3);
    assert_eq!(mask.len(), 4);
    assert!(mask.iter().all(|row| row.len() == 5 && row.iter().all(|&m| m)));
    let one = Canvas::with_size(1, 1);
    assert_eq!(compute_contigeous_cell(&one, 0, 0), vec![vec![true]]);
}

#[test]
fn flood_fill_goes_around_corners() {
    // a ring of empty cells around one filled cell
    let mut canvas = Canvas::with_size(3, 3);
    *canvas.get_cell_mut(1, 1) = glyph(1);
    let mask = compute_contigeous_cell(&canvas, 0, 0);
    assert_eq!(
        mask,
        vec![vec![true, true, true], vec![true, false, true], vec![true, true, true]]
    );
}

#[test]
fn resize_dialog_opens_on_the_canvas_size() {
    let mut window = CanvasSizeEditWindow::default();
    assert!(!window.open);
    assert_eq!(window.direct, Direction::Center);
    window.open(7, 9);
    assert!(window.open);
    assert_eq!((window.width, window.height), (7, 9));
    assert_eq!((window.origin_width, window.origin_height), (7, 9));
}

#[test]
fn resize_dialog_follows_anchor_and_borders() {
    let mut window = CanvasSizeEditWindow::default();
    window.open(10, 10);
    window.width = 6;
    window.height = 14;
    window.apply_anchor();
    assert_eq!((window.start_x, window.start_y, window.to_x, window.to_y), (2, 0, 0, 2));
    assert_eq!(window.borders(), (-2, 2, -2, 2));

    window.set_borders(-3, 1, 0, 4);
    assert_eq!((window.start_x, window.start_y, window.to_x, window.to_y), (3, 0, 0, 1));
    assert_eq!((window.width, window.height), (7, 15));
    assert_eq!(window.borders(), (-3, 1, 0, 4));

    window.set_borders(-20, 0, 0, -30);
    assert_eq!((window.width, window.height), (1, 1));
    assert_eq!(window.start_x, 20);

    window.set_borders(1, 2, 3, 4);
    assert_eq!((window.start_x, window.start_y, window.to_x, window.to_y), (0, 0, 1, 2));
    assert_eq!((window.width, window.height), (14, 16));
}

#[test]
fn borders_never_leave_a_canvas_without_cells() {
    let mut window = CanvasSizeEditWindow::default();
    window.open(10, 7);
    // the borders take away exactly what there is
    window.set_borders(-10, -3, 0, -4);
    assert_eq!((window.width, window.height), (1, 1));
    window.set_borders(-4, 0, -6, 0);
    assert_eq!((window.width, window.height), (1, 7));
    // and more than there is
    window.set_borders(-4, -7, -7, -7);
    assert_eq!((window.width, window.height), (1, 1));
    // one cell is left as it is
    window.set_borders(-9, 0, 0, -6);
    assert_eq!((window.width, window.height), (1, 1));
    window.set_borders(0, 0, -8, 1);
    assert_eq!((window.width, window.height), (2, 8));
}

#[test]
fn resize_dialog_confirms_on_a_click_only() {
    let mut window = CanvasSizeEditWindow::default();
    window.open(10, 10);
    window.set_borders(1, 2, 3, 4);
    assert!(window.confirm(false).is_none());
    assert!(window.open);
    assert_eq!((window.start_x, window.start_y, window.to_x, window.to_y), (0, 0, 1, 2));

    let command = window.confirm(true);
    assert!(
        command
            == Some(Command::ChangeCanvasSize {
                width: 14,
                height: 16,
                start_x: 0,
                start_y: 0,
                to_x: 1,
                to_y: 2,
            })
    );
    assert!(!window.open);
    assert_eq!((window.start_x, window.start_y, window.to_x, window.to_y), (0, 0, 0, 0));
    assert_eq!((window.width, window.height), (14, 16));
    assert_eq!((window.origin_width, window.origin_height), (10, 10));
}

#[test]
fn confirmed_resize_fits_the_canvas_it_was_opened_for() {
    let canvas = Canvas::with_size(10, 7);

    // borders that take the whole width away
    let mut window = CanvasSizeEditWindow::default();
    window.open(10, 7);
    window.set_borders(-6, 0, -4, 0);
    let command = window.confirm(true).unwrap();
    assert!(
        command
            == Command::ChangeCanvasSize {
                width: 1,
                height: 7,
                start_x: 6,
                start_y: 0,
                to_x: 0,
                to_y: 0,
            }
    );
    assert!(command.fits(&canvas));

    // a crop that starts past the old canvas, and a pad that ends past the new one
    let mut window = CanvasSizeEditWindow::default();
    window.open(10, 7);
    window.set_borders(-20, 5, 30, -11);
    assert_eq!((window.width, window.height), (20, 1));
    assert_eq!((window.start_x, window.to_y), (20, 5));
    let command = window.confirm(true).unwrap();
    assert!(
        command
            == Command::ChangeCanvasSize {
                width: 20,
                height: 1,
                start_x: 10,
                start_y: 0,
                to_x: 0,
                to_y: 1,
            }
    );
    assert!(command.fits(&canvas));

    // a dialog opened on a canvas without cells still asks for one cell each way
    let mut window = CanvasSizeEditWindow::default();
    window.open(0, 0);
    let command = window.confirm(true).unwrap();
    assert!(
        command
            == Command::ChangeCanvasSize {
                width: 1,
                height: 1,
                start_x: 0,
                start_y: 0,
                to_x: 0,
                to_y: 0,
            }
    );
    assert!(command.fits(&Canvas::with_size(0, 0)));
}

#[test]
fn new_file_dialog_creates_on_a_click_with_a_name() {
    let mut window = NewFileWinodw::default();
    window.open();
    window.width = 3;
    window.height = 2;
    assert!(window.create(true).is_none());
    assert!(window.open);
    window.file_name = "picture".to_string();
    assert!(window.create(false).is_none());
    assert!(window.open);
    let canvas = window.create(true).unwrap();
    assert_eq!((canvas.width, canvas.height), (3, 2));
    assert_eq!(canvas.cells, vec![None; 6]);
    assert!(!window.open);
    assert_eq!((window.width, window.height), (3, 2));
    assert_eq!(window.file_name, "picture");
}

#[test]
fn export_dialog_exports_on_a_click_with_a_name() {
    let mut window = ExportImageWindow::default();
    window.open();
    assert!(!window.export(true));
    assert!(window.open);
    window.file_name = "picture".to_string();
    assert!(!window.export(false));
    assert!(window.open);
    assert!(window.export(true));
    assert!(!window.open);
    assert_eq!(window.scale, 1);
    assert_eq!(window.file_name, "picture");
}

#[test]
fn other_dialogs_open() {
    let mut new_file = NewFileWinodw::default();
    assert!(!new_file.open);
    assert_eq!((new_file.width, new_file.height), (16, 16));
    assert_eq!(new_file.file_name, "");
    new_file.open();
    assert!(new_file.open);

    let mut export = ExportImageWindow::default();
    assert!(!export.open);
    assert_eq!(export.scale, 1);
    assert_eq!(export.file_name, "");
    export.open();
    assert!(export.open);
}
