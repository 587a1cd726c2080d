use fakepaint::canvas::Canvas;
use fakepaint::color_editer::{
    compute_color, ColorEditerState, Palette, PencilState, StoragePen, ToolEnum,
};
use fakepaint::canvas::TileState;
use fakepaint::color::Color;
use fakepaint::undo::{excute_painting_command_to_canvas, Command};

const WHITE: Color = Color { r: 255, g: 255, b: 255, a: 255 };
const BLACK: Color = Color { r: 0, g: 0, b: 0, a: 255 };
const RED: Color = Color { r: 255, g: 0, b: 0, a: 255 };
const BLUE: Color = Color { r: 0, g: 0, b: 255, a: 255 };

#[test]
fn from_rgb_is_opaque() {
    assert_eq!(Color::from_rgb(1, 2, 3), Color { r: 1, g: 2, b: 3, a: 255 });
}

#[test]
fn keys_tell_colours_apart() {
    assert_eq!(Color { r: 1, g: 2, b: 3, a: 4 }.pack(), 1 + 2 * 256 + 3 * 65536 + 4 * 16777216);
    assert_eq!(WHITE.pack(), u32::MAX);
    assert_ne!(Color::from_rgb(1, 0, 0).pack(), Color::from_rgb(0, 1, 0).pack());
}

#[test]
fn contrast_shifts_every_channel() {
    assert_eq!(compute_color(Color::from_rgb(0, 127, 200)), Color::from_rgb(128, 0, 73));
    assert_eq!(compute_color(Color { r: 255, g: 126, b: 1, a: 7 }), Color::from_rgb(128, 254, 129));
}

#[test]
fn default_palette_knows_white_and_black() {
    let palette = Palette::default();
    assert_eq!(palette.palette, vec![WHITE, BLACK]);
    assert!(!palette.editing);
    assert!(palette.contains_color(WHITE));
    assert!(palette.contains_color(BLACK));
    assert!(!palette.contains_color(RED));
    assert_eq!(palette.get_color(1), BLACK);
}

#[test]
fn add_color_appends_once() {
    let mut palette = Palette::default();
    palette.add_color(RED);
    palette.add_color(RED);
    palette.add_color(WHITE);
    assert_eq!(palette.palette, vec![WHITE, BLACK, RED]);
    assert!(palette.contains_color(RED));
}

#[test]
fn delete_color_forgets_the_colour() {
    let mut palette = Palette::from(vec![WHITE, BLACK, RED, BLUE]);
    palette.delete_color(1);
    assert_eq!(palette.palette, vec![WHITE, RED, BLUE]);
    assert!(!palette.contains_color(BLACK));
    assert!(palette.contains_color(WHITE));
    assert!(palette.contains_color(RED));
    assert!(palette.contains_color(BLUE));
    palette.add_color(BLACK);
    assert_eq!(palette.palette, vec![WHITE, RED, BLUE, BLACK]);
}

#[test]
fn delete_color_with_duplicates() {
    // the same colour behind the deleted one keeps it known
    let mut palette = Palette::from(&vec![RED, WHITE, RED]);
    palette.delete_color(0);
    assert_eq!(palette.palette, vec![WHITE, RED]);
    assert!(palette.contains_color(RED));
    // the same colour before the deleted one does not
    let mut palette = Palette::from(vec![RED, WHITE, RED]);
    palette.delete_color(2);
    assert_eq!(palette.palette, vec![RED, WHITE]);
    assert!(!palette.contains_color(RED));
    palette.add_color(RED);
    assert_eq!(palette.palette, vec![RED, WHITE, RED]);
}

#[test]
fn default_pen() {
    let pen = PencilState::default();
    assert_eq!(pen.idx, 0);
    assert_eq!(pen.fc, WHITE);
    assert_eq!(pen.bc, BLACK);
    assert!(pen.fc_activate && pen.bc_activate);
    assert_eq!(pen.tool, ToolEnum::Pencil);
    assert_eq!(pen.palette_len(), 2);
    assert_eq!(pen.palette_vec_ref(), &vec![WHITE, BLACK]);
    assert_eq!(pen.get_color(0), WHITE);
    assert_eq!(pen.text, "");
}

#[test]
fn pen_colours_depend_on_what_is_active() {
    let mut pen = PencilState::default();
    pen.idx = 5;
    pen.fc = RED;
    pen.bc = BLUE;
    let cell = Some(TileState { idx: 9, fc: WHITE, bc: BLACK });
    assert_eq!(pen.get_fc_bc(&None), Some((RED, BLUE)));
    assert_eq!(pen.get_fc_bc(&cell), Some((RED, BLUE)));
    assert_eq!(pen.into_tile_state(&cell), Some(TileState { idx: 5, fc: RED, bc: BLUE }));
    pen.fc_activate = false;
    assert_eq!(pen.get_fc_bc(&None), Some((RED, BLUE)));
    assert_eq!(pen.get_fc_bc(&cell), Some((WHITE, BLUE)));
    pen.fc_activate = true;
    pen.bc_activate = false;
    assert_eq!(pen.get_fc_bc(&cell), Some((RED, BLACK)));
    assert_eq!(pen.into_tile_state(&cell), Some(TileState { idx: 5, fc: RED, bc: BLACK }));
    pen.fc_activate = false;
    assert_eq!(pen.get_fc_bc(&cell), None);
    assert_eq!(pen.get_fc_bc(&None), None);
    assert_eq!(pen.into_tile_state(&cell), None);
    assert_eq!(pen.swap_color_and_into(), Some(TileState { idx: 5, fc: BLUE, bc: RED }));
}

#[test]
fn swap_exchanges_the_colours() {
    let mut pen = PencilState::default();
    pen.state = ColorEditerState::HSV;
    pen.swap_fc_bc();
    assert_eq!((pen.fc, pen.bc), (BLACK, WHITE));
    assert_eq!(pen.state, ColorEditerState::RGB);
}

#[test]
fn clicks_on_the_palette() {
    let mut pen = PencilState::default();
    pen.palette.add_color(RED);
    assert_eq!(pen.do_click_color_action(2), None);
    assert_eq!(pen.fc, RED);
    assert_eq!(pen.do_secondary_click_color_action(0), None);
    assert_eq!(pen.bc, WHITE);
    pen.palette.editing = true;
    assert_eq!(pen.do_click_color_action(2), Some(2));
    assert_eq!(pen.do_secondary_click_color_action(1), Some(1));
    assert_eq!((pen.fc, pen.bc), (RED, WHITE));
    pen.delete_color(2);
    assert_eq!(pen.palette_len(), 2);
    assert!(!pen.palette.contains_color(RED));
}

#[test]
fn stored_pen_round_trip() {
    let stored = StoragePen::default();
    assert_eq!((stored.idx, stored.fc, stored.bc), (0, [255, 255, 255], [0, 0, 0]));
    let pen = PencilState::from(StoragePen { idx: 3, fc: [10, 20, 30], bc: [40, 50, 60] });
    assert_eq!(pen.idx, 3);
    assert_eq!(pen.fc, Color::from_rgb(10, 20, 30));
    assert_eq!(pen.bc, Color::from_rgb(40, 50, 60));
    assert!(pen.fc_activate && pen.bc_activate);
    let back = StoragePen::from(&pen);
    assert_eq!((back.idx, back.fc, back.bc), (3, [10, 20, 30], [40, 50, 60]));
    let back = StoragePen::from(pen);
    assert_eq!((back.idx, back.fc, back.bc), (3, [10, 20, 30], [40, 50, 60]));
    let parts = StoragePen::from_parts(1, RED, BLUE);
    assert_eq!((parts.idx, parts.fc, parts.bc), (1, [255, 0, 0], [0, 0, 255]));
}

#[test]
fn stored_pen_makes_translucent_colours_opaque() {
    let mut pen = PencilState::default();
    pen.idx = 2;
    pen.fc = Color { r: 100, g: 50, b: 25, a: 128 };
    pen.bc = Color { r: 0, g: 0, b: 0, a: 0 };
    let stored = StoragePen::from(&pen);
    let expected = egui::Color32::from_rgba_premultiplied(100, 50, 25, 128).to_opaque();
    assert_eq!(stored.idx, 2);
    assert_eq!(stored.fc, [expected.r(), expected.g(), expected.b()]);
    assert_ne!(stored.fc, [100, 50, 25]);
    assert_eq!(stored.bc, [0, 0, 0]);
}

#[test]
fn pen_makes_a_command_for_each_tool() {
    let mut canvas = Canvas::with_size(3, 2);
    *canvas.get_cell_mut(2, 0) = Some(TileState { idx: 1, fc: WHITE, bc: BLACK });
    let mut pen = PencilState::default();
    pen.idx = 4;
    let drawn = Some(TileState { idx: 4, fc: WHITE, bc: BLACK });
    let swapped = Some(TileState { idx: 4, fc: BLACK, bc: WHITE });

    let command = Command::new(1, 1, &pen, canvas.get_cell(1, 1), false, &canvas);
    assert!(command == Command::Point { c: drawn, x: 1, y: 1 });
    let command = Command::new(1, 1, &pen, canvas.get_cell(1, 1), true, &canvas);
    assert!(command == Command::Point { c: swapped, x: 1, y: 1 });

    pen.tool = ToolEnum::Fill;
    let command = Command::new(0, 0, &pen, canvas.get_cell(0, 0), false, &canvas);
    let painted = excute_painting_command_to_canvas(&canvas, &[command]);
    assert_eq!(
        painted.cells,
        vec![drawn, drawn, Some(TileState { idx: 1, fc: WHITE, bc: BLACK }), drawn, drawn, drawn]
    );

    pen.tool = ToolEnum::RectFilled;
    pen.start_xy = Some((2, 1));
    let command = Command::new(1, 0, &pen, canvas.get_cell(1, 0), false, &canvas);
    assert!(command == Command::RectFill { c: drawn, x0: 2, y0: 1, x1: 1, y1: 0 });
}
