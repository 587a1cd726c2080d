use fakepaint::canvas::Canvas;
use fakepaint::canvas::TileState;
use fakepaint::color::Color;
use fakepaint::region::compute_contigeous_cell;
use fakepaint::undo::{
    excute_painting_command_to_canvas, excute_painting_command_to_canvas_mut, Command, FillPos,
    History,
};

fn tile(idx: usize) -> Option<TileState> {
    Some(TileState {
        idx,
        fc: Color { r: 255, g: 255, b: 255, a: 255 },
        bc: Color { r: 0, g: 0, b: 0, a: 255 },
    })
}

fn point(idx: usize, x: usize, y: usize) -> Command {
    Command::Point { c: tile(idx), x, y }
}

fn distinct_points(n: usize) -> Vec<Command> {
    let mut commands = Vec::new();
    for k in 0..n {
        commands.push(point(k + 1, k % 4, (k / 4) % 4));
    }
    commands
}

#[test]
fn new_history_is_empty() {
    let history = History::new();
    assert_eq!(history.edit_len(), 0);
    assert_eq!(history.undo_len(), 0);
    assert_eq!(history.last_command(), 0);
    assert!(!history.has_checkpoint());
}

#[test]
fn render_of_empty_history_is_the_base() {
    let mut history = History::new();
    let mut base = Canvas::with_size(3, 2);
    *base.get_cell_mut(2, 1) = tile(7);
    let painted = history.excute_on_canvas(&base);
    assert_eq!(painted.width, 3);
    assert_eq!(painted.height, 2);
    assert_eq!(painted.cells, base.cells);
    assert!(history.has_checkpoint());
    assert_eq!(history.last_command(), 0);
}

#[test]
fn undo_then_redo_restores_the_log() {
    let mut history = History::new();
    history.push(point(1, 0, 0));
    history.push(point(2, 1, 0));
    history.push(point(3, 2, 0));
    let base = Canvas::with_size(4, 4);
    let before = history.excute_on_canvas(&base);
    history.undo();
    assert_eq!(history.edit_len(), 2);
    assert_eq!(history.undo_len(), 1);
    history.redo();
    assert_eq!(history.edit_len(), 3);
    assert_eq!(history.undo_len(), 0);
    let after = history.excute_on_canvas(&base);
    assert_eq!(before.cells, after.cells);
}

#[test]
fn undo_and_redo_on_empty_stacks_do_nothing() {
    let mut history = History::new();
    history.undo();
    history.redo();
    assert_eq!(history.edit_len(), 0);
    assert_eq!(history.undo_len(), 0);
    history.push(point(1, 0, 0));
    history.redo();
    assert_eq!(history.edit_len(), 1);
}

#[test]
fn push_then_undo_leaves_render_unchanged() {
    let mut history = History::new();
    history.push(point(1, 0, 0));
    let base = Canvas::with_size(4, 4);
    let before = history.excute_on_canvas(&base);
    history.push(point(2, 3, 3));
    history.undo();
    let after = history.excute_on_canvas(&base);
    assert_eq!(before.cells, after.cells);
    assert_eq!(*after.get_cell(0, 0), tile(1));
    assert_eq!(*after.get_cell(3, 3), None);
}

#[test]
fn push_of_the_last_command_then_undo_removes_that_command() {
    let mut history = History::new();
    history.push(point(1, 0, 0));
    history.push(point(1, 0, 0));
    assert_eq!(history.edit_len(), 1);
    history.undo();
    assert_eq!(history.edit_len(), 0);
    let base = Canvas::with_size(2, 2);
    let after = history.excute_on_canvas(&base);
    assert_eq!(*after.get_cell(0, 0), None);
}

#[test]
fn pushing_the_same_point_twice_keeps_the_length() {
    let mut history = History::new();
    history.push(point(1, 2, 3));
    assert_eq!(history.edit_len(), 1);
    history.push(point(1, 2, 3));
    assert_eq!(history.edit_len(), 1);
    history.push(point(1, 2, 2));
    assert_eq!(history.edit_len(), 2);
    history.push(point(1, 2, 3));
    assert_eq!(history.edit_len(), 3);
}

#[test]
fn a_repeated_push_keeps_the_undone_commands() {
    let mut history = History::new();
    history.push(point(1, 0, 0));
    history.push(point(2, 0, 0));
    history.undo();
    assert_eq!(history.undo_len(), 1);
    history.push(point(1, 0, 0));
    assert_eq!(history.edit_len(), 1);
    assert_eq!(history.undo_len(), 1);
    history.push(point(3, 0, 0));
    assert_eq!(history.edit_len(), 2);
    assert_eq!(history.undo_len(), 0);
}

#[test]
fn clear_undo_forgets_only_the_undone_commands() {
    let mut history = History::new();
    history.push(point(1, 0, 0));
    history.push(point(2, 0, 0));
    history.undo();
    history.clear_undo();
    assert_eq!(history.edit_len(), 1);
    assert_eq!(history.undo_len(), 0);
    history.redo();
    assert_eq!(history.edit_len(), 1);
}

#[test]
fn clear_resets_everything() {
    let mut history = History::new();
    for command in distinct_points(17) {
        history.push(command);
    }
    history.undo();
    let base = Canvas::with_size(4, 4);
    let _ = history.excute_on_canvas(&base);
    assert_eq!(history.last_command(), 1);
    history.clear();
    assert_eq!(history.edit_len(), 0);
    assert_eq!(history.undo_len(), 0);
    assert_eq!(history.last_command(), 0);
    assert!(!history.has_checkpoint());
}

#[test]
fn replay_in_two_parts_equals_replay_in_one() {
    let commands = distinct_points(9);
    let base = Canvas::with_size(4, 4);
    let whole = excute_painting_command_to_canvas(&base, &commands);
    for k in 0..=commands.len() {
        let mut canvas = base.clone();
        excute_painting_command_to_canvas_mut(&mut canvas, &commands[0..k]);
        excute_painting_command_to_canvas_mut(&mut canvas, &commands[k..]);
        assert_eq!(canvas.cells, whole.cells);
        assert_eq!(canvas.width, whole.width);
        assert_eq!(canvas.height, whole.height);
    }
}

#[test]
fn replay_leaves_the_base_untouched() {
    let base = Canvas::with_size(2, 2);
    let painted = excute_painting_command_to_canvas(&base, &[point(5, 1, 1)]);
    assert_eq!(*painted.get_cell(1, 1), tile(5));
    assert_eq!(*base.get_cell(1, 1), None);
}

#[test]
fn fill_after_two_points_paints_both() {
    let a = tile(1);
    let b = tile(2);
    let base = Canvas::with_size(4, 4);
    let mut history = History::new();
    history.push(Command::Point { c: a, x: 0, y: 0 });
    history.push(Command::Point { c: a, x: 1, y: 0 });
    let grid = history.excute_on_canvas(&base);
    let mask = compute_contigeous_cell(&grid, 0, 0);
    history.push(Command::Fill(FillPos::new(b, 0, 0, mask)));
    let painted = history.excute_on_canvas(&base);
    for y in 0..4 {
        for x in 0..4 {
            let expected = if y == 0 && x < 2 { b } else { None };
            assert_eq!(*painted.get_cell(x, y), expected);
        }
    }
}

#[test]
fn checkpoint_follows_full_batches() {
    let base = Canvas::with_size(4, 4);
    let mut history = History::new();
    let commands = distinct_points(20);
    for command in commands.iter() {
        history.push(command.clone());
    }
    assert_eq!(history.last_command(), 0);
    let painted = history.excute_on_canvas(&base);
    assert_eq!(history.last_command(), 1);
    assert_eq!(painted.cells, excute_painting_command_to_canvas(&base, &commands).cells);

    history.undo();
    assert_eq!(history.edit_len(), 19);
    assert_eq!(history.last_command(), 1);
    assert!(history.has_checkpoint());
    let painted = history.excute_on_canvas(&base);
    assert_eq!(painted.cells, excute_painting_command_to_canvas(&base, &commands[0..19]).cells);
}

#[test]
fn undo_across_the_boundary_drops_the_checkpoint() {
    let base = Canvas::with_size(4, 4);
    let mut history = History::new();
    let commands = distinct_points(20);
    for command in commands.iter() {
        history.push(command.clone());
    }
    let _ = history.excute_on_canvas(&base);
    assert_eq!(history.last_command(), 1);
    for _ in 0..4 {
        history.undo();
    }
    assert_eq!(history.edit_len(), 16);
    assert_eq!(history.last_command(), 1);
    history.undo();
    assert_eq!(history.edit_len(), 15);
    assert_eq!(history.last_command(), 0);
    assert!(!history.has_checkpoint());
    let painted = history.excute_on_canvas(&base);
    assert_eq!(painted.cells, excute_painting_command_to_canvas(&base, &commands[0..15]).cells);
    assert_eq!(history.last_command(), 0);
    assert!(history.has_checkpoint());
}

#[test]
fn render_advances_over_several_batches() {
    let base = Canvas::with_size(4, 4);
    let mut history = History::new();
    let commands = distinct_points(50);
    for command in commands.iter().take(17) {
        history.push(command.clone());
    }
    let _ = history.excute_on_canvas(&base);
    assert_eq!(history.last_command(), 1);
    for command in commands.iter().skip(17) {
        history.push(command.clone());
    }
    let painted = history.excute_on_canvas(&base);
    assert_eq!(history.last_command(), 3);
    assert_eq!(painted.cells, excute_painting_command_to_canvas(&base, &commands).cells);
}

#[test]
fn render_with_a_resize_in_the_log() {
    let base = Canvas::with_size(2, 2);
    let mut history = History::new();
    history.push(point(1, 1, 1));
    history.push(Command::ChangeCanvasSize {
        width: 3,
        height: 3,
        start_x: 0,
        start_y: 0,
        to_x: 1,
        to_y: 1,
    });
    history.push(point(2, 0, 0));
    let painted = history.excute_on_canvas(&base);
    assert_eq!(painted.width, 3);
    assert_eq!(painted.height, 3);
    assert_eq!(*painted.get_cell(2, 2), tile(1));
    assert_eq!(*painted.get_cell(0, 0), tile(2));
    assert_eq!(*painted.get_cell(1, 1), None);
}

#[test]
fn rect_fill_takes_corners_in_either_order() {
    let base = Canvas::with_size(4, 3);
    let forward =
        excute_painting_command_to_canvas(&base, &[Command::RectFill { c: tile(1), x0: 1, y0: 0, x1: 2, y1: 1 }]);
    let backward =
        excute_painting_command_to_canvas(&base, &[Command::RectFill { c: tile(1), x0: 2, y0: 1, x1: 1, y1: 0 }]);
    assert_eq!(forward.cells, backward.cells);
    for y in 0..3 {
        for x in 0..4 {
            let expected = if (1..=2).contains(&x) && y <= 1 { tile(1) } else { None };
            assert_eq!(*forward.get_cell(x, y), expected);
        }
    }
}

#[test]
fn commands_compare_by_all_their_fields() {
    assert!(point(1, 0, 0) == point(1, 0, 0));
    assert!(point(1, 0, 0) != point(1, 1, 0));
    assert!(point(1, 0, 0) != point(2, 0, 0));
    assert!(point(1, 0, 0) != Command::RectFill { c: tile(1), x0: 0, y0: 0, x1: 0, y1: 0 });
    let one = Command::Fill(FillPos::new(tile(1), 0, 0, vec![vec![true, false]]));
    let same = Command::Fill(FillPos::new(tile(1), 0, 0, vec![vec![true, false]]));
    let other_mask = Command::Fill(FillPos::new(tile(1), 0, 0, vec![vec![true, true]]));
    let other_shape = Command::Fill(FillPos::new(tile(1), 0, 0, vec![vec![true], vec![false]]));
    assert!(one == same);
    assert!(one != other_mask);
    assert!(one != other_shape);
    assert!(one.clone() == one);
}

#[test]
fn default_command_is_an_empty_point_at_the_origin() {
    assert!(Command::default() == Command::Point { c: None, x: 0, y: 0 });
}
