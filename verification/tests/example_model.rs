use boon::backend::browser::doctor_html;
use boon::backend::window::arg_value;
use boon::example_model::{
    paddle_left_from_position, paddle_top_from_position, position_from_paddle_top,
    ranges_overlap, rects_overlap, GameModel, GridModel,
};
use boon::runtime::{dynamic_event, dynamic_state, event, state, SourceValue};

#[test]
fn grid_starts_empty_with_the_first_cell_selected() {
    let grid = GridModel::new(3, 4);
    assert_eq!(grid.text.len(), 12);
    assert_eq!(grid.value.len(), 12);
    assert_eq!(grid.deps.len(), 12);
    assert_eq!(grid.rev_deps.len(), 12);
    assert_eq!(grid.selected, (1, 1));
    assert!(grid.editing.is_none());
    assert!(grid.text.iter().all(|t| t.is_empty()));
}

#[test]
fn games_start_where_the_examples_expect() {
    let pong = GameModel::pong();
    assert_eq!((pong.ball_x, pong.ball_y, pong.ball_dx, pong.ball_dy), (84, 350, -12, 8));
    assert_eq!(pong.live_brick_indices(), "");
    let arkanoid = GameModel::arkanoid();
    assert_eq!(arkanoid.bricks.len(), 72);
    assert_eq!(arkanoid.lives, 3);
    let all = arkanoid.live_brick_indices();
    assert!(all.starts_with("0,1,2,"));
    assert!(all.ends_with(",70,71"));
}

#[test]
fn live_bricks_skip_broken_ones() {
    let mut game = GameModel::arkanoid();
    game.bricks = vec![false, true, false, true, true];
    assert_eq!(game.live_brick_indices(), "1,3,4");
    game.bricks = vec![false, false];
    assert_eq!(game.live_brick_indices(), "");
}

#[test]
fn paddle_positions_scale_over_the_free_span() {
    assert_eq!(paddle_top_from_position(50, 500, 100), 200);
    assert_eq!(paddle_top_from_position(150, 500, 100), 400);
    assert_eq!(paddle_top_from_position(-3, 500, 100), 0);
    assert_eq!(paddle_left_from_position(25, 900, 100), 200);
    assert_eq!(position_from_paddle_top(200, 500, 100), 50);
    assert_eq!(position_from_paddle_top(999, 500, 100), 100);
    assert_eq!(position_from_paddle_top(5, 100, 100), 100);
}

#[test]
fn overlaps_are_strict() {
    assert!(ranges_overlap(0, 10, 5, 15));
    assert!(!ranges_overlap(0, 10, 10, 20));
    assert!(rects_overlap(0, 0, 10, 10, 5, 5, 10, 10));
    assert!(!rects_overlap(0, 0, 10, 10, 10, 0, 10, 10));
}

#[test]
fn batches_hold_one_emission() {
    let b = event("store.sources.button.event.press", SourceValue::EmptyRecord);
    assert!(b.state_updates.is_empty());
    assert_eq!(b.events.len(), 1);
    assert_eq!(b.events[0].path, "store.sources.button.event.press");
    assert!(b.events[0].owner_id.is_none());
    let s = state("store.sources.input.text", SourceValue::Text("hi".to_string()));
    assert_eq!(s.state_updates.len(), 1);
    assert!(s.events.is_empty());
    let d = dynamic_event("todos[*].sources.remove.event.press", "7", 2, SourceValue::EmptyRecord);
    assert_eq!(d.events[0].owner_id.as_deref(), Some("7"));
    assert_eq!(d.events[0].owner_generation, Some(2));
    let ds = dynamic_state("cells[*].sources.editor.text", "A1", 0, SourceValue::Text("=1".to_string()));
    assert_eq!(ds.state_updates[0].owner_id.as_deref(), Some("A1"));
    assert!(ds.events.is_empty());
}

#[test]
fn arg_value_reads_the_argument_after_a_flag() {
    let args: Vec<String> = ["--title", "Boon", "--out", "frame.png", "--hold"]
        .iter()
        .map(|s| s.to_string())
        .collect();
    assert_eq!(arg_value(&args, "--title"), Some("Boon"));
    assert_eq!(arg_value(&args, "--out"), Some("frame.png"));
    assert_eq!(arg_value(&args, "--hold"), None);
    assert_eq!(arg_value(&args, "--missing"), None);
}

#[test]
fn doctor_page_reports_back_to_the_harness() {
    let page = doctor_html();
    assert!(page.starts_with("<!doctype html>"));
    assert!(page.contains("fetch(\"/page-result\""));
}
