use boon::stdlib::formula::FormulaBook;
use boon::stdlib::geometry::{controller_left_from_position, controller_top_from_position, eval_number_call, track_vertical_position};

fn book() -> FormulaBook {
    FormulaBook::new(12, 6, vec!["add".to_string(), "sum".to_string()])
}

#[test]
fn new_book_has_its_size_and_empty_cells() {
    let b = book();
    assert_eq!(b.rows(), 12);
    assert_eq!(b.columns(), 6);
    assert_eq!(b.text(3, 4), "");
    assert_eq!(b.value(3, 4), "");
}

#[test]
fn plain_text_reads_back_as_text_and_value() {
    let mut b = book();
    b.set_text(2, 3, "hello".to_string());
    assert_eq!(b.text(2, 3), "hello");
    assert_eq!(b.value(2, 3), "hello");
    assert_eq!(b.text(1, 1), "");
}

#[test]
fn add_formula_follows_its_inputs() {
    let mut b = book();
    b.set_text(1, 1, "2".to_string());
    b.set_text(2, 1, "3".to_string());
    b.set_text(1, 2, "=add(A1, A2)".to_string());
    assert_eq!(b.value(1, 2), "5");
    b.set_text(1, 1, "10".to_string());
    assert_eq!(b.value(1, 2), "13");
}

#[test]
fn sum_formula_adds_a_range_and_follows_edits() {
    let mut b = book();
    b.set_text(1, 1, "1".to_string());
    b.set_text(2, 1, "2".to_string());
    b.set_text(3, 1, "4".to_string());
    b.set_text(2, 2, "=sum(A1:A3)".to_string());
    assert_eq!(b.value(2, 2), "7");
    b.set_text(3, 1, "40".to_string());
    assert_eq!(b.value(2, 2), "43");
}

#[test]
fn formulas_that_read_each_other_are_cycles() {
    let mut b = book();
    b.set_text(1, 2, "=add(A1, A2)".to_string());
    b.set_text(1, 1, "=add(B1, A2)".to_string());
    assert_eq!(b.value(1, 1), "#CYCLE");
}

#[test]
fn unknown_or_disabled_functions_are_errors() {
    let mut b = book();
    b.set_text(1, 1, "=mean(A2)".to_string());
    assert_eq!(b.value(1, 1), "#ERR");
    let mut only_add = FormulaBook::new(3, 3, vec!["add".to_string()]);
    only_add.set_text(1, 2, "=sum(A1:A2)".to_string());
    assert_eq!(only_add.value(1, 2), "#ERR");
}

#[test]
fn non_numbers_count_as_zero_in_a_sum() {
    let mut b = book();
    b.set_text(1, 1, "x".to_string());
    b.set_text(2, 1, "5".to_string());
    b.set_text(3, 1, "=sum(A1:A2)".to_string());
    assert_eq!(b.value(3, 1), "5");
}

#[test]
fn owners_decode_to_row_and_column() {
    let b = book();
    assert_eq!(b.parse_owner("B3"), Some((3, 2)));
    assert_eq!(b.parse_owner("b1"), Some((1, 2)));
    assert_eq!(b.parse_owner("F12"), Some((12, 6)));
    assert_eq!(b.parse_owner("G1"), None);
    assert_eq!(b.parse_owner("A0"), None);
    assert_eq!(b.parse_owner("A13"), None);
    assert_eq!(b.parse_owner("1A"), None);
    assert_eq!(b.parse_owner(""), None);
}

fn args(name: &str) -> Result<i64, String> {
    match name {
        "left" => Ok(7),
        "right" => Ok(-3),
        "value" => Ok(50),
        "min" => Ok(0),
        "max" => Ok(20),
        "body_y" => Ok(40),
        "body_size" => Ok(10),
        "arena_height" => Ok(100),
        "height" => Ok(20),
        _ => Err(format!("missing argument `{name}`")),
    }
}

#[test]
fn number_calls_compute_min_max_and_clamp() {
    assert_eq!(eval_number_call("Number/min", args), Ok(-3));
    assert_eq!(eval_number_call("Number/max", args), Ok(7));
    assert_eq!(eval_number_call("Number/clamp", args), Ok(20));
}

#[test]
fn track_vertical_position_is_a_percentage_of_the_free_height() {
    assert_eq!(eval_number_call("Geometry/track_vertical_position", args), Ok(43));
    assert_eq!(track_vertical_position(40, 10, 100, 20), 43);
    assert_eq!(track_vertical_position(0, 10, 100, 100), 0);
    assert_eq!(track_vertical_position(500, 10, 100, 20), 100);
    assert_eq!(track_vertical_position(-50, 10, 100, 20), 0);
}

#[test]
fn controller_positions_scale_the_free_room() {
    assert_eq!(controller_top_from_position(50, 100, 20), 40);
    assert_eq!(controller_top_from_position(150, 100, 20), 80);
    assert_eq!(controller_top_from_position(-5, 100, 20), 0);
    assert_eq!(controller_left_from_position(25, 200, 40), 40);
}

#[test]
fn unknown_calls_are_refused_by_name() {
    assert_eq!(
        eval_number_call("Number/mean", args),
        Err("unsupported executable stdlib call `Number/mean`".to_string())
    );
}

#[test]
fn a_refused_argument_stops_the_call() {
    let err = eval_number_call("Geometry/peer_body_x", args).expect_err("missing arguments");
    assert!(err.starts_with("missing argument"), "{err}");
}
