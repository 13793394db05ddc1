//! The models behind the maintained example apps: a spreadsheet grid, the
//! pong and arkanoid games, and the arithmetic that places their paddles
//! and tests their contacts.
use vstd::prelude::*;
use crate::text::{dec_chars, push_decimal, string_of};

verus! {

/// A spreadsheet of `rows` by `columns` cells: the selected and the edited
/// cell, each cell's text and value, and the cells each one reads and is
/// read by.
#[derive(Debug)]
pub struct GridModel {
    pub rows: usize,
    pub columns: usize,
    pub selected: (usize, usize),
    pub editing: Option<(usize, usize)>,
    pub text: Vec<String>,
    pub value: Vec<String>,
    pub deps: Vec<Vec<usize>>,
    pub rev_deps: Vec<Vec<usize>>,
}

impl GridModel {
    /// An empty grid with the first cell selected and none edited.
    pub fn new(rows: usize, columns: usize) -> (r: GridModel)
        requires
            rows * columns <= usize::MAX,
        ensures
            r.rows == rows,
            r.columns == columns,
            r.selected == (1usize, 1usize),
            r.editing is None,
            r.text@.len() == rows * columns,
            r.value@.len() == rows * columns,
            r.deps@.len() == rows * columns,
            r.rev_deps@.len() == rows * columns,
            forall|i: int| 0 <= i < rows * columns ==> (#[trigger] r.text@[i])@.len() == 0,
            forall|i: int| 0 <= i < rows * columns ==> (#[trigger] r.value@[i])@.len() == 0,
            forall|i: int| 0 <= i < rows * columns ==> (#[trigger] r.deps@[i])@.len() == 0,
            forall|i: int| 0 <= i < rows * columns ==> (#[trigger] r.rev_deps@[i])@.len() == 0,
    {
        let len = rows * columns;
        let mut text: Vec<String> = Vec::new();
        let mut value: Vec<String> = Vec::new();
        let mut deps: Vec<Vec<usize>> = Vec::new();
        let mut rev_deps: Vec<Vec<usize>> = Vec::new();
        let mut i: usize = 0;
        while i < len
            invariant
                i <= len,
                text@.len() == i,
                value@.len() == i,
                deps@.len() == i,
                rev_deps@.len() == i,
                forall|k: int| 0 <= k < i ==> (#[trigger] text@[k])@.len() == 0,
                forall|k: int| 0 <= k < i ==> (#[trigger] value@[k])@.len() == 0,
                forall|k: int| 0 <= k < i ==> (#[trigger] deps@[k])@.len() == 0,
                forall|k: int| 0 <= k < i ==> (#[trigger] rev_deps@[k])@.len() == 0,
            decreases len - i,
        {
            text.push(String::new());
            value.push(String::new());
            deps.push(Vec::new());
            rev_deps.push(Vec::new());
            i += 1;
        }
        GridModel { rows, columns, selected: (1, 1), editing: None, text, value, deps, rev_deps }
    }
}

/// The state of a ball game: the ball and its velocity, the paddles, the
/// wall of bricks and which of them still stand, the score and the lives.
#[derive(Debug)]
pub struct GameModel {
    pub ball_x: i64,
    pub ball_y: i64,
    pub ball_dx: i64,
    pub ball_dy: i64,
    pub paddle_x: i64,
    pub paddle_y: i64,
    pub right_paddle_y: i64,
    pub bricks_rows: usize,
    pub bricks_cols: usize,
    pub bricks: Vec<bool>,
    pub score: i64,
    pub lives: i64,
}

impl GameModel {
    /// Pong at its start: the ball near the left paddle heading left and
    /// down, both paddles centred, no bricks, three lives.
    pub fn pong() -> (r: GameModel)
        ensures
            r.ball_x == 84 && r.ball_y == 350 && r.ball_dx == -12 && r.ball_dy == 8,
            r.paddle_x == 50 && r.paddle_y == 50 && r.right_paddle_y == 50,
            r.bricks_rows == 0 && r.bricks_cols == 0 && r.bricks@.len() == 0,
            r.score == 0 && r.lives == 3,
    {
        GameModel {
            ball_x: 84,
            ball_y: 350,
            ball_dx: -12,
            ball_dy: 8,
            paddle_x: 50,
            paddle_y: 50,
            right_paddle_y: 50,
            bricks_rows: 0,
            bricks_cols: 0,
            bricks: Vec::new(),
            score: 0,
            lives: 3,
        }
    }

    /// Arkanoid at its start: the ball heading right and up, the paddle
    /// centred, six rows of twelve standing bricks, three lives.
    pub fn arkanoid() -> (r: GameModel)
        ensures
            r.ball_x == 470 && r.ball_y == 205 && r.ball_dx == 10 && r.ball_dy == -12,
            r.paddle_x == 50 && r.paddle_y == 50 && r.right_paddle_y == 50,
            r.bricks_rows == 6 && r.bricks_cols == 12 && r.bricks@.len() == 72,
            forall|i: int| 0 <= i < 72 ==> #[trigger] r.bricks@[i],
            r.score == 0 && r.lives == 3,
    {
        let rows: usize = 6;
        let cols: usize = 12;
        let mut bricks: Vec<bool> = Vec::new();
        let mut i: usize = 0;
        while i < rows * cols
            invariant
                rows == 6 && cols == 12,
                i <= 72,
                bricks@.len() == i,
                forall|k: int| 0 <= k < i ==> #[trigger] bricks@[k],
            decreases 72 - i,
        {
            bricks.push(true);
            i += 1;
        }
        GameModel {
            ball_x: 470,
            ball_y: 205,
            ball_dx: 10,
            ball_dy: -12,
            paddle_x: 50,
            paddle_y: 50,
            right_paddle_y: 50,
            bricks_rows: rows,
            bricks_cols: cols,
            bricks,
            score: 0,
            lives: 3,
        }
    }

    /// The indices of the standing bricks, in decimal, joined by commas.
    pub fn live_brick_indices(&self) -> (r: String)
        ensures
            r@ == live_indices_text(self.bricks@, self.bricks@.len() as int),
    {
        let mut out: Vec<char> = Vec::new();
        let mut i: usize = 0;
        while i < self.bricks.len()
            invariant
                i <= self.bricks@.len(),
                out@ == live_indices_text(self.bricks@, i as int),
            decreases self.bricks.len() - i,
        {
            if self.bricks[i] {
                if out.len() > 0 {
                    out.push(',');
                }
                push_decimal(&mut out, i as u64);
                assert(out@ =~= live_indices_text(self.bricks@, i + 1));
            }
            i += 1;
        }
        string_of(&out)
    }
}

/// The standing bricks among the first `n`: their indices in decimal,
/// joined by commas.
pub open spec fn live_indices_text(bricks: Seq<bool>, n: int) -> Seq<char>
    decreases n,
{
    if n <= 0 || n > bricks.len() {
        Seq::empty()
    } else {
        let before = live_indices_text(bricks, n - 1);
        if !bricks[n - 1] {
            before
        } else if before.len() == 0 {
            dec_chars((n - 1) as nat)
        } else {
            before + seq![','] + dec_chars((n - 1) as nat)
        }
    }
}

/// `v` held to `[lo, hi]`.
pub open spec fn clamped(v: int, lo: int, hi: int) -> int {
    if v < lo { lo } else if v > hi { hi } else { v }
}

/// The offset of a paddle of size `paddle` that a position from 0 to 100
/// places along an arena of size `arena`.
pub open spec fn paddle_offset(position: int, arena: int, paddle: int) -> int {
    (arena - paddle) * clamped(position, 0, 100) / 100
}

proof fn lemma_paddle_offset_bounds(position: int, span: int)
    requires
        span >= 0,
    ensures
        0 <= span * clamped(position, 0, 100) / 100 <= span,
{
    let p = clamped(position, 0, 100);
    assert(0 <= span * p <= span * 100) by (nonlinear_arith)
        requires span >= 0, 0 <= p <= 100;
    assert(span * p / 100 <= span) by (nonlinear_arith)
        requires span * p <= span * 100, span >= 0;
}

fn clamp_i64(v: i64, lo: i64, hi: i64) -> (r: i64)
    requires
        lo <= hi,
    ensures
        r == clamped(v as int, lo as int, hi as int),
{
    if v < lo {
        lo
    } else if v > hi {
        hi
    } else {
        v
    }
}

/// The top of a paddle of height `paddle_h` that a position from 0 to 100
/// places in an arena of height `arena_h`. The paddle must fit the arena.
pub fn paddle_top_from_position(position: i64, arena_h: i64, paddle_h: i64) -> (r: i64)
    requires
        paddle_h <= arena_h,
        arena_h - paddle_h <= i64::MAX,
        (arena_h - paddle_h) * clamped(position as int, 0, 100) <= i64::MAX,
    ensures
        r == paddle_offset(position as int, arena_h as int, paddle_h as int),
        0 <= r <= arena_h - paddle_h,
{
    let span = arena_h - paddle_h;
    let p = clamp_i64(position, 0, 100);
    proof {
        lemma_paddle_offset_bounds(position as int, span as int);
    }
    clamp_i64(span * p / 100, 0, span)
}

/// The left edge of a paddle of width `paddle_w` that a position from 0 to
/// 100 places in an arena of width `arena_w`. The paddle must fit the
/// arena.
pub fn paddle_left_from_position(position: i64, arena_w: i64, paddle_w: i64) -> (r: i64)
    requires
        paddle_w <= arena_w,
        arena_w - paddle_w <= i64::MAX,
        (arena_w - paddle_w) * clamped(position as int, 0, 100) <= i64::MAX,
    ensures
        r == paddle_offset(position as int, arena_w as int, paddle_w as int),
        0 <= r <= arena_w - paddle_w,
{
    let span = arena_w - paddle_w;
    let p = clamp_i64(position, 0, 100);
    proof {
        lemma_paddle_offset_bounds(position as int, span as int);
    }
    clamp_i64(span * p / 100, 0, span)
}

/// The span that a paddle travels over: the arena less the paddle, and at
/// least one.
pub open spec fn travel_span(arena: int, paddle: int) -> int {
    if arena - paddle > 1 { arena - paddle } else { 1 }
}

/// The position from 0 to 100 that a paddle top stands for.
pub open spec fn position_of_top(top: int, arena: int, paddle: int) -> int {
    let span = travel_span(arena, paddle);
    clamped(clamped(top, 0, span) * 100 / span, 0, 100)
}

/// The position from 0 to 100 that the top of a paddle stands for.
pub fn position_from_paddle_top(top: i64, arena_h: i64, paddle_h: i64) -> (r: i64)
    requires
        i64::MIN <= arena_h - paddle_h <= i64::MAX,
        clamped(top as int, 0, travel_span(arena_h as int, paddle_h as int)) * 100 <= i64::MAX,
    ensures
        r == position_of_top(top as int, arena_h as int, paddle_h as int),
        0 <= r <= 100,
{
    let d = arena_h - paddle_h;
    let span: i64 = if d > 1 { d } else { 1 };
    let t = clamp_i64(top, 0, span);
    assert(t * 100 >= 0) by (nonlinear_arith)
        requires 0 <= t;
    clamp_i64(t * 100 / span, 0, 100)
}

/// Whether the half-open ranges `[a0, a1)` and `[b0, b1)` overlap.
pub fn ranges_overlap(a0: i64, a1: i64, b0: i64, b1: i64) -> (r: bool)
    ensures
        r == (a0 < b1 && b0 < a1),
{
    a0 < b1 && b0 < a1
}

/// Whether two rectangles, each given by its corner and size, overlap.
pub open spec fn rects_meet(ax: int, ay: int, aw: int, ah: int, bx: int, by: int, bw: int, bh: int) -> bool {
    ax < bx + bw && bx < ax + aw && ay < by + bh && by < ay + ah
}

/// Whether two rectangles, each given by its corner and size, overlap.
/// Each edge sum that the test reaches must fit.
pub fn rects_overlap(ax: i64, ay: i64, aw: i64, ah: i64, bx: i64, by: i64, bw: i64, bh: i64) -> (r: bool)
    requires
        i64::MIN <= bx + bw <= i64::MAX,
        ax < bx + bw ==> i64::MIN <= ax + aw <= i64::MAX,
        ax < bx + bw && bx < ax + aw ==> i64::MIN <= by + bh <= i64::MAX,
        ax < bx + bw && bx < ax + aw && ay < by + bh ==> i64::MIN <= ay + ah <= i64::MAX,
    ensures
        r == rects_meet(ax as int, ay as int, aw as int, ah as int, bx as int, by as int, bw as int, bh as int),
{
    ax < bx + bw && bx < ax + aw && ay < by + bh && by < ay + ah
}

} // verus!
