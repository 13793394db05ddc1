//! The numeric and geometry calls of the standard library: `Number/min`,
//! `Number/max`, `Number/clamp`, and the body-motion steps that the arena
//! examples use.
use vstd::prelude::*;
use crate::text::{push_str, str_eq, string_of};

verus! {

/// The largest magnitude of an argument of a stdlib call; inside it every
/// step below is computed without overflow.
pub const VALUE_LIMIT: i64 = 1048576;

pub open spec fn within_limit(v: int) -> bool {
    -VALUE_LIMIT <= v <= VALUE_LIMIT
}

pub open spec fn clamp(v: int, lo: int, hi: int) -> int {
    if v < lo {
        lo
    } else if v > hi {
        hi
    } else {
        v
    }
}

pub open spec fn max(a: int, b: int) -> int {
    if a >= b {
        a
    } else {
        b
    }
}

pub open spec fn min(a: int, b: int) -> int {
    if a <= b {
        a
    } else {
        b
    }
}

pub open spec fn abs(a: int) -> int {
    if a < 0 {
        -a
    } else {
        a
    }
}

/// Division rounding toward zero, as `i64` division does.
pub open spec fn div_trunc(a: int, b: int) -> int {
    if a >= 0 {
        a / b
    } else {
        -((-a) / b)
    }
}

/// The half-open ranges `[a_start, a_end)` and `[b_start, b_end)` overlap.
pub open spec fn ranges_meet(a_start: int, a_end: int, b_start: int, b_end: int) -> bool {
    a_start < b_end && b_start < a_end
}

/// Two rectangles, each given by corner and size, overlap.
pub open spec fn rectangles_meet(
    ax: int,
    ay: int,
    aw: int,
    ah: int,
    bx: int,
    by: int,
    bw: int,
    bh: int,
) -> bool {
    ax < bx + bw && ax + aw > bx && ay < by + bh && ay + ah > by
}

/// Where a controller of extent `size` stands along an arena of extent
/// `arena`, for a position given in percent.
pub open spec fn controller_offset(position: int, arena: int, size: int) -> int {
    clamp(max(arena - size, 0) * clamp(position, 0, 100) / 100, 0, arena - size)
}

/// The percentage position at which a controller of height `control_h`
/// follows a body.
pub open spec fn track_vertical(body_y: int, body_size: int, arena_h: int, control_h: int) -> int {
    if arena_h <= control_h {
        0
    } else {
        let top = body_y + div_trunc(body_size, 2) - div_trunc(control_h, 2);
        clamp(clamp(top, 0, arena_h - control_h) * 100 / (arena_h - control_h), 0, 100)
    }
}

fn clamp_i64(v: i64, lo: i64, hi: i64) -> (r: i64)
    requires
        lo <= hi,
    ensures
        r == clamp(v as int, lo as int, hi as int),
{
    if v < lo {
        lo
    } else if v > hi {
        hi
    } else {
        v
    }
}

fn max_i64(a: i64, b: i64) -> (r: i64)
    ensures
        r == max(a as int, b as int),
{
    if a >= b {
        a
    } else {
        b
    }
}

fn min_i64(a: i64, b: i64) -> (r: i64)
    ensures
        r == min(a as int, b as int),
{
    if a <= b {
        a
    } else {
        b
    }
}

fn abs_i64(a: i64) -> (r: i64)
    requires
        a > i64::MIN,
    ensures
        r == abs(a as int),
{
    if a < 0 {
        -a
    } else {
        a
    }
}

/// Where a controller of extent `size` stands along an arena of extent
/// `arena`, for a position given in percent.
pub fn controller_top_from_position(position: i64, arena_h: i64, controller_h: i64) -> (r: i64)
    requires
        within_limit(position as int),
        within_limit(arena_h as int),
        within_limit(controller_h as int),
        controller_h <= arena_h,
    ensures
        r == controller_offset(position as int, arena_h as int, controller_h as int),
        0 <= r <= arena_h - controller_h,
{
    let room = max_i64(arena_h - controller_h, 0);
    let pct = clamp_i64(position, 0, 100);
    assert(0 <= room * pct <= 2 * VALUE_LIMIT * 100) by (nonlinear_arith)
        requires
            0 <= room <= 2 * VALUE_LIMIT,
            0 <= pct <= 100,
    ;
    clamp_i64(room * pct / 100, 0, arena_h - controller_h)
}

/// The same placement along the horizontal axis.
pub fn controller_left_from_position(position: i64, arena_w: i64, controller_w: i64) -> (r: i64)
    requires
        within_limit(position as int),
        within_limit(arena_w as int),
        within_limit(controller_w as int),
        controller_w <= arena_w,
    ensures
        r == controller_offset(position as int, arena_w as int, controller_w as int),
        0 <= r <= arena_w - controller_w,
{
    controller_top_from_position(position, arena_w, controller_w)
}

/// The percentage position at which a controller of height `control_h`
/// follows a body of size `body_size` at `body_y`.
pub fn track_vertical_position(body_y: i64, body_size: i64, arena_h: i64, control_h: i64) -> (r: i64)
    requires
        within_limit(body_y as int),
        within_limit(body_size as int),
        within_limit(arena_h as int),
        within_limit(control_h as int),
    ensures
        r == track_vertical(body_y as int, body_size as int, arena_h as int, control_h as int),
        0 <= r <= 100,
{
    if arena_h <= control_h {
        0
    } else {
        let top = body_y + body_size / 2 - control_h / 2;
        let span = arena_h - control_h;
        let t = clamp_i64(top, 0, span);
        assert(0 <= t * 100 <= 2 * VALUE_LIMIT * 100) by (nonlinear_arith)
            requires
                0 <= t <= 2 * VALUE_LIMIT,
        ;
        clamp_i64(t * 100 / span, 0, 100)
    }
}

/// What a peer step reads: the arena, the two controllers, and the body
/// with its position already advanced by one step of its velocity.
#[derive(Clone, Copy, Debug, PartialEq, Eq)]
pub struct PeerInputs {
    pub arena_width: i64,
    pub arena_height: i64,
    pub body_size: i64,
    pub control_width: i64,
    pub control_height: i64,
    pub left_x: i64,
    pub right_x: i64,
    pub control_y: i64,
    pub tracked_control_y: i64,
    pub x: i64,
    pub y: i64,
    pub dx: i64,
    pub dy: i64,
    pub contact_value: i64,
    pub resets_remaining: i64,
}

#[derive(Clone, Copy, Debug, PartialEq, Eq)]
pub enum PeerQuantity {
    X,
    Y,
    Dx,
    Dy,
    ContactValue,
    ResetsRemaining,
}

/// The inputs of a peer step are inside the limits it is computed in: every
/// argument within the limit (the advanced position within twice it), and
/// the controllers no taller than the arena.
pub open spec fn peer_inputs_ok(p: PeerInputs) -> bool {
    &&& within_limit(p.arena_width as int)
    &&& within_limit(p.arena_height as int)
    &&& within_limit(p.body_size as int)
    &&& within_limit(p.control_width as int)
    &&& within_limit(p.control_height as int)
    &&& within_limit(p.left_x as int)
    &&& within_limit(p.right_x as int)
    &&& within_limit(p.control_y as int)
    &&& within_limit(p.tracked_control_y as int)
    &&& -2 * VALUE_LIMIT <= p.x <= 2 * VALUE_LIMIT
    &&& -2 * VALUE_LIMIT <= p.y <= 2 * VALUE_LIMIT
    &&& within_limit(p.dx as int)
    &&& within_limit(p.dy as int)
    &&& within_limit(p.contact_value as int)
    &&& within_limit(p.resets_remaining as int)
    &&& p.control_height <= p.arena_height
}

/// The new vertical speed after a body of size `bs` at `y` meets a
/// controller whose top is at `c_top`: steered by where it met the
/// controller, within 18 either way.
pub open spec fn deflect(d: int, y: int, bs: int, c_top: int, c_size: int) -> int {
    clamp(d + div_trunc((y + div_trunc(bs, 2)) - (c_top + div_trunc(c_size, 2)), 18), -18, 18)
}

/// One step of a body between two controllers: it bounces off the top and
/// bottom walls, off the left controller while moving left and off the
/// right one while moving right (each contact counts), and it is put back
/// in the middle, one reset fewer, when it leaves the arena sideways.
/// The result is `(x, y, dx, dy, contact_value, resets_remaining)`.
pub open spec fn peer_step(p: PeerInputs) -> (int, int, int, int, int, int) {
    let bs = p.body_size as int;
    let ch = p.control_height as int;
    let cw = p.control_width as int;
    let y1: int = if p.y <= 0 {
        0
    } else if p.y + bs >= p.arena_height {
        p.arena_height - bs
    } else {
        p.y as int
    };
    let dy1: int = if p.y <= 0 {
        abs(p.dy as int)
    } else if p.y + bs >= p.arena_height {
        -abs(p.dy as int)
    } else {
        p.dy as int
    };
    let left_y = controller_offset(p.control_y as int, p.arena_height as int, ch);
    let right_y = controller_offset(p.tracked_control_y as int, p.arena_height as int, ch);
    let left_hit = p.dx < 0 && p.x <= p.left_x + cw && p.x + bs >= p.left_x && ranges_meet(
        y1,
        y1 + bs,
        left_y,
        left_y + ch,
    );
    let x2: int = if left_hit { p.left_x + cw } else { p.x as int };
    let dx2: int = if left_hit { abs(p.dx as int) } else { p.dx as int };
    let dy2: int = if left_hit { deflect(dy1, y1, bs, left_y, ch) } else { dy1 };
    let c2: int = if left_hit { p.contact_value + 1 } else { p.contact_value as int };
    let right_hit = dx2 > 0 && x2 + bs >= p.right_x && x2 <= p.right_x + cw && ranges_meet(
        y1,
        y1 + bs,
        right_y,
        right_y + ch,
    );
    let x3: int = if right_hit { p.right_x - bs } else { x2 };
    let dx3: int = if right_hit { -abs(dx2) } else { dx2 };
    let dy3: int = if right_hit { deflect(dy2, y1, bs, right_y, ch) } else { dy2 };
    let c3: int = if right_hit { c2 + 1 } else { c2 };
    if x3 < -bs || x3 > p.arena_width + bs {
        (
            div_trunc(p.arena_width as int, 2),
            div_trunc(p.arena_height as int, 2),
            if dx3 < 0 { 12 } else { -12 },
            8,
            c3,
            max(p.resets_remaining - 1, 0),
        )
    } else {
        (x3, y1, dx3, dy3, c3, p.resets_remaining as int)
    }
}

pub open spec fn peer_value(p: PeerInputs, q: PeerQuantity) -> int {
    let s = peer_step(p);
    match q {
        PeerQuantity::X => s.0,
        PeerQuantity::Y => s.1,
        PeerQuantity::Dx => s.2,
        PeerQuantity::Dy => s.3,
        PeerQuantity::ContactValue => s.4,
        PeerQuantity::ResetsRemaining => s.5,
    }
}

/// A body that reaches the bottom wall, with no controller within reach
/// sideways and still inside the arena, is put on the wall and leaves the
/// step moving up at its old speed; one that reaches the top wall is put
/// on it and leaves moving down. Its sideways motion is untouched.
pub proof fn law_peer_wall_bounce(p: PeerInputs)
    requires
        !(p.dx < 0 && p.x <= p.left_x + p.control_width && p.x + p.body_size >= p.left_x),
        !(p.dx > 0 && p.x + p.body_size >= p.right_x && p.x <= p.right_x + p.control_width),
        -p.body_size <= p.x <= p.arena_width + p.body_size,
    ensures
        p.y > 0 && p.y + p.body_size >= p.arena_height ==> {
            &&& peer_value(p, PeerQuantity::Dy) <= 0
            &&& peer_value(p, PeerQuantity::Dy) == -abs(p.dy as int)
            &&& peer_value(p, PeerQuantity::Y) == p.arena_height - p.body_size
        },
        p.y <= 0 ==> {
            &&& peer_value(p, PeerQuantity::Dy) >= 0
            &&& peer_value(p, PeerQuantity::Dy) == abs(p.dy as int)
            &&& peer_value(p, PeerQuantity::Y) == 0
        },
        peer_value(p, PeerQuantity::X) == p.x,
        peer_value(p, PeerQuantity::Dx) == p.dx,
        peer_value(p, PeerQuantity::ContactValue) == p.contact_value,
        peer_value(p, PeerQuantity::ResetsRemaining) == p.resets_remaining,
{
}

fn deflect_i64(d: i64, y: i64, bs: i64, c_top: i64, c_size: i64) -> (r: i64)
    requires
        -4 * VALUE_LIMIT <= d <= 4 * VALUE_LIMIT,
        -4 * VALUE_LIMIT <= y <= 4 * VALUE_LIMIT,
        within_limit(bs as int),
        -4 * VALUE_LIMIT <= c_top <= 4 * VALUE_LIMIT,
        within_limit(c_size as int),
    ensures
        r == deflect(d as int, y as int, bs as int, c_top as int, c_size as int),
        -18 <= r <= 18,
{
    clamp_i64(d + ((y + bs / 2) - (c_top + c_size / 2)) / 18, -18, 18)
}

/// One step of a body between two controllers, as `peer_step` describes
/// it; returns the quantity asked for.
pub fn peer_body_next(p: &PeerInputs, quantity: PeerQuantity) -> (r: i64)
    requires
        peer_inputs_ok(*p),
    ensures
        r == peer_value(*p, quantity),
{
    let bs = p.body_size;
    let ch = p.control_height;
    let cw = p.control_width;
    let mut x = p.x;
    let mut y = p.y;
    let mut dx = p.dx;
    let mut dy = p.dy;
    let mut contact_value = p.contact_value;
    let mut resets_remaining = p.resets_remaining;
    if y <= 0 {
        y = 0;
        dy = abs_i64(dy);
    } else if y + bs >= p.arena_height {
        y = p.arena_height - bs;
        dy = -abs_i64(dy);
    }
    let left_y = controller_top_from_position(p.control_y, p.arena_height, ch);
    let right_y = controller_top_from_position(p.tracked_control_y, p.arena_height, ch);
    if dx < 0 && x <= p.left_x + cw && x + bs >= p.left_x && y < left_y + ch && left_y < y + bs {
        x = p.left_x + cw;
        dx = abs_i64(dx);
        dy = deflect_i64(dy, y, bs, left_y, ch);
        contact_value = contact_value + 1;
    }
    if dx > 0 && x + bs >= p.right_x && x <= p.right_x + cw && y < right_y + ch && right_y < y + bs {
        x = p.right_x - bs;
        dx = -abs_i64(dx);
        dy = deflect_i64(dy, y, bs, right_y, ch);
        contact_value = contact_value + 1;
    }
    if x < -bs || x > p.arena_width + bs {
        x = p.arena_width / 2;
        y = p.arena_height / 2;
        dx = if dx < 0 { 12 } else { -12 };
        dy = 8;
        resets_remaining = max_i64(resets_remaining - 1, 0);
    }
    match quantity {
        PeerQuantity::X => x,
        PeerQuantity::Y => y,
        PeerQuantity::Dx => dx,
        PeerQuantity::Dy => dy,
        PeerQuantity::ContactValue => contact_value,
        PeerQuantity::ResetsRemaining => resets_remaining,
    }
}

/// What a contact step reads: the arena, the controller, the field of
/// cells, and the body with its position already advanced by one step of
/// its velocity. `field_rows`, `field_columns` and `live_count` are taken
/// as given; the step bounds them itself.
#[derive(Clone, Copy, Debug, PartialEq, Eq)]
pub struct ContactInputs {
    pub arena_width: i64,
    pub arena_height: i64,
    pub body_size: i64,
    pub control_width: i64,
    pub control_height: i64,
    pub control_y: i64,
    pub field_margin: i64,
    pub field_top: i64,
    pub field_gap: i64,
    pub field_height: i64,
    pub field_rows: i64,
    pub field_columns: i64,
    pub value_per_contact: i64,
    pub x: i64,
    pub y: i64,
    pub dx: i64,
    pub dy: i64,
    pub live_count: i64,
    pub contact_value: i64,
    pub resets_remaining: i64,
    pub control_x: i64,
}

#[derive(Clone, Copy, Debug, PartialEq, Eq)]
pub enum ContactQuantity {
    X,
    Y,
    Dx,
    Dy,
    LiveCount,
    ContactValue,
    ResetsRemaining,
}

/// The inputs of a contact step are inside the limits it is computed in.
pub open spec fn contact_inputs_ok(c: ContactInputs) -> bool {
    &&& within_limit(c.arena_width as int)
    &&& within_limit(c.arena_height as int)
    &&& within_limit(c.body_size as int)
    &&& within_limit(c.control_width as int)
    &&& within_limit(c.control_height as int)
    &&& within_limit(c.control_y as int)
    &&& within_limit(c.field_margin as int)
    &&& within_limit(c.field_top as int)
    &&& within_limit(c.field_gap as int)
    &&& within_limit(c.field_height as int)
    &&& within_limit(c.field_rows as int)
    &&& within_limit(c.field_columns as int)
    &&& within_limit(c.value_per_contact as int)
    &&& -2 * VALUE_LIMIT <= c.x <= 2 * VALUE_LIMIT
    &&& -2 * VALUE_LIMIT <= c.y <= 2 * VALUE_LIMIT
    &&& within_limit(c.dx as int)
    &&& within_limit(c.dy as int)
    &&& within_limit(c.live_count as int)
    &&& within_limit(c.contact_value as int)
    &&& within_limit(c.resets_remaining as int)
    &&& within_limit(c.control_x as int)
    &&& c.control_width <= c.arena_width
}

pub open spec fn field_rows(c: ContactInputs) -> int {
    max(c.field_rows as int, 0)
}

pub open spec fn field_columns(c: ContactInputs) -> int {
    max(c.field_columns as int, 1)
}

/// The width of one cell of the field: the arena less its margins and the
/// gaps, shared among the columns.
pub open spec fn cell_width(c: ContactInputs) -> int {
    div_trunc(c.arena_width - c.field_margin * 2 - c.field_gap * (field_columns(c) - 1), field_columns(c))
}

/// The body, after bouncing off the side walls and the top wall:
/// `(x, y, dx, dy)`.
pub open spec fn contact_bounce(c: ContactInputs) -> (int, int, int, int) {
    let bs = c.body_size as int;
    let x1: int = if c.x <= 0 {
        0
    } else if c.x + bs >= c.arena_width {
        c.arena_width - bs
    } else {
        c.x as int
    };
    let dx1: int = if c.x <= 0 {
        abs(c.dx as int)
    } else if c.x + bs >= c.arena_width {
        -abs(c.dx as int)
    } else {
        c.dx as int
    };
    let y1: int = if c.y <= 0 { 0 } else { c.y as int };
    let dy1: int = if c.y <= 0 { abs(c.dy as int) } else { c.dy as int };
    (x1, y1, dx1, dy1)
}

/// The cell at `row`, `col` is still live and the body at `x`, `y` meets it.
pub open spec fn cell_hit(c: ContactInputs, x: int, y: int, live: int, row: int, col: int) -> bool {
    let bs = c.body_size as int;
    let w = cell_width(c);
    &&& row * field_columns(c) + col < live
    &&& rectangles_meet(
        x,
        y,
        bs,
        bs,
        c.field_margin + col * (w + c.field_gap),
        c.field_top + row * (c.field_height + c.field_gap),
        w,
        c.field_height as int,
    )
}

/// Some live cell of the field meets the body.
pub open spec fn field_hit(c: ContactInputs, x: int, y: int, live: int) -> bool {
    exists|row: int, col: int|
        0 <= row < field_rows(c) && 0 <= col < field_columns(c) && #[trigger] cell_hit(c, x, y, live, row, col)
}

/// The state of a contact step before the reset check:
/// `(x, y, dx, dy, live_count, contact_value, controller_left)`. A body
/// moving up that meets a live cell takes that cell away, turns down and
/// scores; a body moving down onto the controller turns up, steered by
/// where it met it.
pub open spec fn contact_advance(c: ContactInputs) -> (int, int, int, int, int, int, int) {
    let bs = c.body_size as int;
    let b = contact_bounce(c);
    let live0 = clamp(c.live_count as int, 0, field_rows(c) * field_columns(c));
    let hit = b.3 < 0 && live0 > 0 && field_hit(c, b.0, b.1, live0);
    let live1: int = if hit { live0 - 1 } else { live0 };
    let dy2: int = if hit { abs(b.3) } else { b.3 };
    let score: int = if hit { c.contact_value + c.value_per_contact } else { c.contact_value as int };
    let cx = controller_offset(c.control_x as int, c.arena_width as int, c.control_width as int);
    let on_controller = dy2 > 0 && rectangles_meet(
        b.0,
        b.1,
        bs,
        bs,
        cx,
        c.control_y as int,
        c.control_width as int,
        c.control_height as int,
    );
    let y3: int = if on_controller { c.control_y - bs } else { b.1 };
    let dy3: int = if on_controller { -abs(dy2) } else { dy2 };
    let dx3: int = if on_controller {
        deflect(b.2, b.0, bs, cx, c.control_width as int)
    } else {
        b.2
    };
    (b.0, y3, dx3, dy3, live1, score, cx)
}

/// The body fell out of the arena and is served again.
pub open spec fn contact_needs_reset(c: ContactInputs) -> bool {
    contact_advance(c).1 > c.arena_height
}

/// One step of a body in a field of cells; a body that fell out is served
/// again above the controller with the initial speed `(initial_dx,
/// initial_dy)` and one reset fewer, and an emptied field is refilled.
/// The result is `(x, y, dx, dy, live_count, contact_value,
/// resets_remaining)`.
pub open spec fn contact_step(c: ContactInputs, initial_dx: int, initial_dy: int) -> (int, int, int, int, int, int, int) {
    let a = contact_advance(c);
    let bs = c.body_size as int;
    let reset = contact_needs_reset(c);
    let x: int = if reset { a.6 + div_trunc(c.control_width as int, 2) - div_trunc(bs, 2) } else { a.0 };
    let y: int = if reset { c.control_y - bs - 2 } else { a.1 };
    let dx: int = if reset { initial_dx } else { a.2 };
    let dy: int = if reset { initial_dy } else { a.3 };
    let resets: int = if reset { max(c.resets_remaining - 1, 0) } else { c.resets_remaining as int };
    let live: int = if a.4 == 0 { field_rows(c) * field_columns(c) } else { a.4 };
    (x, y, dx, dy, live, a.5, resets)
}

pub open spec fn contact_value(c: ContactInputs, initial_dx: int, initial_dy: int, q: ContactQuantity) -> int {
    let s = contact_step(c, initial_dx, initial_dy);
    match q {
        ContactQuantity::X => s.0,
        ContactQuantity::Y => s.1,
        ContactQuantity::Dx => s.2,
        ContactQuantity::Dy => s.3,
        ContactQuantity::LiveCount => s.4,
        ContactQuantity::ContactValue => s.5,
        ContactQuantity::ResetsRemaining => s.6,
    }
}

/// The state of a contact step before the reset check, as
/// `contact_advance` describes it.
#[derive(Clone, Copy, Debug, PartialEq, Eq)]
pub struct ContactProgress {
    pub x: i64,
    pub y: i64,
    pub dx: i64,
    pub dy: i64,
    pub live_count: i64,
    pub contact_value: i64,
    pub controller_left: i64,
}

proof fn lemma_mul_within(a: int, a_max: int, b: int, b_max: int)
    requires
        0 <= a <= a_max,
        -b_max <= b <= b_max,
    ensures
        -a_max * b_max <= a * b <= a_max * b_max,
{
    assert(-a_max * b_max <= a * b <= a_max * b_max) by (nonlinear_arith)
        requires
            0 <= a <= a_max,
            -b_max <= b <= b_max,
    ;
}

/// Whether some live cell meets the body at `x`, `y`.
fn scan_field(c: &ContactInputs, x: i64, y: i64, live: i64, rows: i64, columns: i64, cell_w: i64) -> (r: bool)
    requires
        contact_inputs_ok(*c),
        -4 * VALUE_LIMIT <= x <= 4 * VALUE_LIMIT,
        -4 * VALUE_LIMIT <= y <= 4 * VALUE_LIMIT,
        rows == field_rows(*c),
        columns == field_columns(*c),
        cell_w == cell_width(*c),
        -4 * VALUE_LIMIT * VALUE_LIMIT <= cell_w <= 4 * VALUE_LIMIT * VALUE_LIMIT,
        0 <= live <= rows * columns,
    ensures
        r == field_hit(*c, x as int, y as int, live as int),
{
    let bs = c.body_size;
    let mut row: i64 = 0;
    while row < rows
        invariant
            contact_inputs_ok(*c),
            bs == c.body_size,
            -4 * VALUE_LIMIT <= x <= 4 * VALUE_LIMIT,
            -4 * VALUE_LIMIT <= y <= 4 * VALUE_LIMIT,
            rows == field_rows(*c),
            columns == field_columns(*c),
            cell_w == cell_width(*c),
            -4 * VALUE_LIMIT * VALUE_LIMIT <= cell_w <= 4 * VALUE_LIMIT * VALUE_LIMIT,
            0 <= live <= rows * columns,
            0 <= row <= rows,
            forall|r0: int, c0: int|
                0 <= r0 < row && 0 <= c0 < columns ==> !#[trigger] cell_hit(*c, x as int, y as int, live as int, r0, c0),
        decreases rows - row,
    {
        let mut col: i64 = 0;
        while col < columns
            invariant
                contact_inputs_ok(*c),
                bs == c.body_size,
                -4 * VALUE_LIMIT <= x <= 4 * VALUE_LIMIT,
                -4 * VALUE_LIMIT <= y <= 4 * VALUE_LIMIT,
                rows == field_rows(*c),
                columns == field_columns(*c),
                cell_w == cell_width(*c),
                -4 * VALUE_LIMIT * VALUE_LIMIT <= cell_w <= 4 * VALUE_LIMIT * VALUE_LIMIT,
                0 <= live <= rows * columns,
                0 <= row < rows,
                0 <= col <= columns,
                forall|r0: int, c0: int|
                    0 <= r0 < row && 0 <= c0 < columns ==> !#[trigger] cell_hit(*c, x as int, y as int, live as int, r0, c0),
                forall|c0: int| 0 <= c0 < col ==> !#[trigger] cell_hit(*c, x as int, y as int, live as int, row as int, c0),
            decreases columns - col,
        {
            assert(0 <= row * columns + col <= VALUE_LIMIT * VALUE_LIMIT + VALUE_LIMIT) by (nonlinear_arith)
                requires
                    0 <= row < columns * 0 + VALUE_LIMIT + 1,
                    0 <= row,
                    0 <= col < columns <= VALUE_LIMIT,
                    row <= VALUE_LIMIT,
            ;
            let index = row * columns + col;
            proof {
                lemma_mul_within(col as int, VALUE_LIMIT as int, cell_w + c.field_gap, 4 * VALUE_LIMIT * VALUE_LIMIT + VALUE_LIMIT);
            }
            assert(-2 * VALUE_LIMIT * VALUE_LIMIT <= row * (c.field_height + c.field_gap) <= 2 * VALUE_LIMIT * VALUE_LIMIT) by (nonlinear_arith)
                requires
                    0 <= row <= VALUE_LIMIT,
                    -2 * VALUE_LIMIT <= c.field_height + c.field_gap <= 2 * VALUE_LIMIT,
            ;
            if index < live {
                let cell_x = c.field_margin + col * (cell_w + c.field_gap);
                let cell_y = c.field_top + row * (c.field_height + c.field_gap);
                if x < cell_x + cell_w && x + bs > cell_x && y < cell_y + c.field_height && y + bs > cell_y {
                    assert(cell_hit(*c, x as int, y as int, live as int, row as int, col as int));
                    return true;
                }
            }
            col = col + 1;
        }
        row = row + 1;
    }
    false
}

/// One step of a body in a field of cells, up to the reset check, as
/// `contact_advance` describes it.
pub fn contact_body_advance(c: &ContactInputs) -> (r: ContactProgress)
    requires
        contact_inputs_ok(*c),
    ensures
        (r.x as int, r.y as int, r.dx as int, r.dy as int, r.live_count as int, r.contact_value as int,
            r.controller_left as int) == contact_advance(*c),
        0 <= r.controller_left <= 2 * VALUE_LIMIT,
        -4 * VALUE_LIMIT <= r.x <= 4 * VALUE_LIMIT,
        -4 * VALUE_LIMIT <= r.y <= 4 * VALUE_LIMIT,
        -4 * VALUE_LIMIT <= r.contact_value <= 4 * VALUE_LIMIT,
        0 <= r.live_count <= field_rows(*c) * field_columns(*c),
{
    let bs = c.body_size;
    let rows = max_i64(c.field_rows, 0);
    let columns = max_i64(c.field_columns, 1);
    assert(0 <= rows * columns <= VALUE_LIMIT * VALUE_LIMIT) by (nonlinear_arith)
        requires
            0 <= rows <= VALUE_LIMIT,
            1 <= columns <= VALUE_LIMIT,
    ;
    let mut x = c.x;
    let mut y = c.y;
    let mut dx = c.dx;
    let mut dy = c.dy;
    let mut live = clamp_i64(c.live_count, 0, rows * columns);
    let mut score = c.contact_value;
    if x <= 0 {
        x = 0;
        dx = abs_i64(dx);
    } else if x + bs >= c.arena_width {
        x = c.arena_width - bs;
        dx = -abs_i64(dx);
    }
    if y <= 0 {
        y = 0;
        dy = abs_i64(dy);
    }
    if dy < 0 && live > 0 {
        assert(-VALUE_LIMIT * VALUE_LIMIT <= c.field_gap * (columns - 1) <= VALUE_LIMIT * VALUE_LIMIT) by (nonlinear_arith)
            requires
                within_limit(c.field_gap as int),
                1 <= columns <= VALUE_LIMIT,
        ;
        let numerator = c.arena_width - c.field_margin * 2 - c.field_gap * (columns - 1);
        let cell_w = numerator / columns;
        assert(-4 * VALUE_LIMIT * VALUE_LIMIT <= cell_w <= 4 * VALUE_LIMIT * VALUE_LIMIT) by (nonlinear_arith)
            requires
                -2 * VALUE_LIMIT * VALUE_LIMIT <= numerator <= 2 * VALUE_LIMIT * VALUE_LIMIT,
                1 <= columns,
                cell_w == div_trunc(numerator as int, columns as int),
        ;
        let hit = scan_field(c, x, y, live, rows, columns, cell_w);
        if hit {
            live = live - 1;
            dy = abs_i64(dy);
            score = score + c.value_per_contact;
        }
    }
    let cx = controller_left_from_position(c.control_x, c.arena_width, c.control_width);
    if dy > 0 && x < cx + c.control_width && x + bs > cx && y < c.control_y + c.control_height && y + bs > c.control_y {
        y = c.control_y - bs;
        dy = -abs_i64(dy);
        dx = deflect_i64(dx, x, bs, cx, c.control_width);
    }
    ContactProgress { x, y, dx, dy, live_count: live, contact_value: score, controller_left: cx }
}

/// The end of a contact step, as `contact_step` describes it: the reset of
/// a body that fell out (with the initial speed given, which is read only
/// then) and the refill of an emptied field; returns the quantity asked
/// for.
pub fn contact_body_finish(
    c: &ContactInputs,
    p: &ContactProgress,
    initial_dx: i64,
    initial_dy: i64,
    quantity: ContactQuantity,
) -> (r: i64)
    requires
        contact_inputs_ok(*c),
        (p.x as int, p.y as int, p.dx as int, p.dy as int, p.live_count as int, p.contact_value as int,
            p.controller_left as int) == contact_advance(*c),
        0 <= p.controller_left <= 2 * VALUE_LIMIT,
    ensures
        r == contact_value(*c, initial_dx as int, initial_dy as int, quantity),
{
    let bs = c.body_size;
    let rows = max_i64(c.field_rows, 0);
    let columns = max_i64(c.field_columns, 1);
    assert(0 <= rows * columns <= VALUE_LIMIT * VALUE_LIMIT) by (nonlinear_arith)
        requires
            0 <= rows <= VALUE_LIMIT,
            1 <= columns <= VALUE_LIMIT,
    ;
    let mut x = p.x;
    let mut y = p.y;
    let mut dx = p.dx;
    let mut dy = p.dy;
    let mut resets = c.resets_remaining;
    if y > c.arena_height {
        x = p.controller_left + c.control_width / 2 - bs / 2;
        y = c.control_y - bs - 2;
        dx = initial_dx;
        dy = initial_dy;
        resets = max_i64(resets - 1, 0);
    }
    let live = if p.live_count == 0 {
        rows * columns
    } else {
        p.live_count
    };
    match quantity {
        ContactQuantity::X => x,
        ContactQuantity::Y => y,
        ContactQuantity::Dx => dx,
        ContactQuantity::Dy => dy,
        ContactQuantity::LiveCount => live,
        ContactQuantity::ContactValue => p.contact_value,
        ContactQuantity::ResetsRemaining => resets,
    }
}

/// The quantity of a peer step that a call path asks for.
pub open spec fn peer_quantity(path: Seq<char>) -> Option<PeerQuantity> {
    if path == "Geometry/peer_body_x"@ {
        Some(PeerQuantity::X)
    } else if path == "Geometry/peer_body_y"@ {
        Some(PeerQuantity::Y)
    } else if path == "Geometry/peer_body_dx"@ {
        Some(PeerQuantity::Dx)
    } else if path == "Geometry/peer_body_dy"@ {
        Some(PeerQuantity::Dy)
    } else if path == "Geometry/peer_contact_value"@ {
        Some(PeerQuantity::ContactValue)
    } else if path == "Geometry/peer_resets_remaining"@ {
        Some(PeerQuantity::ResetsRemaining)
    } else {
        None
    }
}

/// The quantity of a contact step that a call path asks for.
pub open spec fn contact_quantity(path: Seq<char>) -> Option<ContactQuantity> {
    if path == "Geometry/contact_body_x"@ {
        Some(ContactQuantity::X)
    } else if path == "Geometry/contact_body_y"@ {
        Some(ContactQuantity::Y)
    } else if path == "Geometry/contact_body_dx"@ {
        Some(ContactQuantity::Dx)
    } else if path == "Geometry/contact_body_dy"@ {
        Some(ContactQuantity::Dy)
    } else if path == "Geometry/contact_live_count"@ {
        Some(ContactQuantity::LiveCount)
    } else if path == "Geometry/contact_value"@ {
        Some(ContactQuantity::ContactValue)
    } else if path == "Geometry/contact_resets_remaining"@ {
        Some(ContactQuantity::ResetsRemaining)
    } else {
        None
    }
}

/// The call paths that `eval_number_call` computes.
pub open spec fn is_number_path(path: Seq<char>) -> bool {
    path == "Number/min"@ || path == "Number/max"@ || path == "Number/clamp"@
        || path == "Geometry/track_vertical_position"@ || peer_quantity(path) is Some
        || contact_quantity(path) is Some
}

/// The error for a path that is not a stdlib call.
pub open spec fn unsupported_call(path: Seq<char>) -> Seq<char> {
    "unsupported executable stdlib call `"@ + path + "`"@
}

/// `arg` may give `v` for the argument `name`.
pub open spec fn gives<F: Fn(&str) -> Result<i64, String>>(arg: F, name: &str, v: i64) -> bool {
    call_ensures(arg, (name,), Ok(v))
}

/// Values that `arg` may give for the arguments of a peer step.
pub open spec fn peer_args<F: Fn(&str) -> Result<i64, String>>(arg: F, p: PeerInputs) -> bool {
    &&& gives(arg, "arena_width", p.arena_width)
    &&& gives(arg, "arena_height", p.arena_height)
    &&& gives(arg, "body_size", p.body_size)
    &&& gives(arg, "control_width", p.control_width)
    &&& gives(arg, "control_height", p.control_height)
    &&& gives(arg, "left_x", p.left_x)
    &&& gives(arg, "right_x", p.right_x)
    &&& gives(arg, "control_y", p.control_y)
    &&& gives(arg, "tracked_control_y", p.tracked_control_y)
    &&& exists|x0: i64, dx0: i64|
        gives(arg, "x", x0) && gives(arg, "dx", dx0) && p.x == x0 + dx0
    &&& exists|y0: i64, dy0: i64|
        gives(arg, "y", y0) && gives(arg, "dy", dy0) && p.y == y0 + dy0
    &&& gives(arg, "dx", p.dx)
    &&& gives(arg, "dy", p.dy)
    &&& gives(arg, "contact_value", p.contact_value)
    &&& gives(arg, "resets_remaining", p.resets_remaining)
}

/// Values that `arg` may give for the arguments of a contact step.
pub open spec fn contact_args<F: Fn(&str) -> Result<i64, String>>(arg: F, c: ContactInputs) -> bool {
    &&& gives(arg, "arena_width", c.arena_width)
    &&& gives(arg, "arena_height", c.arena_height)
    &&& gives(arg, "body_size", c.body_size)
    &&& gives(arg, "control_width", c.control_width)
    &&& gives(arg, "control_height", c.control_height)
    &&& gives(arg, "control_y", c.control_y)
    &&& gives(arg, "field_margin", c.field_margin)
    &&& gives(arg, "field_top", c.field_top)
    &&& gives(arg, "field_gap", c.field_gap)
    &&& gives(arg, "field_height", c.field_height)
    &&& gives(arg, "field_rows", c.field_rows)
    &&& gives(arg, "field_columns", c.field_columns)
    &&& gives(arg, "value_per_contact", c.value_per_contact)
    &&& exists|x0: i64, dx0: i64|
        gives(arg, "x", x0) && gives(arg, "dx", dx0) && c.x == x0 + dx0
    &&& exists|y0: i64, dy0: i64|
        gives(arg, "y", y0) && gives(arg, "dy", dy0) && c.y == y0 + dy0
    &&& gives(arg, "dx", c.dx)
    &&& gives(arg, "dy", c.dy)
    &&& gives(arg, "live_count", c.live_count)
    &&& gives(arg, "contact_value", c.contact_value)
    &&& gives(arg, "resets_remaining", c.resets_remaining)
    &&& gives(arg, "control_x", c.control_x)
}

/// Whether `path` is one of the geometry steps, whose arguments must stay
/// within the value limit.
pub open spec fn is_geometry_path(path: Seq<char>) -> bool {
    path == "Geometry/track_vertical_position"@ || peer_quantity(path) is Some || contact_quantity(path) is Some
}

/// The names of the arguments that the call `path` reads.
pub open spec fn call_arg_names(path: Seq<char>) -> Seq<Seq<char>> {
    if path == "Number/min"@ || path == "Number/max"@ {
        seq!["left"@, "right"@]
    } else if path == "Number/clamp"@ {
        seq!["value"@, "min"@, "max"@]
    } else if path == "Geometry/track_vertical_position"@ {
        seq!["body_y"@, "body_size"@, "arena_height"@, "height"@]
    } else if peer_quantity(path) is Some {
        seq![
            "arena_width"@, "arena_height"@, "body_size"@, "control_width"@, "control_height"@, "left_x"@,
            "right_x"@, "control_y"@, "tracked_control_y"@, "x"@, "dx"@, "y"@, "dy"@, "contact_value"@,
            "resets_remaining"@,
        ]
    } else if contact_quantity(path) is Some {
        seq![
            "arena_width"@, "arena_height"@, "body_size"@, "control_width"@, "control_height"@, "control_y"@,
            "field_margin"@, "field_top"@, "field_gap"@, "field_height"@, "field_rows"@, "field_columns"@,
            "value_per_contact"@, "x"@, "dx"@, "y"@, "dy"@, "live_count"@, "contact_value"@,
            "resets_remaining"@, "control_x"@, "initial_dx"@, "initial_dy"@,
        ]
    } else {
        Seq::empty()
    }
}

/// Computes the stdlib call `path`, reading its named arguments through
/// `arg` in the order the call needs them and stopping at the first
/// argument that `arg` refuses.
pub fn eval_number_call<F: Fn(&str) -> Result<i64, String>>(path: &str, arg: F) -> (r: Result<i64, String>)
    requires
        forall|name: &str| call_requires(arg, (name,)),
        is_geometry_path(path@) ==> forall|name: &str, v: i64| #[trigger] gives(arg, name, v) ==> within_limit(v as int),
        path@ == "Number/clamp"@ ==> forall|a: i64, b: i64|
            gives(arg, "min", a) && gives(arg, "max", b) ==> a <= b,
        peer_quantity(path@) is Some ==> forall|a: i64, b: i64|
            gives(arg, "arena_height", a) && gives(arg, "control_height", b) ==> b <= a,
        contact_quantity(path@) is Some ==> forall|a: i64, b: i64|
            gives(arg, "arena_width", a) && gives(arg, "control_width", b) ==> b <= a,
    ensures
        !is_number_path(path@) ==> (r matches Err(e) && e@ == unsupported_call(path@)),
        is_number_path(path@) ==> (r matches Err(e) ==> exists|name: &str|
            call_arg_names(path@).contains(name@) && call_ensures(arg, (name,), Err(e))),
        path@ == "Number/min"@ ==> (r matches Ok(v) ==> exists|a: i64, b: i64|
            gives(arg, "left", a) && gives(arg, "right", b) && v == min(a as int, b as int)),
        path@ == "Number/max"@ ==> (r matches Ok(v) ==> exists|a: i64, b: i64|
            gives(arg, "left", a) && gives(arg, "right", b) && v == max(a as int, b as int)),
        path@ == "Number/clamp"@ ==> (r matches Ok(v) ==> exists|a: i64, lo: i64, hi: i64|
            gives(arg, "value", a) && gives(arg, "min", lo) && gives(arg, "max", hi)
            && v == clamp(a as int, lo as int, hi as int)),
        path@ == "Geometry/track_vertical_position"@ ==> (r matches Ok(v) ==> exists|a: i64, b: i64, c: i64, d: i64|
            gives(arg, "body_y", a) && gives(arg, "body_size", b) && gives(arg, "arena_height", c)
            && gives(arg, "height", d) && v == track_vertical(a as int, b as int, c as int, d as int)),
        peer_quantity(path@) matches Some(q) ==> (r matches Ok(v) ==> exists|p: PeerInputs|
            peer_args(arg, p) && v == peer_value(p, q)),
        contact_quantity(path@) matches Some(q) ==> (r matches Ok(v) ==> exists|c: ContactInputs, idx: i64, idy: i64|
            contact_args(arg, c) && (contact_needs_reset(c) ==> gives(arg, "initial_dx", idx) && gives(arg, "initial_dy", idy))
            && v == contact_value(c, idx as int, idy as int, q)),
{
    proof {
        lemma_call_paths_differ();
    }
    if path_is(path, "Number/min") {
        let a = match arg("left") {
            Ok(v) => v,
            Err(e) => return Err(e),
        };
        let b = match arg("right") {
            Ok(v) => v,
            Err(e) => return Err(e),
        };
        proof {
            assert(gives(arg, "left", a) && gives(arg, "right", b));
        }
        return Ok(min_i64(a, b));
    }
    if path_is(path, "Number/max") {
        let a = match arg("left") {
            Ok(v) => v,
            Err(e) => return Err(e),
        };
        let b = match arg("right") {
            Ok(v) => v,
            Err(e) => return Err(e),
        };
        proof {
            assert(gives(arg, "left", a) && gives(arg, "right", b));
        }
        return Ok(max_i64(a, b));
    }
    if path_is(path, "Number/clamp") {
        let a = match arg("value") {
            Ok(v) => v,
            Err(e) => return Err(e),
        };
        let lo = match arg("min") {
            Ok(v) => v,
            Err(e) => return Err(e),
        };
        let hi = match arg("max") {
            Ok(v) => v,
            Err(e) => return Err(e),
        };
        proof {
            assert(gives(arg, "value", a) && gives(arg, "min", lo) && gives(arg, "max", hi));
        }
        return Ok(clamp_i64(a, lo, hi));
    }
    if path_is(path, "Geometry/track_vertical_position") {
        let a = match arg("body_y") {
            Ok(v) => v,
            Err(e) => return Err(e),
        };
        let b = match arg("body_size") {
            Ok(v) => v,
            Err(e) => return Err(e),
        };
        let c = match arg("arena_height") {
            Ok(v) => v,
            Err(e) => return Err(e),
        };
        let d = match arg("height") {
            Ok(v) => v,
            Err(e) => return Err(e),
        };
        proof {
            assert(gives(arg, "body_y", a) && gives(arg, "body_size", b) && gives(arg, "arena_height", c)
                && gives(arg, "height", d));
        }
        return Ok(track_vertical_position(a, b, c, d));
    }
    if let Some(q) = peer_quantity_of(path) {
        let arena_width = match arg("arena_width") {
            Ok(v) => v,
            Err(e) => return Err(e),
        };
        let arena_height = match arg("arena_height") {
            Ok(v) => v,
            Err(e) => return Err(e),
        };
        let body_size = match arg("body_size") {
            Ok(v) => v,
            Err(e) => return Err(e),
        };
        let control_width = match arg("control_width") {
            Ok(v) => v,
            Err(e) => return Err(e),
        };
        let control_height = match arg("control_height") {
            Ok(v) => v,
            Err(e) => return Err(e),
        };
        let left_x = match arg("left_x") {
            Ok(v) => v,
            Err(e) => return Err(e),
        };
        let right_x = match arg("right_x") {
            Ok(v) => v,
            Err(e) => return Err(e),
        };
        let control_y = match arg("control_y") {
            Ok(v) => v,
            Err(e) => return Err(e),
        };
        let tracked_control_y = match arg("tracked_control_y") {
            Ok(v) => v,
            Err(e) => return Err(e),
        };
        let x0 = match arg("x") {
            Ok(v) => v,
            Err(e) => return Err(e),
        };
        let dx0 = match arg("dx") {
            Ok(v) => v,
            Err(e) => return Err(e),
        };
        let y0 = match arg("y") {
            Ok(v) => v,
            Err(e) => return Err(e),
        };
        let dy0 = match arg("dy") {
            Ok(v) => v,
            Err(e) => return Err(e),
        };
        let dx = match arg("dx") {
            Ok(v) => v,
            Err(e) => return Err(e),
        };
        let dy = match arg("dy") {
            Ok(v) => v,
            Err(e) => return Err(e),
        };
        let contact_value = match arg("contact_value") {
            Ok(v) => v,
            Err(e) => return Err(e),
        };
        let resets_remaining = match arg("resets_remaining") {
            Ok(v) => v,
            Err(e) => return Err(e),
        };
        proof {
            assert(gives(arg, "arena_width", arena_width));
            assert(gives(arg, "arena_height", arena_height));
            assert(gives(arg, "body_size", body_size));
            assert(gives(arg, "control_width", control_width));
            assert(gives(arg, "control_height", control_height));
            assert(gives(arg, "left_x", left_x));
            assert(gives(arg, "right_x", right_x));
            assert(gives(arg, "control_y", control_y));
            assert(gives(arg, "tracked_control_y", tracked_control_y));
            assert(gives(arg, "x", x0));
            assert(gives(arg, "dx", dx0));
            assert(gives(arg, "y", y0));
            assert(gives(arg, "dy", dy0));
            assert(gives(arg, "dx", dx));
            assert(gives(arg, "dy", dy));
            assert(gives(arg, "contact_value", contact_value));
            assert(gives(arg, "resets_remaining", resets_remaining));
        }
        let p = PeerInputs {
            arena_width,
            arena_height,
            body_size,
            control_width,
            control_height,
            left_x,
            right_x,
            control_y,
            tracked_control_y,
            x: x0 + dx0,
            y: y0 + dy0,
            dx,
            dy,
            contact_value,
            resets_remaining,
        };
        proof {
            assert(peer_args(arg, p));
        }
        return Ok(peer_body_next(&p, q));
    }
    if let Some(q) = contact_quantity_of(path) {
        let arena_width = match arg("arena_width") {
            Ok(v) => v,
            Err(e) => return Err(e),
        };
        let arena_height = match arg("arena_height") {
            Ok(v) => v,
            Err(e) => return Err(e),
        };
        let body_size = match arg("body_size") {
            Ok(v) => v,
            Err(e) => return Err(e),
        };
        let control_width = match arg("control_width") {
            Ok(v) => v,
            Err(e) => return Err(e),
        };
        let control_height = match arg("control_height") {
            Ok(v) => v,
            Err(e) => return Err(e),
        };
        let control_y = match arg("control_y") {
            Ok(v) => v,
            Err(e) => return Err(e),
        };
        let field_margin = match arg("field_margin") {
            Ok(v) => v,
            Err(e) => return Err(e),
        };
        let field_top = match arg("field_top") {
            Ok(v) => v,
            Err(e) => return Err(e),
        };
        let field_gap = match arg("field_gap") {
            Ok(v) => v,
            Err(e) => return Err(e),
        };
        let field_height = match arg("field_height") {
            Ok(v) => v,
            Err(e) => return Err(e),
        };
        let field_rows = match arg("field_rows") {
            Ok(v) => v,
            Err(e) => return Err(e),
        };
        let field_columns = match arg("field_columns") {
            Ok(v) => v,
            Err(e) => return Err(e),
        };
        let value_per_contact = match arg("value_per_contact") {
            Ok(v) => v,
            Err(e) => return Err(e),
        };
        let x0 = match arg("x") {
            Ok(v) => v,
            Err(e) => return Err(e),
        };
        let dx0 = match arg("dx") {
            Ok(v) => v,
            Err(e) => return Err(e),
        };
        let y0 = match arg("y") {
            Ok(v) => v,
            Err(e) => return Err(e),
        };
        let dy0 = match arg("dy") {
            Ok(v) => v,
            Err(e) => return Err(e),
        };
        let dx = match arg("dx") {
            Ok(v) => v,
            Err(e) => return Err(e),
        };
        let dy = match arg("dy") {
            Ok(v) => v,
            Err(e) => return Err(e),
        };
        let live_count = match arg("live_count") {
            Ok(v) => v,
            Err(e) => return Err(e),
        };
        let contact_value = match arg("contact_value") {
            Ok(v) => v,
            Err(e) => return Err(e),
        };
        let resets_remaining = match arg("resets_remaining") {
            Ok(v) => v,
            Err(e) => return Err(e),
        };
        let control_x = match arg("control_x") {
            Ok(v) => v,
            Err(e) => return Err(e),
        };
        proof {
            assert(gives(arg, "arena_width", arena_width));
            assert(gives(arg, "arena_height", arena_height));
            assert(gives(arg, "body_size", body_size));
            assert(gives(arg, "control_width", control_width));
            assert(gives(arg, "control_height", control_height));
            assert(gives(arg, "control_y", control_y));
            assert(gives(arg, "field_margin", field_margin));
            assert(gives(arg, "field_top", field_top));
            assert(gives(arg, "field_gap", field_gap));
            assert(gives(arg, "field_height", field_height));
            assert(gives(arg, "field_rows", field_rows));
            assert(gives(arg, "field_columns", field_columns));
            assert(gives(arg, "value_per_contact", value_per_contact));
            assert(gives(arg, "x", x0));
            assert(gives(arg, "dx", dx0));
            assert(gives(arg, "y", y0));
            assert(gives(arg, "dy", dy0));
            assert(gives(arg, "dx", dx));
            assert(gives(arg, "dy", dy));
            assert(gives(arg, "live_count", live_count));
            assert(gives(arg, "contact_value", contact_value));
            assert(gives(arg, "resets_remaining", resets_remaining));
            assert(gives(arg, "control_x", control_x));
        }
        let c = ContactInputs {
            arena_width,
            arena_height,
            body_size,
            control_width,
            control_height,
            control_y,
            field_margin,
            field_top,
            field_gap,
            field_height,
            field_rows,
            field_columns,
            value_per_contact,
            x: x0 + dx0,
            y: y0 + dy0,
            dx,
            dy,
            live_count,
            contact_value,
            resets_remaining,
            control_x,
        };
        proof {
            assert(contact_args(arg, c));
        }
        let progress = contact_body_advance(&c);
        if progress.y > c.arena_height {
            let idx = match arg("initial_dx") {
                Ok(v) => v,
                Err(e) => return Err(e),
            };
            let idy = match arg("initial_dy") {
                Ok(v) => v,
                Err(e) => return Err(e),
            };
            proof {
                assert(gives(arg, "initial_dx", idx) && gives(arg, "initial_dy", idy));
            }
            return Ok(contact_body_finish(&c, &progress, idx, idy, q));
        }
        return Ok(contact_body_finish(&c, &progress, 0, 0, q));
    }
    let mut out = Vec::new();
    push_str(&mut out, "unsupported executable stdlib call `");
    push_str(&mut out, path);
    push_str(&mut out, "`");
    Err(string_of(&out))
}

/// The stdlib call paths are all different.
proof fn lemma_call_paths_differ()
    ensures
        "Number/min"@ != "Number/max"@,
        "Number/min"@ != "Number/clamp"@,
        "Number/min"@ != "Geometry/track_vertical_position"@,
        "Number/min"@ != "Geometry/peer_body_x"@,
        "Number/min"@ != "Geometry/peer_body_y"@,
        "Number/min"@ != "Geometry/peer_body_dx"@,
        "Number/min"@ != "Geometry/peer_body_dy"@,
        "Number/min"@ != "Geometry/peer_contact_value"@,
        "Number/min"@ != "Geometry/peer_resets_remaining"@,
        "Number/min"@ != "Geometry/contact_body_x"@,
        "Number/min"@ != "Geometry/contact_body_y"@,
        "Number/min"@ != "Geometry/contact_body_dx"@,
        "Number/min"@ != "Geometry/contact_body_dy"@,
        "Number/min"@ != "Geometry/contact_live_count"@,
        "Number/min"@ != "Geometry/contact_value"@,
        "Number/min"@ != "Geometry/contact_resets_remaining"@,
        "Number/max"@ != "Number/clamp"@,
        "Number/max"@ != "Geometry/track_vertical_position"@,
        "Number/max"@ != "Geometry/peer_body_x"@,
        "Number/max"@ != "Geometry/peer_body_y"@,
        "Number/max"@ != "Geometry/peer_body_dx"@,
        "Number/max"@ != "Geometry/peer_body_dy"@,
        "Number/max"@ != "Geometry/peer_contact_value"@,
        "Number/max"@ != "Geometry/peer_resets_remaining"@,
        "Number/max"@ != "Geometry/contact_body_x"@,
        "Number/max"@ != "Geometry/contact_body_y"@,
        "Number/max"@ != "Geometry/contact_body_dx"@,
        "Number/max"@ != "Geometry/contact_body_dy"@,
        "Number/max"@ != "Geometry/contact_live_count"@,
        "Number/max"@ != "Geometry/contact_value"@,
        "Number/max"@ != "Geometry/contact_resets_remaining"@,
        "Number/clamp"@ != "Geometry/track_vertical_position"@,
        "Number/clamp"@ != "Geometry/peer_body_x"@,
        "Number/clamp"@ != "Geometry/peer_body_y"@,
        "Number/clamp"@ != "Geometry/peer_body_dx"@,
        "Number/clamp"@ != "Geometry/peer_body_dy"@,
        "Number/clamp"@ != "Geometry/peer_contact_value"@,
        "Number/clamp"@ != "Geometry/peer_resets_remaining"@,
        "Number/clamp"@ != "Geometry/contact_body_x"@,
        "Number/clamp"@ != "Geometry/contact_body_y"@,
        "Number/clamp"@ != "Geometry/contact_body_dx"@,
        "Number/clamp"@ != "Geometry/contact_body_dy"@,
        "Number/clamp"@ != "Geometry/contact_live_count"@,
        "Number/clamp"@ != "Geometry/contact_value"@,
        "Number/clamp"@ != "Geometry/contact_resets_remaining"@,
        "Geometry/track_vertical_position"@ != "Geometry/peer_body_x"@,
        "Geometry/track_vertical_position"@ != "Geometry/peer_body_y"@,
        "Geometry/track_vertical_position"@ != "Geometry/peer_body_dx"@,
        "Geometry/track_vertical_position"@ != "Geometry/peer_body_dy"@,
        "Geometry/track_vertical_position"@ != "Geometry/peer_contact_value"@,
        "Geometry/track_vertical_position"@ != "Geometry/peer_resets_remaining"@,
        "Geometry/track_vertical_position"@ != "Geometry/contact_body_x"@,
        "Geometry/track_vertical_position"@ != "Geometry/contact_body_y"@,
        "Geometry/track_vertical_position"@ != "Geometry/contact_body_dx"@,
        "Geometry/track_vertical_position"@ != "Geometry/contact_body_dy"@,
        "Geometry/track_vertical_position"@ != "Geometry/contact_live_count"@,
        "Geometry/track_vertical_position"@ != "Geometry/contact_value"@,
        "Geometry/track_vertical_position"@ != "Geometry/contact_resets_remaining"@,
        "Geometry/peer_body_x"@ != "Geometry/peer_body_y"@,
        "Geometry/peer_body_x"@ != "Geometry/peer_body_dx"@,
        "Geometry/peer_body_x"@ != "Geometry/peer_body_dy"@,
        "Geometry/peer_body_x"@ != "Geometry/peer_contact_value"@,
        "Geometry/peer_body_x"@ != "Geometry/peer_resets_remaining"@,
        "Geometry/peer_body_x"@ != "Geometry/contact_body_x"@,
        "Geometry/peer_body_x"@ != "Geometry/contact_body_y"@,
        "Geometry/peer_body_x"@ != "Geometry/contact_body_dx"@,
        "Geometry/peer_body_x"@ != "Geometry/contact_body_dy"@,
        "Geometry/peer_body_x"@ != "Geometry/contact_live_count"@,
        "Geometry/peer_body_x"@ != "Geometry/contact_value"@,
        "Geometry/peer_body_x"@ != "Geometry/contact_resets_remaining"@,
        "Geometry/peer_body_y"@ != "Geometry/peer_body_dx"@,
        "Geometry/peer_body_y"@ != "Geometry/peer_body_dy"@,
        "Geometry/peer_body_y"@ != "Geometry/peer_contact_value"@,
        "Geometry/peer_body_y"@ != "Geometry/peer_resets_remaining"@,
        "Geometry/peer_body_y"@ != "Geometry/contact_body_x"@,
        "Geometry/peer_body_y"@ != "Geometry/contact_body_y"@,
        "Geometry/peer_body_y"@ != "Geometry/contact_body_dx"@,
        "Geometry/peer_body_y"@ != "Geometry/contact_body_dy"@,
        "Geometry/peer_body_y"@ != "Geometry/contact_live_count"@,
        "Geometry/peer_body_y"@ != "Geometry/contact_value"@,
        "Geometry/peer_body_y"@ != "Geometry/contact_resets_remaining"@,
        "Geometry/peer_body_dx"@ != "Geometry/peer_body_dy"@,
        "Geometry/peer_body_dx"@ != "Geometry/peer_contact_value"@,
        "Geometry/peer_body_dx"@ != "Geometry/peer_resets_remaining"@,
        "Geometry/peer_body_dx"@ != "Geometry/contact_body_x"@,
        "Geometry/peer_body_dx"@ != "Geometry/contact_body_y"@,
        "Geometry/peer_body_dx"@ != "Geometry/contact_body_dx"@,
        "Geometry/peer_body_dx"@ != "Geometry/contact_body_dy"@,
        "Geometry/peer_body_dx"@ != "Geometry/contact_live_count"@,
        "Geometry/peer_body_dx"@ != "Geometry/contact_value"@,
        "Geometry/peer_body_dx"@ != "Geometry/contact_resets_remaining"@,
        "Geometry/peer_body_dy"@ != "Geometry/peer_contact_value"@,
        "Geometry/peer_body_dy"@ != "Geometry/peer_resets_remaining"@,
        "Geometry/peer_body_dy"@ != "Geometry/contact_body_x"@,
        "Geometry/peer_body_dy"@ != "Geometry/contact_body_y"@,
        "Geometry/peer_body_dy"@ != "Geometry/contact_body_dx"@,
        "Geometry/peer_body_dy"@ != "Geometry/contact_body_dy"@,
        "Geometry/peer_body_dy"@ != "Geometry/contact_live_count"@,
        "Geometry/peer_body_dy"@ != "Geometry/contact_value"@,
        "Geometry/peer_body_dy"@ != "Geometry/contact_resets_remaining"@,
        "Geometry/peer_contact_value"@ != "Geometry/peer_resets_remaining"@,
        "Geometry/peer_contact_value"@ != "Geometry/contact_body_x"@,
        "Geometry/peer_contact_value"@ != "Geometry/contact_body_y"@,
        "Geometry/peer_contact_value"@ != "Geometry/contact_body_dx"@,
        "Geometry/peer_contact_value"@ != "Geometry/contact_body_dy"@,
        "Geometry/peer_contact_value"@ != "Geometry/contact_live_count"@,
        "Geometry/peer_contact_value"@ != "Geometry/contact_value"@,
        "Geometry/peer_contact_value"@ != "Geometry/contact_resets_remaining"@,
        "Geometry/peer_resets_remaining"@ != "Geometry/contact_body_x"@,
        "Geometry/peer_resets_remaining"@ != "Geometry/contact_body_y"@,
        "Geometry/peer_resets_remaining"@ != "Geometry/contact_body_dx"@,
        "Geometry/peer_resets_remaining"@ != "Geometry/contact_body_dy"@,
        "Geometry/peer_resets_remaining"@ != "Geometry/contact_live_count"@,
        "Geometry/peer_resets_remaining"@ != "Geometry/contact_value"@,
        "Geometry/peer_resets_remaining"@ != "Geometry/contact_resets_remaining"@,
        "Geometry/contact_body_x"@ != "Geometry/contact_body_y"@,
        "Geometry/contact_body_x"@ != "Geometry/contact_body_dx"@,
        "Geometry/contact_body_x"@ != "Geometry/contact_body_dy"@,
        "Geometry/contact_body_x"@ != "Geometry/contact_live_count"@,
        "Geometry/contact_body_x"@ != "Geometry/contact_value"@,
        "Geometry/contact_body_x"@ != "Geometry/contact_resets_remaining"@,
        "Geometry/contact_body_y"@ != "Geometry/contact_body_dx"@,
        "Geometry/contact_body_y"@ != "Geometry/contact_body_dy"@,
        "Geometry/contact_body_y"@ != "Geometry/contact_live_count"@,
        "Geometry/contact_body_y"@ != "Geometry/contact_value"@,
        "Geometry/contact_body_y"@ != "Geometry/contact_resets_remaining"@,
        "Geometry/contact_body_dx"@ != "Geometry/contact_body_dy"@,
        "Geometry/contact_body_dx"@ != "Geometry/contact_live_count"@,
        "Geometry/contact_body_dx"@ != "Geometry/contact_value"@,
        "Geometry/contact_body_dx"@ != "Geometry/contact_resets_remaining"@,
        "Geometry/contact_body_dy"@ != "Geometry/contact_live_count"@,
        "Geometry/contact_body_dy"@ != "Geometry/contact_value"@,
        "Geometry/contact_body_dy"@ != "Geometry/contact_resets_remaining"@,
        "Geometry/contact_live_count"@ != "Geometry/contact_value"@,
        "Geometry/contact_live_count"@ != "Geometry/contact_resets_remaining"@,
        "Geometry/contact_value"@ != "Geometry/contact_resets_remaining"@,
{
    reveal_strlit("Number/min");
    reveal_strlit("Number/max");
    reveal_strlit("Number/clamp");
    reveal_strlit("Geometry/track_vertical_position");
    reveal_strlit("Geometry/peer_body_x");
    reveal_strlit("Geometry/peer_body_y");
    reveal_strlit("Geometry/peer_body_dx");
    reveal_strlit("Geometry/peer_body_dy");
    reveal_strlit("Geometry/peer_contact_value");
    reveal_strlit("Geometry/peer_resets_remaining");
    reveal_strlit("Geometry/contact_body_x");
    reveal_strlit("Geometry/contact_body_y");
    reveal_strlit("Geometry/contact_body_dx");
    reveal_strlit("Geometry/contact_body_dy");
    reveal_strlit("Geometry/contact_live_count");
    reveal_strlit("Geometry/contact_value");
    reveal_strlit("Geometry/contact_resets_remaining");
    assert("Number/min"@.len() == 10);
    assert("Number/max"@.len() == 10);
    assert("Number/clamp"@.len() == 12);
    assert("Geometry/track_vertical_position"@.len() == 32);
    assert("Geometry/peer_body_x"@.len() == 20);
    assert("Geometry/peer_body_y"@.len() == 20);
    assert("Geometry/peer_body_dx"@.len() == 21);
    assert("Geometry/peer_body_dy"@.len() == 21);
    assert("Geometry/peer_contact_value"@.len() == 27);
    assert("Geometry/peer_resets_remaining"@.len() == 30);
    assert("Geometry/contact_body_x"@.len() == 23);
    assert("Geometry/contact_body_y"@.len() == 23);
    assert("Geometry/contact_body_dx"@.len() == 24);
    assert("Geometry/contact_body_dy"@.len() == 24);
    assert("Geometry/contact_live_count"@.len() == 27);
    assert("Geometry/contact_value"@.len() == 22);
    assert("Geometry/contact_resets_remaining"@.len() == 33);
    assert("Number/min"@[8] != "Number/max"@[8]);
    assert("Geometry/peer_body_x"@[19] != "Geometry/peer_body_y"@[19]);
    assert("Geometry/peer_body_dx"@[20] != "Geometry/peer_body_dy"@[20]);
    assert("Geometry/peer_contact_value"@[9] != "Geometry/contact_live_count"@[9]);
    assert("Geometry/contact_body_x"@[22] != "Geometry/contact_body_y"@[22]);
    assert("Geometry/contact_body_dx"@[23] != "Geometry/contact_body_dy"@[23]);
}

/// The quantity of a peer step that `path` asks for.
fn peer_quantity_of(path: &str) -> (r: Option<PeerQuantity>)
    ensures
        r == peer_quantity(path@),
{
    if path_is(path, "Geometry/peer_body_x") {
        Some(PeerQuantity::X)
    } else if path_is(path, "Geometry/peer_body_y") {
        Some(PeerQuantity::Y)
    } else if path_is(path, "Geometry/peer_body_dx") {
        Some(PeerQuantity::Dx)
    } else if path_is(path, "Geometry/peer_body_dy") {
        Some(PeerQuantity::Dy)
    } else if path_is(path, "Geometry/peer_contact_value") {
        Some(PeerQuantity::ContactValue)
    } else if path_is(path, "Geometry/peer_resets_remaining") {
        Some(PeerQuantity::ResetsRemaining)
    } else {
        None
    }
}

/// The quantity of a contact step that `path` asks for.
fn contact_quantity_of(path: &str) -> (r: Option<ContactQuantity>)
    ensures
        r == contact_quantity(path@),
{
    if path_is(path, "Geometry/contact_body_x") {
        Some(ContactQuantity::X)
    } else if path_is(path, "Geometry/contact_body_y") {
        Some(ContactQuantity::Y)
    } else if path_is(path, "Geometry/contact_body_dx") {
        Some(ContactQuantity::Dx)
    } else if path_is(path, "Geometry/contact_body_dy") {
        Some(ContactQuantity::Dy)
    } else if path_is(path, "Geometry/contact_live_count") {
        Some(ContactQuantity::LiveCount)
    } else if path_is(path, "Geometry/contact_value") {
        Some(ContactQuantity::ContactValue)
    } else if path_is(path, "Geometry/contact_resets_remaining") {
        Some(ContactQuantity::ResetsRemaining)
    } else {
        None
    }
}

/// `path` is the call path `name`.
fn path_is(path: &str, name: &str) -> (r: bool)
    ensures
        r == (path@ == name@),
{
    let v = crate::text::chars_of(path);
    let w = crate::text::chars_of(name);
    crate::text::seq_eq(&v, &w)
}

} // verus!
