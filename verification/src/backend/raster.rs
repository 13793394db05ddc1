//! The software rasteriser of the native window: RGBA frames painted with
//! rectangles, outlines and a 5x7 bitmap font.
//!
//! A frame of `width` x `height` pixels is a byte buffer of four channels
//! per pixel, row after row. Every drawing operation is stated over the
//! pixels it covers: a covered pixel takes the colour, every other byte
//! keeps its value.
use vstd::prelude::*;
use crate::text::{
    byte_len, chars_of, contains_seq, dec_chars, first_of, get_from_byte, get_from_byte_exec, has_prefix,
    index_of_char, parse_u64, parse_u64_spec, slice_range, starts_with, string_of_range, trim, trim_range, trimmed, utf8_len,
    utf8_len_exec, find_line_value, line_value, parse_u32, parse_u32_spec, push_all, push_decimal,
    push_str, str_contains, string_of, text_lines,
};

verus! {

/// What a renderer reports about itself: the graphics backend, adapter
/// and device, the renderer and text engine, the digest of its font and
/// how many generated shader modules it loaded.
#[derive(Clone, Debug)]
pub struct WgpuMetadata {
    pub backend: String,
    pub adapter: String,
    pub device: String,
    pub renderer_version: String,
    pub text_engine: String,
    pub font_sha256: String,
    pub generated_shader_modules: usize,
}

/// A frame written out as an image: where, its size and byte length, the
/// digests of the image file and of its pixels, whether it shows anything
/// and how many colours a sample of it holds.
#[derive(Clone, Debug)]
pub struct FrameImageArtifact {
    pub path: String,
    pub width: u32,
    pub height: u32,
    pub byte_len: usize,
    pub png_sha256: String,
    pub rgba_hash: String,
    pub nonblank: bool,
    pub distinct_sampled_colors: usize,
}

/// A frame of RGBA pixels, row after row.
#[derive(Clone, Debug)]
pub struct RgbaFrame {
    pub width: u32,
    pub height: u32,
    pub rgba: Vec<u8>,
}

/// The byte of channel `c` of pixel (`px`, `py`) in a frame of the given
/// width.
pub open spec fn at(width: int, px: int, py: int, c: int) -> int {
    (py * width + px) * 4 + c
}

/// A frame size whose byte indices fit in `u32`, as the rasteriser
/// computes them.
pub open spec fn frame_fits(width: u32, height: u32) -> bool {
    width * height * 4 <= u32::MAX
}

/// Whether (`px`, `py`) lies in the rectangle at (`x`, `y`) of size `w` x `h`.
pub open spec fn in_rect(px: int, py: int, x: int, y: int, w: int, h: int) -> bool {
    x <= px < x + w && y <= py < y + h
}

/// `after` is `before` with the pixels that `cover` holds of painted in
/// `color`, every other pixel unchanged.
pub open spec fn painted(
    before: Seq<u8>,
    after: Seq<u8>,
    width: u32,
    height: u32,
    cover: spec_fn(int, int) -> bool,
    color: [u8; 4],
) -> bool {
    &&& after.len() == before.len()
    &&& forall|px: int, py: int, c: int|
        0 <= px < width && 0 <= py < height && 0 <= c < 4 ==> after[#[trigger] at(
            width as int,
            px,
            py,
            c,
        )] == if cover(px, py) {
            color@[c]
        } else {
            before[at(width as int, px, py, c)]
        }
}

proof fn lemma_at_bounds(width: int, height: int, px: int, py: int, c: int)
    requires
        0 <= px < width,
        0 <= py < height,
        0 <= c < 4,
    ensures
        0 <= py * width + px < width * height,
        0 <= at(width, px, py, c) < width * height * 4,
        at(width, px, py, c) == at(width, px, py, 0) + c,
{
    assert(0 <= py * width + px < width * height) by (nonlinear_arith)
        requires
            0 <= px < width,
            0 <= py < height,
    ;
}

proof fn lemma_at_unique(width: int, px: int, py: int, c: int, qx: int, qy: int, d: int)
    requires
        0 <= px < width,
        0 <= qx < width,
        0 <= py,
        0 <= qy,
        0 <= c < 4,
        0 <= d < 4,
        at(width, px, py, c) == at(width, qx, qy, d),
    ensures
        px == qx,
        py == qy,
        c == d,
{
    let p = py * width + px;
    let q = qy * width + qx;
    assert(p == q && c == d);
    assert(py == qy) by (nonlinear_arith)
        requires
            py * width + px == qy * width + qx,
            0 <= px < width,
            0 <= qx < width,
            0 <= py,
            0 <= qy,
    ;
}

/// Paints pixel (`px`, `py`) in `color`.
fn set_pixel(rgba: &mut Vec<u8>, width: u32, height: u32, px: u32, py: u32, color: [u8; 4])
    requires
        old(rgba)@.len() == width * height * 4,
        frame_fits(width, height),
        px < width,
        py < height,
    ensures
        painted(old(rgba)@, final(rgba)@, width, height, |qx: int, qy: int| qx == px && qy == py, color),
{
    proof {
        lemma_at_bounds(width as int, height as int, px as int, py as int, 3);
    }
    let base = ((py * width + px) * 4) as usize;
    rgba.set(base, color[0]);
    rgba.set(base + 1, color[1]);
    rgba.set(base + 2, color[2]);
    rgba.set(base + 3, color[3]);
    proof {
        assert forall|qx: int, qy: int, c: int|
            0 <= qx < width && 0 <= qy < height && 0 <= c < 4 implies rgba@[#[trigger] at(
                width as int,
                qx,
                qy,
                c,
            )] == if qx == px && qy == py {
                color@[c]
            } else {
                old(rgba)@[at(width as int, qx, qy, c)]
            } by {
            lemma_at_bounds(width as int, height as int, qx, qy, c);
            let i = at(width as int, qx, qy, c);
            if qx == px && qy == py {
                assert(i == base + c);
            } else {
                if base <= i < base + 4 {
                    lemma_at_unique(width as int, qx, qy, c, px as int, py as int, i - base);
                }
            }
        }
    }
}

/// Paints the rectangle at (`x`, `y`) of size `w` x `h`, clipped to the
/// frame.
pub fn draw_rect(rgba: &mut Vec<u8>, width: u32, height: u32, x: u32, y: u32, w: u32, h: u32, color: [u8; 4])
    requires
        old(rgba)@.len() == width * height * 4,
        frame_fits(width, height),
    ensures
        painted(old(rgba)@, final(rgba)@, width, height, |px: int, py: int| in_rect(px, py, x as int, y as int, w as int, h as int), color),
{
    let x1 = if x.saturating_add(w) < width { x.saturating_add(w) } else { width };
    let y1 = if y.saturating_add(h) < height { y.saturating_add(h) } else { height };
    let x0 = if x < width { x } else { width };
    let mut py = if y < height { y } else { height };
    let ghost before = rgba@;
    while py < y1
        invariant
            rgba@.len() == width * height * 4,
            before.len() == width * height * 4,
            frame_fits(width, height),
            x0 == (if x < width { x } else { width }),
            x1 == (if x.saturating_add(w) < width { x.saturating_add(w) } else { width }),
            y1 == (if y.saturating_add(h) < height { y.saturating_add(h) } else { height }),
            y1 <= height,
            py >= y || py == height,
            forall|qx: int, qy: int, c: int|
                0 <= qx < width && 0 <= qy < height && 0 <= c < 4 ==> rgba@[#[trigger] at(
                    width as int,
                    qx,
                    qy,
                    c,
                )] == if in_rect(qx, qy, x as int, y as int, w as int, h as int) && qy < py {
                    color@[c]
                } else {
                    before[at(width as int, qx, qy, c)]
                },
        decreases y1 - py,
    {
        let mut px = x0;
        while px < x1
            invariant
                rgba@.len() == width * height * 4,
                before.len() == width * height * 4,
                frame_fits(width, height),
                x0 == (if x < width { x } else { width }),
                x1 == (if x.saturating_add(w) < width { x.saturating_add(w) } else { width }),
                y1 == (if y.saturating_add(h) < height { y.saturating_add(h) } else { height }),
                py < y1 <= height,
                py >= y,
                x0 <= px,
                forall|qx: int, qy: int, c: int|
                    0 <= qx < width && 0 <= qy < height && 0 <= c < 4 ==> rgba@[#[trigger] at(
                        width as int,
                        qx,
                        qy,
                        c,
                    )] == if in_rect(qx, qy, x as int, y as int, w as int, h as int) && (qy < py || (
                    qy == py && qx < px)) {
                        color@[c]
                    } else {
                        before[at(width as int, qx, qy, c)]
                    },
            decreases x1 - px,
        {
            set_pixel(rgba, width, height, px, py, color);
            px = px + 1;
        }
        py = py + 1;
    }
}

/// Two paintings in one colour make one painting of the pixels either
/// covers.
proof fn lemma_painted_chain(
    a: Seq<u8>,
    b: Seq<u8>,
    c: Seq<u8>,
    width: u32,
    height: u32,
    first: spec_fn(int, int) -> bool,
    second: spec_fn(int, int) -> bool,
    color: [u8; 4],
)
    requires
        painted(a, b, width, height, first, color),
        painted(b, c, width, height, second, color),
    ensures
        painted(a, c, width, height, |px: int, py: int| first(px, py) || second(px, py), color),
{
    assert forall|px: int, py: int, k: int|
        0 <= px < width && 0 <= py < height && 0 <= k < 4 implies c[#[trigger] at(
            width as int,
            px,
            py,
            k,
        )] == if first(px, py) || second(px, py) {
            color@[k]
        } else {
            a[at(width as int, px, py, k)]
        } by {
        assert(b[at(width as int, px, py, k)] == if first(px, py) {
            color@[k]
        } else {
            a[at(width as int, px, py, k)]
        });
    }
}

/// The pixels of the one-pixel outline of the rectangle at (`x`, `y`) of
/// size `w` x `h`: its top, bottom, left and right edges.
pub open spec fn outline_cover(px: int, py: int, x: u32, y: u32, w: u32, h: u32) -> bool {
    ||| in_rect(px, py, x as int, y as int, w as int, 1)
    ||| in_rect(px, py, x as int, y.saturating_add(h).saturating_sub(1) as int, w as int, 1)
    ||| in_rect(px, py, x as int, y as int, 1, h as int)
    ||| in_rect(px, py, x.saturating_add(w).saturating_sub(1) as int, y as int, 1, h as int)
}

/// Paints the one-pixel outline of the rectangle at (`x`, `y`) of size
/// `w` x `h`.
pub fn draw_rect_outline(rgba: &mut Vec<u8>, width: u32, height: u32, x: u32, y: u32, w: u32, h: u32, color: [u8; 4])
    requires
        old(rgba)@.len() == width * height * 4,
        frame_fits(width, height),
    ensures
        painted(old(rgba)@, final(rgba)@, width, height, |px: int, py: int| outline_cover(px, py, x, y, w, h), color),
{
    let ghost s0 = rgba@;
    draw_rect(rgba, width, height, x, y, w, 1, color);
    let ghost s1 = rgba@;
    draw_rect(rgba, width, height, x, y.saturating_add(h).saturating_sub(1), w, 1, color);
    let ghost s2 = rgba@;
    draw_rect(rgba, width, height, x, y, 1, h, color);
    let ghost s3 = rgba@;
    draw_rect(rgba, width, height, x.saturating_add(w).saturating_sub(1), y, 1, h, color);
    proof {
        let c1 = |px: int, py: int| in_rect(px, py, x as int, y as int, w as int, 1);
        let c2 = |px: int, py: int| in_rect(px, py, x as int, y.saturating_add(h).saturating_sub(1) as int, w as int, 1);
        let c3 = |px: int, py: int| in_rect(px, py, x as int, y as int, 1, h as int);
        let c4 = |px: int, py: int| in_rect(px, py, x.saturating_add(w).saturating_sub(1) as int, y as int, 1, h as int);
        lemma_painted_chain(s0, s1, s2, width, height, c1, c2, color);
        let c12 = |px: int, py: int| c1(px, py) || c2(px, py);
        lemma_painted_chain(s0, s2, s3, width, height, c12, c3, color);
        let c123 = |px: int, py: int| c12(px, py) || c3(px, py);
        lemma_painted_chain(s0, s3, rgba@, width, height, c123, c4, color);
        let all = |px: int, py: int| c123(px, py) || c4(px, py);
        assert forall|px: int, py: int| #[trigger] all(px, py) == outline_cover(px, py, x, y, w, h) by {}
        assert(all =~= (|px: int, py: int| outline_cover(px, py, x, y, w, h)));
    }
}

/// The 5x7 bitmap font: seven rows per character, top first, each the
/// bits of five columns with the leftmost column as the highest bit. A
/// lowercase letter draws as its capital; a character without a glyph
/// draws as a box with a question mark.
pub open spec fn glyph_bits(ch: char) -> Seq<u8> {
    match ch {
        'A' | 'a' => seq![14u8, 17, 17, 31, 17, 17, 17],
        'B' | 'b' => seq![30u8, 17, 17, 30, 17, 17, 30],
        'C' | 'c' => seq![15u8, 16, 16, 16, 16, 16, 15],
        'D' | 'd' => seq![30u8, 17, 17, 17, 17, 17, 30],
        'E' | 'e' => seq![31u8, 16, 16, 30, 16, 16, 31],
        'F' | 'f' => seq![31u8, 16, 16, 30, 16, 16, 16],
        'G' | 'g' => seq![15u8, 16, 16, 19, 17, 17, 14],
        'H' | 'h' => seq![17u8, 17, 17, 31, 17, 17, 17],
        'I' | 'i' => seq![31u8, 4, 4, 4, 4, 4, 31],
        'J' | 'j' => seq![7u8, 2, 2, 2, 18, 18, 12],
        'K' | 'k' => seq![17u8, 18, 20, 24, 20, 18, 17],
        'L' | 'l' => seq![16u8, 16, 16, 16, 16, 16, 31],
        'M' | 'm' => seq![17u8, 27, 21, 21, 17, 17, 17],
        'N' | 'n' => seq![17u8, 25, 21, 19, 17, 17, 17],
        'O' | 'o' => seq![14u8, 17, 17, 17, 17, 17, 14],
        'P' | 'p' => seq![30u8, 17, 17, 30, 16, 16, 16],
        'Q' | 'q' => seq![14u8, 17, 17, 17, 21, 18, 13],
        'R' | 'r' => seq![30u8, 17, 17, 30, 20, 18, 17],
        'S' | 's' => seq![15u8, 16, 16, 14, 1, 1, 30],
        'T' | 't' => seq![31u8, 4, 4, 4, 4, 4, 4],
        'U' | 'u' => seq![17u8, 17, 17, 17, 17, 17, 14],
        'V' | 'v' => seq![17u8, 17, 17, 17, 17, 10, 4],
        'W' | 'w' => seq![17u8, 17, 17, 21, 21, 21, 10],
        'X' | 'x' => seq![17u8, 17, 10, 4, 10, 17, 17],
        'Y' | 'y' => seq![17u8, 17, 10, 4, 4, 4, 4],
        'Z' | 'z' => seq![31u8, 1, 2, 4, 8, 16, 31],
        '0' => seq![14u8, 17, 19, 21, 25, 17, 14],
        '1' => seq![4u8, 12, 4, 4, 4, 4, 14],
        '2' => seq![14u8, 17, 1, 2, 4, 8, 31],
        '3' => seq![30u8, 1, 1, 14, 1, 1, 30],
        '4' => seq![2u8, 6, 10, 18, 31, 2, 2],
        '5' => seq![31u8, 16, 16, 30, 1, 1, 30],
        '6' => seq![14u8, 16, 16, 30, 17, 17, 14],
        '7' => seq![31u8, 1, 2, 4, 8, 8, 8],
        '8' => seq![14u8, 17, 17, 14, 17, 17, 14],
        '9' => seq![14u8, 17, 17, 15, 1, 1, 14],
        '-' => seq![0u8, 0, 0, 31, 0, 0, 0],
        '_' => seq![0u8, 0, 0, 0, 0, 0, 31],
        '=' => seq![0u8, 31, 0, 31, 0, 0, 0],
        '+' => seq![0u8, 4, 4, 31, 4, 4, 0],
        ':' => seq![0u8, 4, 4, 0, 4, 4, 0],
        '.' => seq![0u8, 0, 0, 0, 0, 12, 12],
        ',' => seq![0u8, 0, 0, 0, 4, 4, 8],
        '/' => seq![1u8, 2, 2, 4, 8, 8, 16],
        '\\' => seq![16u8, 8, 8, 4, 2, 2, 1],
        '(' => seq![2u8, 4, 8, 8, 8, 4, 2],
        ')' => seq![8u8, 4, 2, 2, 2, 4, 8],
        '[' => seq![14u8, 8, 8, 8, 8, 8, 14],
        ']' => seq![14u8, 2, 2, 2, 2, 2, 14],
        '#' => seq![10u8, 31, 10, 10, 31, 10, 0],
        '*' => seq![0u8, 21, 14, 31, 14, 21, 0],
        '|' => seq![4u8, 4, 4, 4, 4, 4, 4],
        '<' => seq![2u8, 4, 8, 16, 8, 4, 2],
        '>' => seq![8u8, 4, 2, 1, 2, 4, 8],
        '!' => seq![4u8, 4, 4, 4, 4, 0, 4],
        '?' => seq![14u8, 17, 1, 2, 4, 0, 4],
        '\'' => seq![4u8, 4, 8, 0, 0, 0, 0],
        '"' => seq![10u8, 10, 10, 0, 0, 0, 0],
        _ => seq![31u8, 17, 2, 4, 4, 0, 4],
    }
}

/// The rows of the glyph of `ch`.
fn glyph_rows(ch: char) -> (r: [u8; 7])
    ensures
        r@ == glyph_bits(ch),
{
    match ch {
        'A' | 'a' => [14, 17, 17, 31, 17, 17, 17],
        'B' | 'b' => [30, 17, 17, 30, 17, 17, 30],
        'C' | 'c' => [15, 16, 16, 16, 16, 16, 15],
        'D' | 'd' => [30, 17, 17, 17, 17, 17, 30],
        'E' | 'e' => [31, 16, 16, 30, 16, 16, 31],
        'F' | 'f' => [31, 16, 16, 30, 16, 16, 16],
        'G' | 'g' => [15, 16, 16, 19, 17, 17, 14],
        'H' | 'h' => [17, 17, 17, 31, 17, 17, 17],
        'I' | 'i' => [31, 4, 4, 4, 4, 4, 31],
        'J' | 'j' => [7, 2, 2, 2, 18, 18, 12],
        'K' | 'k' => [17, 18, 20, 24, 20, 18, 17],
        'L' | 'l' => [16, 16, 16, 16, 16, 16, 31],
        'M' | 'm' => [17, 27, 21, 21, 17, 17, 17],
        'N' | 'n' => [17, 25, 21, 19, 17, 17, 17],
        'O' | 'o' => [14, 17, 17, 17, 17, 17, 14],
        'P' | 'p' => [30, 17, 17, 30, 16, 16, 16],
        'Q' | 'q' => [14, 17, 17, 17, 21, 18, 13],
        'R' | 'r' => [30, 17, 17, 30, 20, 18, 17],
        'S' | 's' => [15, 16, 16, 14, 1, 1, 30],
        'T' | 't' => [31, 4, 4, 4, 4, 4, 4],
        'U' | 'u' => [17, 17, 17, 17, 17, 17, 14],
        'V' | 'v' => [17, 17, 17, 17, 17, 10, 4],
        'W' | 'w' => [17, 17, 17, 21, 21, 21, 10],
        'X' | 'x' => [17, 17, 10, 4, 10, 17, 17],
        'Y' | 'y' => [17, 17, 10, 4, 4, 4, 4],
        'Z' | 'z' => [31, 1, 2, 4, 8, 16, 31],
        '0' => [14, 17, 19, 21, 25, 17, 14],
        '1' => [4, 12, 4, 4, 4, 4, 14],
        '2' => [14, 17, 1, 2, 4, 8, 31],
        '3' => [30, 1, 1, 14, 1, 1, 30],
        '4' => [2, 6, 10, 18, 31, 2, 2],
        '5' => [31, 16, 16, 30, 1, 1, 30],
        '6' => [14, 16, 16, 30, 17, 17, 14],
        '7' => [31, 1, 2, 4, 8, 8, 8],
        '8' => [14, 17, 17, 14, 17, 17, 14],
        '9' => [14, 17, 17, 15, 1, 1, 14],
        '-' => [0, 0, 0, 31, 0, 0, 0],
        '_' => [0, 0, 0, 0, 0, 0, 31],
        '=' => [0, 31, 0, 31, 0, 0, 0],
        '+' => [0, 4, 4, 31, 4, 4, 0],
        ':' => [0, 4, 4, 0, 4, 4, 0],
        '.' => [0, 0, 0, 0, 0, 12, 12],
        ',' => [0, 0, 0, 0, 4, 4, 8],
        '/' => [1, 2, 2, 4, 8, 8, 16],
        '\\' => [16, 8, 8, 4, 2, 2, 1],
        '(' => [2, 4, 8, 8, 8, 4, 2],
        ')' => [8, 4, 2, 2, 2, 4, 8],
        '[' => [14, 8, 8, 8, 8, 8, 14],
        ']' => [14, 2, 2, 2, 2, 2, 14],
        '#' => [10, 31, 10, 10, 31, 10, 0],
        '*' => [0, 21, 14, 31, 14, 21, 0],
        '|' => [4, 4, 4, 4, 4, 4, 4],
        '<' => [2, 4, 8, 16, 8, 4, 2],
        '>' => [8, 4, 2, 1, 2, 4, 8],
        '!' => [4, 4, 4, 4, 4, 0, 4],
        '?' => [14, 17, 1, 2, 4, 0, 4],
        '\'' => [4, 4, 8, 0, 0, 0, 0],
        '"' => [10, 10, 10, 0, 0, 0, 0],
        _ => [31, 17, 2, 4, 4, 0, 4],
    }
}

/// Whether column `col` (0 to 4, left to right) of a glyph row is set.
pub open spec fn bit_on(row: u8, col: int) -> bool {
    if col == 0 {
        (row / 16) % 2 == 1
    } else if col == 1 {
        (row / 8) % 2 == 1
    } else if col == 2 {
        (row / 4) % 2 == 1
    } else if col == 3 {
        (row / 2) % 2 == 1
    } else {
        row % 2 == 1
    }
}

fn row_bit(row: u8, col: u32) -> (r: bool)
    requires
        col < 5,
    ensures
        r == bit_on(row, col as int),
{
    if col == 0 {
        (row / 16) % 2 == 1
    } else if col == 1 {
        (row / 8) % 2 == 1
    } else if col == 2 {
        (row / 4) % 2 == 1
    } else if col == 3 {
        (row / 2) % 2 == 1
    } else {
        row % 2 == 1
    }
}

/// Whether cell `i` of a glyph (row `i / 5`, column `i % 5`), drawn at
/// (`x`, `y`) with cells of `scale` pixels, is set and covers the pixel.
pub open spec fn cell_cover(bits: Seq<u8>, i: int, x: int, y: int, scale: int, px: int, py: int) -> bool {
    bit_on(bits[i / 5], i % 5) && in_rect(px, py, x + (i % 5) * scale, y + (i / 5) * scale, scale, scale)
}

/// Whether one of the first `n` cells of a glyph covers the pixel.
pub open spec fn cells_cover(bits: Seq<u8>, n: int, x: int, y: int, scale: int, px: int, py: int) -> bool
    decreases n,
{
    if n <= 0 {
        false
    } else {
        cells_cover(bits, n - 1, x, y, scale, px, py) || cell_cover(bits, n - 1, x, y, scale, px, py)
    }
}

/// The pixels of the glyph of `ch` drawn at (`x`, `y`) with cells of
/// `scale` pixels; a space draws nothing.
pub open spec fn glyph_cover(ch: char, x: int, y: int, scale: int, px: int, py: int) -> bool {
    ch != ' ' && cells_cover(glyph_bits(ch), 35, x, y, scale, px, py)
}

/// Paints the glyph of `ch` at (`x`, `y`), each font cell a square of
/// `scale` pixels.
fn draw_glyph(rgba: &mut Vec<u8>, width: u32, height: u32, x: u32, y: u32, scale: u32, ch: char, color: [u8; 4])
    requires
        old(rgba)@.len() == width * height * 4,
        frame_fits(width, height),
        x + 4 * scale <= u32::MAX,
        y + 6 * scale <= u32::MAX,
    ensures
        painted(old(rgba)@, final(rgba)@, width, height, |px: int, py: int| glyph_cover(ch, x as int, y as int, scale as int, px, py), color),
{
    let ghost before = rgba@;
    if ch == ' ' {
        assert(painted(before, rgba@, width, height, |px: int, py: int| glyph_cover(ch, x as int, y as int, scale as int, px, py), color));
        return;
    }
    let rows = glyph_rows(ch);
    let mut i: u32 = 0;
    while i < 35
        invariant
            i <= 35,
            rows@ == glyph_bits(ch),
            rows@.len() == 7,
            ch != ' ',
            rgba@.len() == width * height * 4,
            frame_fits(width, height),
            x + 4 * scale <= u32::MAX,
            y + 6 * scale <= u32::MAX,
            painted(before, rgba@, width, height, |px: int, py: int| cells_cover(glyph_bits(ch), i as int, x as int, y as int, scale as int, px, py), color),
        decreases 35 - i,
    {
        let row = i / 5;
        let col = i % 5;
        let ghost mid = rgba@;
        let ghost upto = |px: int, py: int| cells_cover(glyph_bits(ch), i as int, x as int, y as int, scale as int, px, py);
        let ghost cell = |px: int, py: int| cell_cover(glyph_bits(ch), i as int, x as int, y as int, scale as int, px, py);
        let ghost next = |px: int, py: int| cells_cover(glyph_bits(ch), i + 1, x as int, y as int, scale as int, px, py);
        if row_bit(rows[row as usize], col) {
            assert(col * scale <= 4 * scale) by (nonlinear_arith)
                requires
                    col <= 4,
            ;
            assert(row * scale <= 6 * scale) by (nonlinear_arith)
                requires
                    row <= 6,
            ;
            draw_rect(rgba, width, height, x + col * scale, y + row * scale, scale, scale, color);
            proof {
                lemma_painted_chain(before, mid, rgba@, width, height, upto, |px: int, py: int| in_rect(px, py, (x + col * scale) as int, (y + row * scale) as int, scale as int, scale as int), color);
                assert forall|px: int, py: int| #[trigger] next(px, py) == (upto(px, py) || in_rect(px, py, (x + col * scale) as int, (y + row * scale) as int, scale as int, scale as int)) by {}
                assert(next =~= (|px: int, py: int| upto(px, py) || in_rect(px, py, (x + col * scale) as int, (y + row * scale) as int, scale as int, scale as int)));
            }
        } else {
            proof {
                assert forall|px: int, py: int| #[trigger] next(px, py) == upto(px, py) by {}
                assert(next =~= upto);
            }
        }
        i = i + 1;
    }
}

/// Where the `i`-th character of a text starting at `x` is drawn: each
/// character moves the cursor `step` pixels right, saturating.
pub open spec fn text_cursor(x: u32, step: u32, i: nat) -> u32
    decreases i,
{
    if i == 0 {
        x
    } else {
        text_cursor(x, step, (i - 1) as nat).saturating_add(step)
    }
}

/// How many characters of the text are drawn, looking from the `i`-th on:
/// drawing stops after the first character whose following cursor reaches
/// `limit`.
pub open spec fn text_drawn(chars: Seq<char>, x: u32, step: u32, limit: u32, i: nat) -> nat
    decreases chars.len() - i,
{
    if i >= chars.len() {
        chars.len()
    } else if text_cursor(x, step, i + 1) >= limit {
        i + 1
    } else {
        text_drawn(chars, x, step, limit, i + 1)
    }
}

/// Whether one of the first `n` glyphs of the text covers the pixel.
pub open spec fn glyphs_cover(chars: Seq<char>, n: nat, x: u32, y: u32, scale: u32, px: int, py: int) -> bool
    decreases n,
{
    if n == 0 {
        false
    } else {
        glyphs_cover(chars, (n - 1) as nat, x, y, scale, px, py) || glyph_cover(
            chars[n - 1],
            text_cursor(x, (6 * scale) as u32, (n - 1) as nat) as int,
            y as int,
            scale as int,
            px,
            py,
        )
    }
}

/// The pixels of a text drawn at (`x`, `y`) in a frame of the given width:
/// glyphs six cells apart, until the cursor comes within twelve cells of
/// the right edge.
pub open spec fn text_cover(chars: Seq<char>, x: u32, y: u32, scale: u32, width: u32, px: int, py: int) -> bool {
    glyphs_cover(
        chars,
        text_drawn(chars, x, (6 * scale) as u32, width.saturating_sub((12 * scale) as u32), 0),
        x,
        y,
        scale,
        px,
        py,
    )
}

/// Paints `text` at (`x`, `y`) in the bitmap font at the given scale.
pub fn draw_text(rgba: &mut Vec<u8>, width: u32, height: u32, x: u32, y: u32, scale: u32, text: &str, color: [u8; 4])
    requires
        old(rgba)@.len() == width * height * 4,
        frame_fits(width, height),
        12 * scale <= u32::MAX,
        text@.len() > 0 ==> x + 4 * scale <= u32::MAX,
        y + 6 * scale <= u32::MAX,
    ensures
        painted(old(rgba)@, final(rgba)@, width, height, |px: int, py: int| text_cover(text@, x, y, scale, width, px, py), color),
{
    let chars = crate::text::chars_of(text);
    let step = 6 * scale;
    let limit = width.saturating_sub(12 * scale);
    let ghost before = rgba@;
    let mut cursor = x;
    let mut i: usize = 0;
    while i < chars.len()
        invariant_except_break
            i > 0 ==> cursor < limit,
            text_drawn(chars@, x, step, limit, 0) == text_drawn(chars@, x, step, limit, i as nat),
        invariant
            chars@ == text@,
            step == 6 * scale,
            limit == width.saturating_sub((12 * scale) as u32),
            12 * scale <= u32::MAX,
            y + 6 * scale <= u32::MAX,
            i <= chars@.len(),
            cursor == text_cursor(x, step, i as nat),
            i == 0 ==> chars@.len() == 0 || x + 4 * scale <= u32::MAX,
            rgba@.len() == width * height * 4,
            frame_fits(width, height),
            painted(before, rgba@, width, height, |px: int, py: int| glyphs_cover(chars@, i as nat, x, y, scale, px, py), color),
        ensures
            text_drawn(chars@, x, step, limit, 0) == i,
        decreases chars.len() - i,
    {
        let ghost mid = rgba@;
        proof {
            if i > 0 {
                assert(cursor + 4 * scale <= u32::MAX);
            }
        }
        draw_glyph(rgba, width, height, cursor, y, scale, chars[i], color);
        proof {
            let upto = |px: int, py: int| glyphs_cover(chars@, i as nat, x, y, scale, px, py);
            let glyph = |px: int, py: int| glyph_cover(chars@[i as int], cursor as int, y as int, scale as int, px, py);
            lemma_painted_chain(before, mid, rgba@, width, height, upto, glyph, color);
            let next = |px: int, py: int| glyphs_cover(chars@, (i + 1) as nat, x, y, scale, px, py);
            assert forall|px: int, py: int| #[trigger] next(px, py) == (upto(px, py) || glyph(px, py)) by {}
            assert(next =~= (|px: int, py: int| upto(px, py) || glyph(px, py)));
        }
        cursor = cursor.saturating_add(step);
        i = i + 1;
        if cursor >= limit {
            proof {
                assert(text_drawn(chars@, x, step, limit, (i - 1) as nat) == i);
            }
            break;
        }
    }
    proof {
        let done = |px: int, py: int| glyphs_cover(chars@, i as nat, x, y, scale, px, py);
        let want = |px: int, py: int| text_cover(text@, x, y, scale, width, px, py);
        assert(done =~= want);
    }
}

// ---------------------------------------------------------------------------
// Scenes: shapes painted in order
// ---------------------------------------------------------------------------

/// The colour byte a pixel shows after a sequence of shapes, each a cover
/// and a colour: the colour of the last shape that covers the pixel, else
/// the byte it had.
pub open spec fn scene_pixel(b: u8, ops: Seq<(spec_fn(int, int) -> bool, [u8; 4])>, px: int, py: int, c: int) -> u8
    decreases ops.len(),
{
    if ops.len() == 0 {
        b
    } else if (ops.last().0)(px, py) {
        ops.last().1@[c]
    } else {
        scene_pixel(b, ops.drop_last(), px, py, c)
    }
}

/// `after` is `before` with the shapes painted in order.
pub open spec fn scene_painted(
    before: Seq<u8>,
    after: Seq<u8>,
    width: u32,
    height: u32,
    ops: Seq<(spec_fn(int, int) -> bool, [u8; 4])>,
) -> bool {
    &&& after.len() == before.len()
    &&& forall|px: int, py: int, c: int|
        0 <= px < width && 0 <= py < height && 0 <= c < 4 ==> after[#[trigger] at(
            width as int,
            px,
            py,
            c,
        )] == scene_pixel(before[at(width as int, px, py, c)], ops, px, py, c)
}

/// A filled rectangle.
pub open spec fn rect_op(x: u32, y: u32, w: u32, h: u32, color: [u8; 4]) -> (spec_fn(int, int) -> bool, [u8; 4]) {
    (|px: int, py: int| in_rect(px, py, x as int, y as int, w as int, h as int), color)
}

/// A one-pixel rectangle outline.
pub open spec fn outline_op(x: u32, y: u32, w: u32, h: u32, color: [u8; 4]) -> (spec_fn(int, int) -> bool, [u8; 4]) {
    (|px: int, py: int| outline_cover(px, py, x, y, w, h), color)
}

/// A text in the bitmap font, in a frame of the given width.
pub open spec fn text_op(x: u32, y: u32, scale: u32, text: Seq<char>, width: u32, color: [u8; 4]) -> (spec_fn(int, int) -> bool, [u8; 4]) {
    (|px: int, py: int| text_cover(text, x, y, scale, width, px, py), color)
}

proof fn lemma_scene_start(s: Seq<u8>, width: u32, height: u32)
    ensures
        scene_painted(s, s, width, height, Seq::empty()),
{
}

proof fn lemma_scene_step(
    base: Seq<u8>,
    mid: Seq<u8>,
    after: Seq<u8>,
    width: u32,
    height: u32,
    ops: Seq<(spec_fn(int, int) -> bool, [u8; 4])>,
    op: (spec_fn(int, int) -> bool, [u8; 4]),
)
    requires
        scene_painted(base, mid, width, height, ops),
        painted(mid, after, width, height, op.0, op.1),
    ensures
        scene_painted(base, after, width, height, ops.push(op)),
{
    assert forall|px: int, py: int, c: int|
        0 <= px < width && 0 <= py < height && 0 <= c < 4 implies after[#[trigger] at(
            width as int,
            px,
            py,
            c,
        )] == scene_pixel(base[at(width as int, px, py, c)], ops.push(op), px, py, c) by {
        assert(ops.push(op).drop_last() =~= ops);
        assert(mid[at(width as int, px, py, c)] == scene_pixel(base[at(width as int, px, py, c)], ops, px, py, c));
    }
}

/// Paints a rectangle as the next shape of a scene.
fn scene_rect(
    rgba: &mut Vec<u8>,
    width: u32,
    height: u32,
    x: u32,
    y: u32,
    w: u32,
    h: u32,
    color: [u8; 4],
    Ghost(base): Ghost<Seq<u8>>,
    Ghost(ops): Ghost<Seq<(spec_fn(int, int) -> bool, [u8; 4])>>,
)
    requires
        old(rgba)@.len() == width * height * 4,
        frame_fits(width, height),
        scene_painted(base, old(rgba)@, width, height, ops),
    ensures
        final(rgba)@.len() == width * height * 4,
        scene_painted(base, final(rgba)@, width, height, ops.push(rect_op(x, y, w, h, color))),
{
    let ghost mid = rgba@;
    draw_rect(rgba, width, height, x, y, w, h, color);
    proof {
        lemma_scene_step(base, mid, rgba@, width, height, ops, rect_op(x, y, w, h, color));
    }
}

/// Paints a rectangle outline as the next shape of a scene.
fn scene_outline(
    rgba: &mut Vec<u8>,
    width: u32,
    height: u32,
    x: u32,
    y: u32,
    w: u32,
    h: u32,
    color: [u8; 4],
    Ghost(base): Ghost<Seq<u8>>,
    Ghost(ops): Ghost<Seq<(spec_fn(int, int) -> bool, [u8; 4])>>,
)
    requires
        old(rgba)@.len() == width * height * 4,
        frame_fits(width, height),
        scene_painted(base, old(rgba)@, width, height, ops),
    ensures
        final(rgba)@.len() == width * height * 4,
        scene_painted(base, final(rgba)@, width, height, ops.push(outline_op(x, y, w, h, color))),
{
    let ghost mid = rgba@;
    draw_rect_outline(rgba, width, height, x, y, w, h, color);
    proof {
        lemma_scene_step(base, mid, rgba@, width, height, ops, outline_op(x, y, w, h, color));
    }
}

/// Paints a text as the next shape of a scene.
fn scene_text(
    rgba: &mut Vec<u8>,
    width: u32,
    height: u32,
    x: u32,
    y: u32,
    scale: u32,
    text: &str,
    color: [u8; 4],
    Ghost(base): Ghost<Seq<u8>>,
    Ghost(ops): Ghost<Seq<(spec_fn(int, int) -> bool, [u8; 4])>>,
)
    requires
        old(rgba)@.len() == width * height * 4,
        frame_fits(width, height),
        12 * scale <= u32::MAX,
        text@.len() > 0 ==> x + 4 * scale <= u32::MAX,
        y + 6 * scale <= u32::MAX,
        scene_painted(base, old(rgba)@, width, height, ops),
    ensures
        final(rgba)@.len() == width * height * 4,
        scene_painted(base, final(rgba)@, width, height, ops.push(text_op(x, y, scale, text@, width, color))),
{
    let ghost mid = rgba@;
    draw_text(rgba, width, height, x, y, scale, text, color);
    proof {
        lemma_scene_step(base, mid, rgba@, width, height, ops, text_op(x, y, scale, text@, width, color));
    }
}

// ---------------------------------------------------------------------------
// Example previews
// ---------------------------------------------------------------------------

/// The value of the first line of the frame text that starts with
/// `prefix`, or `fallback`.
pub open spec fn value_or(lines: Seq<Seq<char>>, prefix: Seq<char>, fallback: Seq<char>) -> Seq<char> {
    match line_value(lines, prefix) {
        Some(v) => v,
        None => fallback,
    }
}

fn line_value_or(lines: &Vec<Vec<char>>, prefix: &str, fallback: &str) -> (r: String)
    ensures
        r@ == value_or(lines@.map_values(|l: Vec<char>| l@), prefix@, fallback@),
{
    match find_line_value(lines, prefix) {
        Some(v) => string_of(&v),
        None => fallback.to_string(),
    }
}

/// A preview box that leaves room for its drawings inside `u32`.
pub open spec fn box_fits(x: u32, y: u32, w: u32, h: u32) -> bool {
    x + w + 2000 <= u32::MAX && y + h + 2000 <= u32::MAX
}

/// The counter preview: an `Increment` button with its shadow, and the
/// count under it.
pub open spec fn counter_scene(width: u32, x: u32, y: u32, w: u32, h: u32, count: Seq<char>) -> Seq<(spec_fn(int, int) -> bool, [u8; 4])> {
    let bx = (x + w / 2 - 110) as u32;
    let by = (y + h / 2 - 48) as u32;
    seq![
        rect_op(x, y, w, h, [238u8, 244, 248, 255]),
        rect_op((bx + 5) as u32, (by + 6) as u32, 220, 82, [190u8, 202, 210, 255]),
        rect_op(bx, by, 220, 82, [55u8, 130, 150, 255]),
        outline_op(bx, by, 220, 82, [34u8, 92, 110, 255]),
        text_op((bx + 38) as u32, (by + 30) as u32, 3, "Increment"@, width, [245u8, 252, 255, 255]),
        text_op((bx + 70) as u32, (by + 116) as u32, 4, count, width, [26u8, 42, 50, 255]),
    ]
}

/// Paints the counter preview in the box at (`x`, `y`) of size `w` x `h`.
fn draw_counter_preview(
    rgba: &mut Vec<u8>,
    width: u32,
    height: u32,
    x: u32,
    y: u32,
    w: u32,
    h: u32,
    lines: &Vec<Vec<char>>,
    Ghost(base): Ghost<Seq<u8>>,
    Ghost(ops): Ghost<Seq<(spec_fn(int, int) -> bool, [u8; 4])>>,
)
    requires
        old(rgba)@.len() == width * height * 4,
        frame_fits(width, height),
        box_fits(x, y, w, h),
        x + w / 2 >= 110,
        y + h / 2 >= 48,
        scene_painted(base, old(rgba)@, width, height, ops),
    ensures
        final(rgba)@.len() == width * height * 4,
        scene_painted(base, final(rgba)@, width, height, ops + counter_scene(width, x, y, w, h, value_or(lines@.map_values(|l: Vec<char>| l@), "count: "@, "0"@))),
{
    let count = line_value_or(lines, "count: ", "0");
    scene_rect(rgba, width, height, x, y, w, h, [238, 244, 248, 255], Ghost(base), Ghost(ops));
    let ghost o1 = ops.push(rect_op(x, y, w, h, [238u8, 244, 248, 255]));
    let bx = x + w / 2 - 110;
    let by = y + h / 2 - 48;
    scene_rect(rgba, width, height, bx + 5, by + 6, 220, 82, [190, 202, 210, 255], Ghost(base), Ghost(o1));
    let ghost o2 = o1.push(rect_op((bx + 5) as u32, (by + 6) as u32, 220, 82, [190u8, 202, 210, 255]));
    scene_rect(rgba, width, height, bx, by, 220, 82, [55, 130, 150, 255], Ghost(base), Ghost(o2));
    let ghost o3 = o2.push(rect_op(bx, by, 220, 82, [55u8, 130, 150, 255]));
    scene_outline(rgba, width, height, bx, by, 220, 82, [34, 92, 110, 255], Ghost(base), Ghost(o3));
    let ghost o4 = o3.push(outline_op(bx, by, 220, 82, [34u8, 92, 110, 255]));
    scene_text(rgba, width, height, bx + 38, by + 30, 3, "Increment", [245, 252, 255, 255], Ghost(base), Ghost(o4));
    let ghost o5 = o4.push(text_op((bx + 38) as u32, (by + 30) as u32, 3, "Increment"@, width, [245u8, 252, 255, 255]));
    scene_text(rgba, width, height, bx + 70, by + 116, 4, count.as_str(), [26, 42, 50, 255], Ghost(base), Ghost(o5));
    proof {
        let o6 = o5.push(text_op((bx + 70) as u32, (by + 116) as u32, 4, count@, width, [26u8, 42, 50, 255]));
        assert(o6 =~= ops + counter_scene(width, x, y, w, h, count@));
    }
}

/// The interval preview: a title, a white panel with the tick count, and
/// the clock under it.
pub open spec fn interval_scene(width: u32, x: u32, y: u32, w: u32, h: u32, ticks: Seq<char>, ms: Seq<char>) -> Seq<(spec_fn(int, int) -> bool, [u8; 4])> {
    seq![
        rect_op(x, y, w, h, [234u8, 240, 244, 255]),
        text_op((x + 52) as u32, (y + 52) as u32, 4, "Live interval"@, width, [33u8, 67, 82, 255]),
        rect_op((x + 54) as u32, (y + 128) as u32, w.saturating_sub(108), 84, [255u8, 255, 255, 255]),
        outline_op((x + 54) as u32, (y + 128) as u32, w.saturating_sub(108), 84, [190u8, 206, 214, 255]),
        text_op((x + 86) as u32, (y + 160) as u32, 3, "ticks "@ + ticks, width, [40u8, 94, 112, 255]),
        text_op((x + 86) as u32, (y + 232) as u32, 2, ms + " ms"@, width, [98u8, 116, 126, 255]),
    ]
}

/// Paints the interval preview in the box at (`x`, `y`) of size `w` x `h`.
fn draw_interval_preview(
    rgba: &mut Vec<u8>,
    width: u32,
    height: u32,
    x: u32,
    y: u32,
    w: u32,
    h: u32,
    lines: &Vec<Vec<char>>,
    Ghost(base): Ghost<Seq<u8>>,
    Ghost(ops): Ghost<Seq<(spec_fn(int, int) -> bool, [u8; 4])>>,
)
    requires
        old(rgba)@.len() == width * height * 4,
        frame_fits(width, height),
        box_fits(x, y, w, h),
        scene_painted(base, old(rgba)@, width, height, ops),
    ensures
        final(rgba)@.len() == width * height * 4,
        scene_painted(base, final(rgba)@, width, height, ops + interval_scene(
            width,
            x,
            y,
            w,
            h,
            value_or(lines@.map_values(|l: Vec<char>| l@), "ticks: "@, "0"@),
            value_or(lines@.map_values(|l: Vec<char>| l@), "fake_clock_ms: "@, "0"@),
        )),
{
    scene_rect(rgba, width, height, x, y, w, h, [234, 240, 244, 255], Ghost(base), Ghost(ops));
    let ghost o1 = ops.push(rect_op(x, y, w, h, [234u8, 240, 244, 255]));
    let ticks = line_value_or(lines, "ticks: ", "0");
    let ms = line_value_or(lines, "fake_clock_ms: ", "0");
    scene_text(rgba, width, height, x + 52, y + 52, 4, "Live interval", [33, 67, 82, 255], Ghost(base), Ghost(o1));
    let ghost o2 = o1.push(text_op((x + 52) as u32, (y + 52) as u32, 4, "Live interval"@, width, [33u8, 67, 82, 255]));
    let panel_w = w.saturating_sub(108);
    scene_rect(rgba, width, height, x + 54, y + 128, panel_w, 84, [255, 255, 255, 255], Ghost(base), Ghost(o2));
    let ghost o3 = o2.push(rect_op((x + 54) as u32, (y + 128) as u32, panel_w, 84, [255u8, 255, 255, 255]));
    scene_outline(rgba, width, height, x + 54, y + 128, panel_w, 84, [190, 206, 214, 255], Ghost(base), Ghost(o3));
    let ghost o4 = o3.push(outline_op((x + 54) as u32, (y + 128) as u32, panel_w, 84, [190u8, 206, 214, 255]));
    let mut tick_text: Vec<char> = Vec::new();
    push_str(&mut tick_text, "ticks ");
    let tc = chars_of(ticks.as_str());
    push_all(&mut tick_text, &tc);
    let tick_label = string_of(&tick_text);
    scene_text(rgba, width, height, x + 86, y + 160, 3, tick_label.as_str(), [40, 94, 112, 255], Ghost(base), Ghost(o4));
    let ghost o5 = o4.push(text_op((x + 86) as u32, (y + 160) as u32, 3, tick_label@, width, [40u8, 94, 112, 255]));
    let mut ms_text: Vec<char> = chars_of(ms.as_str());
    push_str(&mut ms_text, " ms");
    let ms_label = string_of(&ms_text);
    scene_text(rgba, width, height, x + 86, y + 232, 2, ms_label.as_str(), [98, 116, 126, 255], Ghost(base), Ghost(o5));
    proof {
        let o6 = o5.push(text_op((x + 86) as u32, (y + 232) as u32, 2, ms_label@, width, [98u8, 116, 126, 255]));
        assert(tick_label@ =~= "ticks "@ + ticks@);
        assert(ms_label@ =~= ms@ + " ms"@);
        assert(o6 =~= ops + interval_scene(width, x, y, w, h, ticks@, ms@));
    }
}

/// The title of the frame text: its first line, or `Boon`.
pub open spec fn title_of(lines: Seq<Seq<char>>) -> Seq<char> {
    if lines.len() > 0 {
        lines[0]
    } else {
        "Boon"@
    }
}

/// The title of the current example: the first line of the frame text,
/// or `Boon`.
fn current_example_title(lines: &Vec<Vec<char>>) -> (r: String)
    ensures
        r@ == title_of(lines@.map_values(|l: Vec<char>| l@)),
{
    if lines.len() > 0 {
        string_of(&lines[0])
    } else {
        "Boon".to_string()
    }
}

/// The frame number of a game frame text: the `frame: ` line read as a
/// `u32`, or 0.
pub open spec fn frame_number(lines: Seq<Seq<char>>) -> u32 {
    match line_value(lines, "frame: "@) {
        Some(v) => match parse_u32_spec(v) {
            Some(n) => n,
            None => 0,
        },
        None => 0,
    }
}

fn read_frame_number(lines: &Vec<Vec<char>>) -> (r: u32)
    ensures
        r == frame_number(lines@.map_values(|l: Vec<char>| l@)),
{
    match find_line_value(lines, "frame: ") {
        Some(v) => match parse_u32(&v, 0, v.len()) {
            Some(n) => {
                assert(v@.subrange(0, v@.len() as int) =~= v@);
                n
            },
            None => {
                assert(v@.subrange(0, v@.len() as int) =~= v@);
                0
            },
        },
        None => 0,
    }
}

/// The first `n` bricks of the Arkanoid wall, ten to a row: a brick is
/// left out where its row, column and a twelfth of the frame number sum
/// to a multiple of seven.
pub open spec fn brick_ops(ax: u32, ay: u32, frame: u32, n: nat) -> Seq<(spec_fn(int, int) -> bool, [u8; 4])>
    decreases n,
{
    if n == 0 {
        Seq::empty()
    } else {
        let i = n - 1;
        let row = i / 10;
        let col = i % 10;
        brick_ops(ax, ay, frame, (n - 1) as nat) + if (row + col + frame / 12) % 7 != 0 {
            seq![rect_op((ax + 12 + col * 48) as u32, (ay + 20 + row * 22) as u32, 38, 14, [180u8, (92 + row * 24) as u8, 80, 255])]
        } else {
            Seq::empty()
        }
    }
}

/// The Pong court: a centre line and the two paddles, placed by the frame
/// number.
pub open spec fn paddle_ops(ax: u32, ay: u32, aw: u32, ah: u32, frame: u32) -> Seq<(spec_fn(int, int) -> bool, [u8; 4])> {
    let left_span = if ah.saturating_sub(160) > 1 { ah.saturating_sub(160) } else { 1 };
    let right_span = if ah.saturating_sub(180) > 1 { ah.saturating_sub(180) } else { 1 };
    seq![
        rect_op((ax + aw / 2) as u32, (ay + 16) as u32, 2, ah.saturating_sub(32), [52u8, 72, 88, 255]),
        rect_op((ax + 24) as u32, (ay + 88 + (frame * 3) as u32 % left_span) as u32, 12, 84, [210u8, 236, 240, 255]),
        rect_op((ax + aw.saturating_sub(36)) as u32, (ay + 120 + (frame * 2) as u32 % right_span) as u32, 12, 84, [210u8, 236, 240, 255]),
    ]
}

/// The game preview: a dark court under the title, the Arkanoid wall or
/// the Pong paddles, the ball and the player's paddle, and the frame line.
pub open spec fn game_scene(width: u32, x: u32, y: u32, w: u32, h: u32, title: Seq<char>, frame: u32) -> Seq<(spec_fn(int, int) -> bool, [u8; 4])> {
    let ax = (x + 52) as u32;
    let ay = (y + 96) as u32;
    let aw = w.saturating_sub(104);
    let ah = h.saturating_sub(148);
    let ball_w = if aw.saturating_sub(120) > 1 { aw.saturating_sub(120) } else { 1 };
    let ball_h = if ah.saturating_sub(120) > 1 { ah.saturating_sub(120) } else { 1 };
    seq![
        rect_op(x, y, w, h, [8u8, 12, 18, 255]),
        outline_op((x + 24) as u32, (y + 24) as u32, w.saturating_sub(48), h.saturating_sub(48), [70u8, 96, 122, 255]),
        text_op((x + 42) as u32, (y + 42) as u32, 3, title, width, [218u8, 236, 245, 255]),
        rect_op(ax, ay, aw, ah, [14u8, 26, 38, 255]),
    ] + (if contains_seq(title, "Arkanoid"@) {
        brick_ops(ax, ay, frame, 50)
    } else {
        paddle_ops(ax, ay, aw, ah, frame)
    }) + seq![
        rect_op((ax + 80 + (frame * 9) as u32 % ball_w) as u32, (ay + 80 + (frame * 5) as u32 % ball_h) as u32, 14, 14, [96u8, 224, 230, 255]),
        rect_op((ax + aw / 2 - 54) as u32, (ay + ah.saturating_sub(34)) as u32, 108, 12, [220u8, 235, 240, 255]),
        text_op((x + 42) as u32, (y + h.saturating_sub(32)) as u32, 1, "frame "@ + dec_chars(frame as nat) + " | arrow keys control paddle"@, width, [156u8, 188, 204, 255]),
    ]
}

/// Paints the Arkanoid wall of the court at (`ax`, `ay`).
fn draw_bricks(
    rgba: &mut Vec<u8>,
    width: u32,
    height: u32,
    ax: u32,
    ay: u32,
    frame: u32,
    Ghost(base): Ghost<Seq<u8>>,
    Ghost(ops): Ghost<Seq<(spec_fn(int, int) -> bool, [u8; 4])>>,
)
    requires
        old(rgba)@.len() == width * height * 4,
        frame_fits(width, height),
        ax + 1000 <= u32::MAX,
        ay + 1000 <= u32::MAX,
        scene_painted(base, old(rgba)@, width, height, ops),
    ensures
        final(rgba)@.len() == width * height * 4,
        scene_painted(base, final(rgba)@, width, height, ops + brick_ops(ax, ay, frame, 50)),
{
    let ghost mut cur = ops;
    let mut i: u32 = 0;
    assert(cur =~= ops + brick_ops(ax, ay, frame, 0));
    while i < 50
        invariant
            i <= 50,
            rgba@.len() == width * height * 4,
            frame_fits(width, height),
            ax + 1000 <= u32::MAX,
            ay + 1000 <= u32::MAX,
            cur == ops + brick_ops(ax, ay, frame, i as nat),
            scene_painted(base, rgba@, width, height, cur),
        decreases 50 - i,
    {
        let row = i / 10;
        let col = i % 10;
        if (row + col + frame / 12) % 7 != 0 {
            let green: u8 = 92 + (row as u8) * 24;
            scene_rect(rgba, width, height, ax + 12 + col * 48, ay + 20 + row * 22, 38, 14, [180, green, 80, 255], Ghost(base), Ghost(cur));
            proof {
                cur = cur.push(rect_op((ax + 12 + col * 48) as u32, (ay + 20 + row * 22) as u32, 38, 14, [180u8, green, 80, 255]));
            }
        }
        proof {
            assert(cur =~= ops + brick_ops(ax, ay, frame, (i + 1) as nat));
        }
        i = i + 1;
    }
}

/// Paints the Pong centre line and paddles of the court at (`ax`, `ay`)
/// of size `aw` x `ah`.
fn draw_paddles(
    rgba: &mut Vec<u8>,
    width: u32,
    height: u32,
    ax: u32,
    ay: u32,
    aw: u32,
    ah: u32,
    frame: u32,
    Ghost(base): Ghost<Seq<u8>>,
    Ghost(ops): Ghost<Seq<(spec_fn(int, int) -> bool, [u8; 4])>>,
)
    requires
        old(rgba)@.len() == width * height * 4,
        frame_fits(width, height),
        ax + aw + 1000 <= u32::MAX,
        ay + ah + 1000 <= u32::MAX,
        frame * 9 <= u32::MAX,
        scene_painted(base, old(rgba)@, width, height, ops),
    ensures
        final(rgba)@.len() == width * height * 4,
        scene_painted(base, final(rgba)@, width, height, ops + paddle_ops(ax, ay, aw, ah, frame)),
{
    let left_span = if ah.saturating_sub(160) > 1 { ah.saturating_sub(160) } else { 1 };
    let right_span = if ah.saturating_sub(180) > 1 { ah.saturating_sub(180) } else { 1 };
    scene_rect(rgba, width, height, ax + aw / 2, ay + 16, 2, ah.saturating_sub(32), [52, 72, 88, 255], Ghost(base), Ghost(ops));
    let ghost p1 = ops.push(rect_op((ax + aw / 2) as u32, (ay + 16) as u32, 2, ah.saturating_sub(32), [52u8, 72, 88, 255]));
    scene_rect(rgba, width, height, ax + 24, ay + 88 + (frame * 3 % left_span), 12, 84, [210, 236, 240, 255], Ghost(base), Ghost(p1));
    let ghost p2 = p1.push(rect_op((ax + 24) as u32, (ay + 88 + (frame * 3) as u32 % left_span) as u32, 12, 84, [210u8, 236, 240, 255]));
    scene_rect(rgba, width, height, ax + aw.saturating_sub(36), ay + 120 + (frame * 2 % right_span), 12, 84, [210, 236, 240, 255], Ghost(base), Ghost(p2));
    proof {
        let p3 = p2.push(rect_op((ax + aw.saturating_sub(36)) as u32, (ay + 120 + (frame * 2) as u32 % right_span) as u32, 12, 84, [210u8, 236, 240, 255]));
        assert(p3 =~= ops + paddle_ops(ax, ay, aw, ah, frame));
    }
}

/// Paints the game preview in the box at (`x`, `y`) of size `w` x `h`.
fn draw_game_preview(
    rgba: &mut Vec<u8>,
    width: u32,
    height: u32,
    x: u32,
    y: u32,
    w: u32,
    h: u32,
    lines: &Vec<Vec<char>>,
    Ghost(base): Ghost<Seq<u8>>,
    Ghost(ops): Ghost<Seq<(spec_fn(int, int) -> bool, [u8; 4])>>,
)
    requires
        old(rgba)@.len() == width * height * 4,
        frame_fits(width, height),
        box_fits(x, y, w, h),
        frame_number(lines@.map_values(|l: Vec<char>| l@)) * 9 <= u32::MAX,
        x + 52 + w.saturating_sub(104) / 2 >= 54,
        scene_painted(base, old(rgba)@, width, height, ops),
    ensures
        final(rgba)@.len() == width * height * 4,
        scene_painted(base, final(rgba)@, width, height, ops + game_scene(
            width,
            x,
            y,
            w,
            h,
            title_of(lines@.map_values(|l: Vec<char>| l@)),
            frame_number(lines@.map_values(|l: Vec<char>| l@)),
        )),
{
    let title = current_example_title(lines);
    let frame = read_frame_number(lines);
    scene_rect(rgba, width, height, x, y, w, h, [8, 12, 18, 255], Ghost(base), Ghost(ops));
    let ghost o1 = ops.push(rect_op(x, y, w, h, [8u8, 12, 18, 255]));
    scene_outline(rgba, width, height, x + 24, y + 24, w.saturating_sub(48), h.saturating_sub(48), [70, 96, 122, 255], Ghost(base), Ghost(o1));
    let ghost o2 = o1.push(outline_op((x + 24) as u32, (y + 24) as u32, w.saturating_sub(48), h.saturating_sub(48), [70u8, 96, 122, 255]));
    scene_text(rgba, width, height, x + 42, y + 42, 3, title.as_str(), [218, 236, 245, 255], Ghost(base), Ghost(o2));
    let ghost o3 = o2.push(text_op((x + 42) as u32, (y + 42) as u32, 3, title@, width, [218u8, 236, 245, 255]));
    let ax = x + 52;
    let ay = y + 96;
    let aw = w.saturating_sub(104);
    let ah = h.saturating_sub(148);
    scene_rect(rgba, width, height, ax, ay, aw, ah, [14, 26, 38, 255], Ghost(base), Ghost(o3));
    let ghost o4 = o3.push(rect_op(ax, ay, aw, ah, [14u8, 26, 38, 255]));
    let ghost mut cur = o4;
    if str_contains(title.as_str(), "Arkanoid") {
        draw_bricks(rgba, width, height, ax, ay, frame, Ghost(base), Ghost(o4));
        proof {
            cur = o4 + brick_ops(ax, ay, frame, 50);
        }
    } else {
        draw_paddles(rgba, width, height, ax, ay, aw, ah, frame, Ghost(base), Ghost(o4));
        proof {
            cur = o4 + paddle_ops(ax, ay, aw, ah, frame);
        }
    }
    let ball_w = if aw.saturating_sub(120) > 1 { aw.saturating_sub(120) } else { 1 };
    let ball_h = if ah.saturating_sub(120) > 1 { ah.saturating_sub(120) } else { 1 };
    let ball_x = ax + 80 + (frame * 9 % ball_w);
    let ball_y = ay + 80 + (frame * 5 % ball_h);
    scene_rect(rgba, width, height, ball_x, ball_y, 14, 14, [96, 224, 230, 255], Ghost(base), Ghost(cur));
    let ghost q1 = cur.push(rect_op(ball_x, ball_y, 14, 14, [96u8, 224, 230, 255]));
    scene_rect(rgba, width, height, ax + aw / 2 - 54, ay + ah.saturating_sub(34), 108, 12, [220, 235, 240, 255], Ghost(base), Ghost(q1));
    let ghost q2 = q1.push(rect_op((ax + aw / 2 - 54) as u32, (ay + ah.saturating_sub(34)) as u32, 108, 12, [220u8, 235, 240, 255]));
    let mut label: Vec<char> = Vec::new();
    push_str(&mut label, "frame ");
    push_decimal(&mut label, frame as u64);
    push_str(&mut label, " | arrow keys control paddle");
    let label_text = string_of(&label);
    scene_text(rgba, width, height, x + 42, y + h.saturating_sub(32), 1, label_text.as_str(), [156, 188, 204, 255], Ghost(base), Ghost(q2));
    proof {
        let q3 = q2.push(text_op((x + 42) as u32, (y + h.saturating_sub(32)) as u32, 1, label_text@, width, [156u8, 188, 204, 255]));
        assert(label_text@ =~= "frame "@ + dec_chars(frame as nat) + " | arrow keys control paddle"@);
        assert(q3 =~= ops + game_scene(width, x, y, w, h, title@, frame));
    }
}

proof fn lemma_byte_len_prefix(s: Seq<char>, i: int)
    requires
        0 <= i <= s.len(),
    ensures
        byte_len(s.take(i)) <= byte_len(s),
    decreases s.len() - i,
{
    if i < s.len() {
        lemma_byte_len_prefix(s, i + 1);
        assert(s.take(i + 1).drop_last() =~= s.take(i));
    } else {
        assert(s.take(i) =~= s);
    }
}

/// The UTF-8 length of `v`, or 5 if it is longer.
fn byte_len_upto_five(v: &[char]) -> (r: u32)
    ensures
        r == if byte_len(v@) < 5 { byte_len(v@) } else { 5 },
{
    let mut acc: usize = 0;
    let mut i: usize = 0;
    while i < v.len() && acc < 5
        invariant
            i <= v@.len(),
            acc == byte_len(v@.take(i as int)),
            acc < 9,
        decreases v.len() - i,
    {
        assert(v@.take(i + 1).drop_last() =~= v@.take(i as int));
        acc = acc + utf8_len_exec(v[i]);
        i += 1;
    }
    proof {
        lemma_byte_len_prefix(v@, i as int);
        if i == v.len() {
            assert(v@.take(i as int) =~= v@);
        }
    }
    if acc < 5 { acc as u32 } else { 5 }
}

/// The letter heading column `col` of the sheet.
pub open spec fn column_letter(col: int) -> char {
    if col == 0 { 'A' } else if col == 1 { 'B' } else if col == 2 { 'C' } else if col == 3 { 'D' } else if col == 4 { 'E' } else { 'F' }
}

/// The column headers of the first `n` columns of the sheet at (`gx`, `gy`).
pub open spec fn sheet_header_ops(gx: u32, gy: u32, width: u32, n: nat) -> Seq<(spec_fn(int, int) -> bool, [u8; 4])>
    decreases n,
{
    if n == 0 {
        Seq::empty()
    } else {
        let col = n - 1;
        sheet_header_ops(gx, gy, width, (n - 1) as nat) + seq![
            rect_op((gx + col * 92) as u32, gy, 92, 34, [224u8, 232, 236, 255]),
            text_op((gx + col * 92 + 36) as u32, (gy + 12) as u32, 1, seq![column_letter(col)], width, [54u8, 73, 84, 255]),
        ]
    }
}

/// The first `n` cells of a sheet row at (`gx`, `cy`): white, outlined.
pub open spec fn sheet_cell_ops(gx: u32, cy: u32, n: nat) -> Seq<(spec_fn(int, int) -> bool, [u8; 4])>
    decreases n,
{
    if n == 0 {
        Seq::empty()
    } else {
        let cx = (gx + (n - 1) * 92) as u32;
        sheet_cell_ops(gx, cy, (n - 1) as nat) + seq![
            rect_op(cx, cy, 92, 34, [255u8, 255, 255, 255]),
            outline_op(cx, cy, 92, 34, [213u8, 222, 228, 255]),
        ]
    }
}

/// Rows 1 to `n` of the sheet at (`gx`, `gy`): the row number, then six
/// cells.
pub open spec fn sheet_row_ops(gx: u32, gy: u32, width: u32, n: nat) -> Seq<(spec_fn(int, int) -> bool, [u8; 4])>
    decreases n,
{
    if n == 0 {
        Seq::empty()
    } else {
        let cy = (gy + n * 34) as u32;
        sheet_row_ops(gx, gy, width, (n - 1) as nat) + seq![
            rect_op(gx.saturating_sub(42), cy, 42, 34, [224u8, 232, 236, 255]),
            text_op(gx.saturating_sub(30), (cy + 12) as u32, 1, dec_chars(n), width, [54u8, 73, 84, 255]),
        ] + sheet_cell_ops(gx, cy, 6)
    }
}

/// The frame text lines shown beside the sheet: from the third line, at
/// most five, each placed by its length.
pub open spec fn sheet_note_ops(lines: Seq<Seq<char>>, x: u32, y: u32, w: u32, width: u32, n: nat) -> Seq<(spec_fn(int, int) -> bool, [u8; 4])>
    decreases n,
{
    if n == 0 {
        Seq::empty()
    } else {
        let line = lines[n + 1 as int];
        let nx = (x + if w.saturating_sub(180) < 640 { w.saturating_sub(180) } else { 640 }) as u32;
        let len = if byte_len(line) < 5 { byte_len(line) } else { 5 };
        sheet_note_ops(lines, x, y, w, width, (n - 1) as nat) + seq![
            text_op(nx, (y + 100 + 22 * len) as u32, 1, line, width, [56u8, 82, 96, 255]),
        ]
    }
}

/// How many frame text lines the sheet shows.
pub open spec fn note_count(lines: Seq<Seq<char>>) -> nat {
    if lines.len() <= 2 {
        0
    } else if lines.len() - 2 < 5 {
        (lines.len() - 2) as nat
    } else {
        5
    }
}

/// The cells preview: the title, column and row headers, a 6 x 12 grid of
/// cells, and a few lines of the frame text.
pub open spec fn cells_scene(width: u32, x: u32, y: u32, w: u32, h: u32, lines: Seq<Seq<char>>) -> Seq<(spec_fn(int, int) -> bool, [u8; 4])> {
    let gx = (x + 48) as u32;
    let gy = (y + 92) as u32;
    seq![
        rect_op(x, y, w, h, [248u8, 250, 252, 255]),
        text_op((x + 32) as u32, (y + 28) as u32, 3, "Cells"@, width, [34u8, 65, 80, 255]),
    ] + sheet_header_ops(gx, gy, width, 6) + sheet_row_ops(gx, gy, width, 12) + sheet_note_ops(lines, x, y, w, width, note_count(lines))
}

fn draw_sheet_header(
    rgba: &mut Vec<u8>,
    width: u32,
    height: u32,
    gx: u32,
    gy: u32,
    Ghost(base): Ghost<Seq<u8>>,
    Ghost(ops): Ghost<Seq<(spec_fn(int, int) -> bool, [u8; 4])>>,
)
    requires
        old(rgba)@.len() == width * height * 4,
        frame_fits(width, height),
        gx + 1000 <= u32::MAX,
        gy + 1000 <= u32::MAX,
        scene_painted(base, old(rgba)@, width, height, ops),
    ensures
        final(rgba)@.len() == width * height * 4,
        scene_painted(base, final(rgba)@, width, height, ops + sheet_header_ops(gx, gy, width, 6)),
{
    let letters = ['A', 'B', 'C', 'D', 'E', 'F'];
    let ghost mut cur = ops;
    assert(cur =~= ops + sheet_header_ops(gx, gy, width, 0));
    let mut col: u32 = 0;
    while col < 6
        invariant
            col <= 6,
            letters@ == seq!['A', 'B', 'C', 'D', 'E', 'F'],
            rgba@.len() == width * height * 4,
            frame_fits(width, height),
            gx + 1000 <= u32::MAX,
            gy + 1000 <= u32::MAX,
            cur == ops + sheet_header_ops(gx, gy, width, col as nat),
            scene_painted(base, rgba@, width, height, cur),
        decreases 6 - col,
    {
        scene_rect(rgba, width, height, gx + col * 92, gy, 92, 34, [224, 232, 236, 255], Ghost(base), Ghost(cur));
        let ghost c1 = cur.push(rect_op((gx + col * 92) as u32, gy, 92, 34, [224u8, 232, 236, 255]));
        let mut label: Vec<char> = Vec::new();
        label.push(letters[col as usize]);
        let label_text = string_of(&label);
        scene_text(rgba, width, height, gx + col * 92 + 36, gy + 12, 1, label_text.as_str(), [54, 73, 84, 255], Ghost(base), Ghost(c1));
        proof {
            assert(label_text@ =~= seq![column_letter(col as int)]);
            cur = c1.push(text_op((gx + col * 92 + 36) as u32, (gy + 12) as u32, 1, label_text@, width, [54u8, 73, 84, 255]));
            assert(cur =~= ops + sheet_header_ops(gx, gy, width, (col + 1) as nat));
        }
        col = col + 1;
    }
}

fn draw_sheet_cells(
    rgba: &mut Vec<u8>,
    width: u32,
    height: u32,
    gx: u32,
    cy: u32,
    Ghost(base): Ghost<Seq<u8>>,
    Ghost(ops): Ghost<Seq<(spec_fn(int, int) -> bool, [u8; 4])>>,
)
    requires
        old(rgba)@.len() == width * height * 4,
        frame_fits(width, height),
        gx + 1000 <= u32::MAX,
        scene_painted(base, old(rgba)@, width, height, ops),
    ensures
        final(rgba)@.len() == width * height * 4,
        scene_painted(base, final(rgba)@, width, height, ops + sheet_cell_ops(gx, cy, 6)),
{
    let ghost mut cur = ops;
    assert(cur =~= ops + sheet_cell_ops(gx, cy, 0));
    let mut col: u32 = 0;
    while col < 6
        invariant
            col <= 6,
            rgba@.len() == width * height * 4,
            frame_fits(width, height),
            gx + 1000 <= u32::MAX,
            cur == ops + sheet_cell_ops(gx, cy, col as nat),
            scene_painted(base, rgba@, width, height, cur),
        decreases 6 - col,
    {
        let cx = gx + col * 92;
        scene_rect(rgba, width, height, cx, cy, 92, 34, [255, 255, 255, 255], Ghost(base), Ghost(cur));
        let ghost c1 = cur.push(rect_op(cx, cy, 92, 34, [255u8, 255, 255, 255]));
        scene_outline(rgba, width, height, cx, cy, 92, 34, [213, 222, 228, 255], Ghost(base), Ghost(c1));
        proof {
            cur = c1.push(outline_op(cx, cy, 92, 34, [213u8, 222, 228, 255]));
            assert(cur =~= ops + sheet_cell_ops(gx, cy, (col + 1) as nat));
        }
        col = col + 1;
    }
}

fn draw_sheet_rows(
    rgba: &mut Vec<u8>,
    width: u32,
    height: u32,
    gx: u32,
    gy: u32,
    Ghost(base): Ghost<Seq<u8>>,
    Ghost(ops): Ghost<Seq<(spec_fn(int, int) -> bool, [u8; 4])>>,
)
    requires
        old(rgba)@.len() == width * height * 4,
        frame_fits(width, height),
        gx + 1000 <= u32::MAX,
        gy + 1000 <= u32::MAX,
        scene_painted(base, old(rgba)@, width, height, ops),
    ensures
        final(rgba)@.len() == width * height * 4,
        scene_painted(base, final(rgba)@, width, height, ops + sheet_row_ops(gx, gy, width, 12)),
{
    let ghost mut cur = ops;
    assert(cur =~= ops + sheet_row_ops(gx, gy, width, 0));
    let mut row: u32 = 1;
    while row <= 12
        invariant
            1 <= row <= 13,
            rgba@.len() == width * height * 4,
            frame_fits(width, height),
            gx + 1000 <= u32::MAX,
            gy + 1000 <= u32::MAX,
            cur == ops + sheet_row_ops(gx, gy, width, (row - 1) as nat),
            scene_painted(base, rgba@, width, height, cur),
        decreases 13 - row,
    {
        let cy = gy + row * 34;
        scene_rect(rgba, width, height, gx.saturating_sub(42), cy, 42, 34, [224, 232, 236, 255], Ghost(base), Ghost(cur));
        let ghost c1 = cur.push(rect_op(gx.saturating_sub(42), cy, 42, 34, [224u8, 232, 236, 255]));
        let mut label: Vec<char> = Vec::new();
        push_decimal(&mut label, row as u64);
        let label_text = string_of(&label);
        scene_text(rgba, width, height, gx.saturating_sub(30), cy + 12, 1, label_text.as_str(), [54, 73, 84, 255], Ghost(base), Ghost(c1));
        let ghost c2 = c1.push(text_op(gx.saturating_sub(30), (cy + 12) as u32, 1, label_text@, width, [54u8, 73, 84, 255]));
        draw_sheet_cells(rgba, width, height, gx, cy, Ghost(base), Ghost(c2));
        proof {
            assert(label_text@ =~= dec_chars(row as nat));
            cur = c2 + sheet_cell_ops(gx, cy, 6);
            assert(cur =~= ops + sheet_row_ops(gx, gy, width, row as nat));
        }
        row = row + 1;
    }
}

fn draw_sheet_notes(
    rgba: &mut Vec<u8>,
    width: u32,
    height: u32,
    x: u32,
    y: u32,
    w: u32,
    lines: &Vec<Vec<char>>,
    Ghost(base): Ghost<Seq<u8>>,
    Ghost(ops): Ghost<Seq<(spec_fn(int, int) -> bool, [u8; 4])>>,
)
    requires
        old(rgba)@.len() == width * height * 4,
        frame_fits(width, height),
        x + w + 2000 <= u32::MAX,
        y + 2000 <= u32::MAX,
        scene_painted(base, old(rgba)@, width, height, ops),
    ensures
        final(rgba)@.len() == width * height * 4,
        scene_painted(base, final(rgba)@, width, height, ops + sheet_note_ops(
            lines@.map_values(|l: Vec<char>| l@),
            x,
            y,
            w,
            width,
            note_count(lines@.map_values(|l: Vec<char>| l@)),
        )),
{
    let ghost all = lines@.map_values(|l: Vec<char>| l@);
    let ghost mut cur = ops;
    assert(cur =~= ops + sheet_note_ops(all, x, y, w, width, 0));
    let nx = x + if w.saturating_sub(180) < 640 { w.saturating_sub(180) } else { 640 };
    let mut k: usize = 0;
    while k < 5 && k + 2 < lines.len()
        invariant
            k <= 5,
            k + 2 <= lines@.len() || k == 0,
            all == lines@.map_values(|l: Vec<char>| l@),
            nx == x + if w.saturating_sub(180) < 640 { w.saturating_sub(180) } else { 640 },
            rgba@.len() == width * height * 4,
            frame_fits(width, height),
            x + w + 2000 <= u32::MAX,
            y + 2000 <= u32::MAX,
            cur == ops + sheet_note_ops(all, x, y, w, width, k as nat),
            scene_painted(base, rgba@, width, height, cur),
        decreases 5 - k,
    {
        let line = &lines[k + 2];
        let len = byte_len_upto_five(line.as_slice());
        let text = string_of(line.as_slice());
        scene_text(rgba, width, height, nx, y + 100 + 22 * len, 1, text.as_str(), [56, 82, 96, 255], Ghost(base), Ghost(cur));
        proof {
            assert(all[k + 2] == line@);
            cur = cur.push(text_op(nx, (y + 100 + 22 * len) as u32, 1, text@, width, [56u8, 82, 96, 255]));
            assert(cur =~= ops + sheet_note_ops(all, x, y, w, width, (k + 1) as nat));
        }
        k = k + 1;
    }
    assert(k == note_count(all));
}

/// Paints the cells preview in the box at (`x`, `y`) of size `w` x `h`.
fn draw_cells_preview(
    rgba: &mut Vec<u8>,
    width: u32,
    height: u32,
    x: u32,
    y: u32,
    w: u32,
    h: u32,
    lines: &Vec<Vec<char>>,
    Ghost(base): Ghost<Seq<u8>>,
    Ghost(ops): Ghost<Seq<(spec_fn(int, int) -> bool, [u8; 4])>>,
)
    requires
        old(rgba)@.len() == width * height * 4,
        frame_fits(width, height),
        box_fits(x, y, w, h),
        scene_painted(base, old(rgba)@, width, height, ops),
    ensures
        final(rgba)@.len() == width * height * 4,
        scene_painted(base, final(rgba)@, width, height, ops + cells_scene(width, x, y, w, h, lines@.map_values(|l: Vec<char>| l@))),
{
    scene_rect(rgba, width, height, x, y, w, h, [248, 250, 252, 255], Ghost(base), Ghost(ops));
    let ghost o1 = ops.push(rect_op(x, y, w, h, [248u8, 250, 252, 255]));
    scene_text(rgba, width, height, x + 32, y + 28, 3, "Cells", [34, 65, 80, 255], Ghost(base), Ghost(o1));
    let ghost o2 = o1.push(text_op((x + 32) as u32, (y + 28) as u32, 3, "Cells"@, width, [34u8, 65, 80, 255]));
    let gx = x + 48;
    let gy = y + 92;
    draw_sheet_header(rgba, width, height, gx, gy, Ghost(base), Ghost(o2));
    let ghost o3 = o2 + sheet_header_ops(gx, gy, width, 6);
    draw_sheet_rows(rgba, width, height, gx, gy, Ghost(base), Ghost(o3));
    let ghost o4 = o3 + sheet_row_ops(gx, gy, width, 12);
    draw_sheet_notes(rgba, width, height, x, y, w, lines, Ghost(base), Ghost(o4));
    proof {
        let all = lines@.map_values(|l: Vec<char>| l@);
        let o5 = o4 + sheet_note_ops(all, x, y, w, width, note_count(all));
        assert(o5 =~= ops + cells_scene(width, x, y, w, h, all));
    }
}

/// A todo line of the frame text, `id [x] title` or `id [ ] title`: its
/// id, whether it is completed, and its title. The id must read as a
/// `u64`; the title starts at the fifth byte after the id's space.
pub open spec fn todo_line(line: Seq<char>) -> Option<(Seq<char>, bool, Seq<char>)> {
    let t = trim(line);
    let sp = first_of(t, ' ');
    if sp < 0 {
        None
    } else {
        let id = t.take(sp);
        let rest = t.skip(sp + 1);
        if parse_u64_spec(id) is None {
            None
        } else {
            match get_from_byte(rest, 4) {
                Some(tail) => Some((id, has_prefix(rest, "[x]"@), trim(tail))),
                None => None,
            }
        }
    }
}

/// Reads a todo line: its id, whether it is completed, and its title.
fn parse_todo_line(line: &[char]) -> (r: Option<(String, bool, String)>)
    ensures
        match r {
            Some((id, done, title)) => todo_line(line@) == Some((id@, done, title@)),
            None => todo_line(line@) is None,
        },
{
    let t = trimmed(line, 0, line.len());
    assert(line@.subrange(0, line@.len() as int) =~= line@);
    let sp = match index_of_char(&t, ' ') {
        Some(i) => i,
        None => return None,
    };
    if parse_u64(&t, 0, sp).is_none() {
        assert(t@.subrange(0, sp as int) =~= t@.take(sp as int));
        return None;
    }
    assert(t@.subrange(0, sp as int) =~= t@.take(sp as int));
    let rest = slice_range(&t, sp + 1, t.len());
    assert(rest@ =~= t@.skip(sp + 1));
    let tail = match get_from_byte_exec(&rest, 4) {
        Some(v) => v,
        None => return None,
    };
    let done = starts_with(&rest, &chars_of("[x]"));
    let title = trimmed(&tail, 0, tail.len());
    assert(tail@.subrange(0, tail@.len() as int) =~= tail@);
    Some((string_of_range(&t, 0, sp), done, string_of(&title)))
}

/// The todo items of the frame text lines, in order: whether each is
/// completed, and its title.
pub open spec fn todo_items(lines: Seq<Seq<char>>) -> Seq<(bool, Seq<char>)>
    decreases lines.len(),
{
    if lines.len() == 0 {
        Seq::empty()
    } else {
        todo_items(lines.drop_last()) + match todo_line(lines.last()) {
            Some((_, done, title)) => seq![(done, title)],
            None => Seq::empty(),
        }
    }
}

fn read_todo_items(lines: &Vec<Vec<char>>) -> (r: Vec<(bool, String)>)
    ensures
        r@.len() == todo_items(lines@.map_values(|l: Vec<char>| l@)).len(),
        forall|k: int| 0 <= k < r@.len() ==> (#[trigger] r@[k]).0 == todo_items(lines@.map_values(|l: Vec<char>| l@))[k].0
            && r@[k].1@ == todo_items(lines@.map_values(|l: Vec<char>| l@))[k].1,
{
    let ghost all = lines@.map_values(|l: Vec<char>| l@);
    let mut items: Vec<(bool, String)> = Vec::new();
    let mut i: usize = 0;
    while i < lines.len()
        invariant
            i <= lines@.len(),
            all == lines@.map_values(|l: Vec<char>| l@),
            items@.len() == todo_items(all.take(i as int)).len(),
            forall|k: int| 0 <= k < items@.len() ==> (#[trigger] items@[k]).0 == todo_items(all.take(i as int))[k].0
                && items@[k].1@ == todo_items(all.take(i as int))[k].1,
        decreases lines.len() - i,
    {
        assert(all.take(i + 1).drop_last() =~= all.take(i as int));
        assert(all.take(i + 1).last() == lines@[i as int]@);
        match parse_todo_line(lines[i].as_slice()) {
            Some((_, done, title)) => {
                items.push((done, title));
            },
            None => {},
        }
        i = i + 1;
    }
    assert(all.take(lines@.len() as int) =~= all);
    items
}

/// How many of the todo items are not completed.
pub open spec fn active_count(items: Seq<(bool, Seq<char>)>) -> nat
    decreases items.len(),
{
    if items.len() == 0 {
        0
    } else {
        active_count(items.drop_last()) + if items.last().0 { 0nat } else { 1nat }
    }
}

proof fn lemma_active_count_bound(items: Seq<(bool, Seq<char>)>)
    ensures
        active_count(items) <= items.len(),
    decreases items.len(),
{
    if items.len() > 0 {
        lemma_active_count_bound(items.drop_last());
    }
}

/// The row of todo item `idx` of the panel at `px` of width `pw`, under
/// the input row at `main_y`.
pub open spec fn todo_row_ops(item: (bool, Seq<char>), idx: nat, px: u32, pw: u32, main_y: u32, width: u32) -> Seq<(spec_fn(int, int) -> bool, [u8; 4])> {
    let row_y = (main_y + 64 + idx * 58) as u32;
    let done = item.0;
    seq![
        rect_op(px, row_y, pw, 58, [255u8, 255, 255, 255]),
        rect_op(px, row_y, pw, 1, [237u8, 237, 237, 255]),
        outline_op((px + 14) as u32, (row_y + 14) as u32, 30, 30, if done { [80u8, 180, 140, 255] } else { [205u8, 215, 215, 255] }),
    ] + (if done {
        seq![text_op((px + 20) as u32, (row_y + 21) as u32, 1, "OK"@, width, [80u8, 180, 140, 255])]
    } else {
        Seq::empty()
    }) + seq![
        text_op((px + 62) as u32, (row_y + 19) as u32, 2, item.1, width, if done { [150u8, 150, 150, 255] } else { [72u8, 72, 72, 255] }),
    ] + (if done {
        seq![rect_op((px + 62) as u32, (row_y + 29) as u32, pw.saturating_sub(128), 2, [190u8, 190, 190, 255])]
    } else {
        Seq::empty()
    }) + seq![
        text_op((px + pw.saturating_sub(42)) as u32, (row_y + 20) as u32, 2, "x"@, width, [175u8, 47, 47, 210]),
    ]
}

/// The rows of the first `n` todo items.
pub open spec fn todo_rows_ops(items: Seq<(bool, Seq<char>)>, n: nat, px: u32, pw: u32, main_y: u32, width: u32) -> Seq<(spec_fn(int, int) -> bool, [u8; 4])>
    decreases n,
{
    if n == 0 {
        Seq::empty()
    } else {
        todo_rows_ops(items, (n - 1) as nat, px, pw, main_y, width) + todo_row_ops(items[n - 1], (n - 1) as nat, px, pw, main_y, width)
    }
}

/// The filter link of the footer at offset `dx`, outlined when selected.
pub open spec fn filter_ops(name: Seq<char>, dx: u32, selected: bool, px: u32, fy: u32, width: u32) -> Seq<(spec_fn(int, int) -> bool, [u8; 4])> {
    (if selected {
        seq![outline_op((px + dx) as u32, (fy + 10) as u32, 62, 20, [235u8, 213, 213, 255])]
    } else {
        Seq::empty()
    }) + seq![text_op((px + dx + 7) as u32, (fy + 16) as u32, 1, name, width, [80u8, 80, 80, 255])]
}

/// The TodoMVC layout: the panel's width and left edge, and the input
/// row's top, for the box at (`x`, `y`) of size `w` x `h`.
pub open spec fn todo_layout(x: u32, y: u32, w: u32, h: u32) -> (u32, u32, u32) {
    let pw = ((if w < 700 { w } else { 700 }) * 550 / 700) as u32;
    let px = (x + w.saturating_sub(pw) / 2) as u32;
    let scaled = ((if h < 700 { h } else { 700 }) * 130 / 700) as u32;
    let main_y = (y + if scaled > 96 { scaled } else { 96 }) as u32;
    (pw, px, main_y)
}

/// The footer of the TodoMVC panel at `px` of width `pw`, at `fy`: the
/// count of active items, the filters with the selected one outlined,
/// `Clear completed`, and the credits under it.
pub open spec fn todo_footer_ops(px: u32, pw: u32, fy: u32, active: nat, filter: Seq<char>, width: u32) -> Seq<(spec_fn(int, int) -> bool, [u8; 4])> {
    seq![
        rect_op(px, fy, pw, 42, [255u8, 255, 255, 255]),
        rect_op(px, fy, pw, 1, [237u8, 237, 237, 255]),
        text_op((px + 16) as u32, (fy + 16) as u32, 1, dec_chars(active) + " items left"@, width, [80u8, 80, 80, 255]),
    ] + filter_ops("all"@, 220, filter == "all"@, px, fy, width) + filter_ops("active"@, 290, filter == "active"@, px, fy, width)
        + filter_ops("completed"@, 380, filter == "completed"@, px, fy, width) + seq![
        text_op((px + pw.saturating_sub(138)) as u32, (fy + 16) as u32, 1, "Clear completed"@, width, [80u8, 80, 80, 255]),
        text_op((px + pw / 2 - 110) as u32, (fy + 78) as u32, 1, "Double-click to edit a todo"@, width, [77u8, 77, 77, 255]),
        text_op((px + pw / 2 - 96) as u32, (fy + 100) as u32, 1, "Created by Martin Kavik"@, width, [77u8, 77, 77, 255]),
    ]
}

/// The top of the TodoMVC preview: the heading and the input row, with
/// the toggle-all mark when there are items.
pub open spec fn todo_header_ops(px: u32, pw: u32, y: u32, main_y: u32, input: Seq<char>, any_items: bool, width: u32) -> Seq<(spec_fn(int, int) -> bool, [u8; 4])> {
    seq![
        text_op((px + pw / 2 - 150) as u32, (y + 28) as u32, 8, "todos"@, width, [184u8, 63, 69, 95]),
        rect_op(px, main_y, pw, 64, [255u8, 255, 255, 255]),
        outline_op(px, main_y, pw, 64, [229u8, 229, 229, 255]),
        text_op((px + 56) as u32, (main_y + 23) as u32, 2, if input.len() == 0 { "What needs to be done?"@ } else { input }, width, [85u8, 85, 85, 255]),
    ] + (if any_items {
        seq![text_op((px + 18) as u32, (main_y + 24) as u32, 2, "v"@, width, [115u8, 115, 115, 255])]
    } else {
        Seq::empty()
    })
}

/// The TodoMVC preview: the heading, the input row, a row per todo item,
/// and the footer.
pub open spec fn todomvc_scene(width: u32, x: u32, y: u32, w: u32, h: u32, lines: Seq<Seq<char>>) -> Seq<(spec_fn(int, int) -> bool, [u8; 4])> {
    let (pw, px, main_y) = todo_layout(x, y, w, h);
    let items = todo_items(lines);
    let fy = (main_y + 64 + items.len() * 58) as u32;
    todo_header_ops(px, pw, y, main_y, value_or(lines, "input: "@, ""@), items.len() > 0, width)
        + todo_rows_ops(items, items.len(), px, pw, main_y, width)
        + todo_footer_ops(px, pw, fy, active_count(items), value_or(lines, "filter: "@, "all"@), width)
}

/// Where the TodoMVC preview's arithmetic stays in `u32`: the heading
/// left of the panel's centre does not pass the left edge, and the last
/// footer line stays in range.
pub open spec fn todomvc_fits(x: u32, y: u32, w: u32, h: u32, lines: Seq<Seq<char>>) -> bool {
    let (pw, px, main_y) = todo_layout(x, y, w, h);
    &&& px + pw / 2 >= 150
    &&& main_y + 64 + todo_items(lines).len() * 58 + 1000 <= u32::MAX
}

fn draw_todo_rows(
    rgba: &mut Vec<u8>,
    width: u32,
    height: u32,
    items: &Vec<(bool, String)>,
    px: u32,
    pw: u32,
    main_y: u32,
    Ghost(spec_items): Ghost<Seq<(bool, Seq<char>)>>,
    Ghost(base): Ghost<Seq<u8>>,
    Ghost(ops): Ghost<Seq<(spec_fn(int, int) -> bool, [u8; 4])>>,
)
    requires
        old(rgba)@.len() == width * height * 4,
        frame_fits(width, height),
        items@.len() == spec_items.len(),
        forall|k: int| 0 <= k < items@.len() ==> (#[trigger] items@[k]).0 == spec_items[k].0 && items@[k].1@ == spec_items[k].1,
        px + pw + 2000 <= u32::MAX,
        main_y + 64 + items@.len() * 58 + 1000 <= u32::MAX,
        scene_painted(base, old(rgba)@, width, height, ops),
    ensures
        final(rgba)@.len() == width * height * 4,
        scene_painted(base, final(rgba)@, width, height, ops + todo_rows_ops(spec_items, spec_items.len(), px, pw, main_y, width)),
{
    let ghost mut cur = ops;
    assert(cur =~= ops + todo_rows_ops(spec_items, 0, px, pw, main_y, width));
    let mut idx: usize = 0;
    while idx < items.len()
        invariant
            idx <= items@.len(),
            items@.len() == spec_items.len(),
            forall|k: int| 0 <= k < items@.len() ==> (#[trigger] items@[k]).0 == spec_items[k].0 && items@[k].1@ == spec_items[k].1,
            rgba@.len() == width * height * 4,
            frame_fits(width, height),
            px + pw + 2000 <= u32::MAX,
            main_y + 64 + items@.len() * 58 + 1000 <= u32::MAX,
            cur == ops + todo_rows_ops(spec_items, idx as nat, px, pw, main_y, width),
            scene_painted(base, rgba@, width, height, cur),
        decreases items.len() - idx,
    {
        assert(idx * 58 <= items@.len() * 58) by (nonlinear_arith)
            requires
                idx <= items@.len(),
        ;
        let row_y = main_y + 64 + (idx as u32) * 58;
        let done = items[idx].0;
        let ghost start = cur;
        scene_rect(rgba, width, height, px, row_y, pw, 58, [255, 255, 255, 255], Ghost(base), Ghost(cur));
        proof { cur = cur.push(rect_op(px, row_y, pw, 58, [255u8, 255, 255, 255])); }
        scene_rect(rgba, width, height, px, row_y, pw, 1, [237, 237, 237, 255], Ghost(base), Ghost(cur));
        proof { cur = cur.push(rect_op(px, row_y, pw, 1, [237u8, 237, 237, 255])); }
        let box_color: [u8; 4] = if done { [80, 180, 140, 255] } else { [205, 215, 215, 255] };
        scene_outline(rgba, width, height, px + 14, row_y + 14, 30, 30, box_color, Ghost(base), Ghost(cur));
        proof { cur = cur.push(outline_op((px + 14) as u32, (row_y + 14) as u32, 30, 30, box_color)); }
        if done {
            scene_text(rgba, width, height, px + 20, row_y + 21, 1, "OK", [80, 180, 140, 255], Ghost(base), Ghost(cur));
            proof { cur = cur.push(text_op((px + 20) as u32, (row_y + 21) as u32, 1, "OK"@, width, [80u8, 180, 140, 255])); }
        }
        let title_color: [u8; 4] = if done { [150, 150, 150, 255] } else { [72, 72, 72, 255] };
        scene_text(rgba, width, height, px + 62, row_y + 19, 2, items[idx].1.as_str(), title_color, Ghost(base), Ghost(cur));
        proof { cur = cur.push(text_op((px + 62) as u32, (row_y + 19) as u32, 2, items@[idx as int].1@, width, title_color)); }
        if done {
            scene_rect(rgba, width, height, px + 62, row_y + 29, pw.saturating_sub(128), 2, [190, 190, 190, 255], Ghost(base), Ghost(cur));
            proof { cur = cur.push(rect_op((px + 62) as u32, (row_y + 29) as u32, pw.saturating_sub(128), 2, [190u8, 190, 190, 255])); }
        }
        scene_text(rgba, width, height, px + pw.saturating_sub(42), row_y + 20, 2, "x", [175, 47, 47, 210], Ghost(base), Ghost(cur));
        proof {
            cur = cur.push(text_op((px + pw.saturating_sub(42)) as u32, (row_y + 20) as u32, 2, "x"@, width, [175u8, 47, 47, 210]));
            assert(cur =~= start + todo_row_ops(spec_items[idx as int], idx as nat, px, pw, main_y, width));
            assert(cur =~= ops + todo_rows_ops(spec_items, (idx + 1) as nat, px, pw, main_y, width));
        }
        idx = idx + 1;
    }
}

fn count_active(items: &Vec<(bool, String)>, Ghost(spec_items): Ghost<Seq<(bool, Seq<char>)>>) -> (r: usize)
    requires
        items@.len() == spec_items.len(),
        forall|k: int| 0 <= k < items@.len() ==> (#[trigger] items@[k]).0 == spec_items[k].0,
    ensures
        r == active_count(spec_items),
{
    let mut n: usize = 0;
    let mut i: usize = 0;
    while i < items.len()
        invariant
            i <= items@.len(),
            items@.len() == spec_items.len(),
            forall|k: int| 0 <= k < items@.len() ==> (#[trigger] items@[k]).0 == spec_items[k].0,
            n == active_count(spec_items.take(i as int)),
            n <= i,
        decreases items.len() - i,
    {
        assert(spec_items.take(i + 1).drop_last() =~= spec_items.take(i as int));
        if !items[i].0 {
            n = n + 1;
        }
        i = i + 1;
    }
    assert(spec_items.take(i as int) =~= spec_items);
    n
}

fn draw_filter(
    rgba: &mut Vec<u8>,
    width: u32,
    height: u32,
    name: &str,
    dx: u32,
    filter: &str,
    px: u32,
    fy: u32,
    Ghost(base): Ghost<Seq<u8>>,
    Ghost(ops): Ghost<Seq<(spec_fn(int, int) -> bool, [u8; 4])>>,
)
    requires
        old(rgba)@.len() == width * height * 4,
        frame_fits(width, height),
        dx <= 400,
        px + 2000 <= u32::MAX,
        fy + 1000 <= u32::MAX,
        scene_painted(base, old(rgba)@, width, height, ops),
    ensures
        final(rgba)@.len() == width * height * 4,
        scene_painted(base, final(rgba)@, width, height, ops + filter_ops(name@, dx, filter@ == name@, px, fy, width)),
{
    let selected = crate::text::seq_eq(&chars_of(filter), &chars_of(name));
    let ghost mut cur = ops;
    if selected {
        scene_outline(rgba, width, height, px + dx, fy + 10, 62, 20, [235, 213, 213, 255], Ghost(base), Ghost(cur));
        proof { cur = cur.push(outline_op((px + dx) as u32, (fy + 10) as u32, 62, 20, [235u8, 213, 213, 255])); }
    }
    scene_text(rgba, width, height, px + dx + 7, fy + 16, 1, name, [80, 80, 80, 255], Ghost(base), Ghost(cur));
    proof {
        cur = cur.push(text_op((px + dx + 7) as u32, (fy + 16) as u32, 1, name@, width, [80u8, 80, 80, 255]));
        assert(cur =~= ops + filter_ops(name@, dx, filter@ == name@, px, fy, width));
    }
}

fn draw_todo_footer(
    rgba: &mut Vec<u8>,
    width: u32,
    height: u32,
    px: u32,
    pw: u32,
    fy: u32,
    active: usize,
    filter: &str,
    Ghost(base): Ghost<Seq<u8>>,
    Ghost(ops): Ghost<Seq<(spec_fn(int, int) -> bool, [u8; 4])>>,
)
    requires
        old(rgba)@.len() == width * height * 4,
        frame_fits(width, height),
        px + pw + 2000 <= u32::MAX,
        pw <= 550,
        px + pw / 2 >= 150,
        fy + 1000 <= u32::MAX,
        scene_painted(base, old(rgba)@, width, height, ops),
    ensures
        final(rgba)@.len() == width * height * 4,
        scene_painted(base, final(rgba)@, width, height, ops + todo_footer_ops(px, pw, fy, active as nat, filter@, width)),
{
    let ghost mut cur = ops;
    scene_rect(rgba, width, height, px, fy, pw, 42, [255, 255, 255, 255], Ghost(base), Ghost(cur));
    proof { cur = cur.push(rect_op(px, fy, pw, 42, [255u8, 255, 255, 255])); }
    scene_rect(rgba, width, height, px, fy, pw, 1, [237, 237, 237, 255], Ghost(base), Ghost(cur));
    proof { cur = cur.push(rect_op(px, fy, pw, 1, [237u8, 237, 237, 255])); }
    let mut left: Vec<char> = Vec::new();
    push_decimal(&mut left, active as u64);
    push_str(&mut left, " items left");
    let left_text = string_of(&left);
    scene_text(rgba, width, height, px + 16, fy + 16, 1, left_text.as_str(), [80, 80, 80, 255], Ghost(base), Ghost(cur));
    proof {
        assert(left_text@ =~= dec_chars(active as nat) + " items left"@);
        cur = cur.push(text_op((px + 16) as u32, (fy + 16) as u32, 1, left_text@, width, [80u8, 80, 80, 255]));
    }
    draw_filter(rgba, width, height, "all", 220, filter, px, fy, Ghost(base), Ghost(cur));
    proof { cur = cur + filter_ops("all"@, 220, filter@ == "all"@, px, fy, width); }
    draw_filter(rgba, width, height, "active", 290, filter, px, fy, Ghost(base), Ghost(cur));
    proof { cur = cur + filter_ops("active"@, 290, filter@ == "active"@, px, fy, width); }
    draw_filter(rgba, width, height, "completed", 380, filter, px, fy, Ghost(base), Ghost(cur));
    proof { cur = cur + filter_ops("completed"@, 380, filter@ == "completed"@, px, fy, width); }
    scene_text(rgba, width, height, px + pw.saturating_sub(138), fy + 16, 1, "Clear completed", [80, 80, 80, 255], Ghost(base), Ghost(cur));
    proof { cur = cur.push(text_op((px + pw.saturating_sub(138)) as u32, (fy + 16) as u32, 1, "Clear completed"@, width, [80u8, 80, 80, 255])); }
    scene_text(rgba, width, height, px + pw / 2 - 110, fy + 78, 1, "Double-click to edit a todo", [77, 77, 77, 255], Ghost(base), Ghost(cur));
    proof { cur = cur.push(text_op((px + pw / 2 - 110) as u32, (fy + 78) as u32, 1, "Double-click to edit a todo"@, width, [77u8, 77, 77, 255])); }
    scene_text(rgba, width, height, px + pw / 2 - 96, fy + 100, 1, "Created by Martin Kavik", [77, 77, 77, 255], Ghost(base), Ghost(cur));
    proof {
        cur = cur.push(text_op((px + pw / 2 - 96) as u32, (fy + 100) as u32, 1, "Created by Martin Kavik"@, width, [77u8, 77, 77, 255]));
        assert(cur =~= ops + todo_footer_ops(px, pw, fy, active as nat, filter@, width));
    }
}

fn draw_todo_header(
    rgba: &mut Vec<u8>,
    width: u32,
    height: u32,
    px: u32,
    pw: u32,
    y: u32,
    main_y: u32,
    input: String,
    any_items: bool,
    Ghost(base): Ghost<Seq<u8>>,
    Ghost(ops): Ghost<Seq<(spec_fn(int, int) -> bool, [u8; 4])>>,
)
    requires
        old(rgba)@.len() == width * height * 4,
        frame_fits(width, height),
        px + pw + 2000 <= u32::MAX,
        px + pw / 2 >= 150,
        y + 2000 <= u32::MAX,
        main_y + 1000 <= u32::MAX,
        scene_painted(base, old(rgba)@, width, height, ops),
    ensures
        final(rgba)@.len() == width * height * 4,
        scene_painted(base, final(rgba)@, width, height, ops + todo_header_ops(px, pw, y, main_y, input@, any_items, width)),
{
    let ghost mut cur = ops;
    let ghost input_text = input@;
    scene_text(rgba, width, height, px + pw / 2 - 150, y + 28, 8, "todos", [184, 63, 69, 95], Ghost(base), Ghost(cur));
    proof { cur = cur.push(text_op((px + pw / 2 - 150) as u32, (y + 28) as u32, 8, "todos"@, width, [184u8, 63, 69, 95])); }
    scene_rect(rgba, width, height, px, main_y, pw, 64, [255, 255, 255, 255], Ghost(base), Ghost(cur));
    proof { cur = cur.push(rect_op(px, main_y, pw, 64, [255u8, 255, 255, 255])); }
    scene_outline(rgba, width, height, px, main_y, pw, 64, [229, 229, 229, 255], Ghost(base), Ghost(cur));
    proof { cur = cur.push(outline_op(px, main_y, pw, 64, [229u8, 229, 229, 255])); }
    let prompt = if chars_of(input.as_str()).len() == 0 { "What needs to be done?".to_string() } else { input };
    scene_text(rgba, width, height, px + 56, main_y + 23, 2, prompt.as_str(), [85, 85, 85, 255], Ghost(base), Ghost(cur));
    proof { cur = cur.push(text_op((px + 56) as u32, (main_y + 23) as u32, 2, prompt@, width, [85u8, 85, 85, 255])); }
    if any_items {
        scene_text(rgba, width, height, px + 18, main_y + 24, 2, "v", [115, 115, 115, 255], Ghost(base), Ghost(cur));
        proof { cur = cur.push(text_op((px + 18) as u32, (main_y + 24) as u32, 2, "v"@, width, [115u8, 115, 115, 255])); }
    }
    proof {
        assert(cur =~= ops + todo_header_ops(px, pw, y, main_y, input_text, any_items, width));
    }
}

/// Paints the TodoMVC preview in the box at (`x`, `y`) of size `w` x `h`.
fn draw_todomvc_preview(
    rgba: &mut Vec<u8>,
    width: u32,
    height: u32,
    x: u32,
    y: u32,
    w: u32,
    h: u32,
    lines: &Vec<Vec<char>>,
    Ghost(base): Ghost<Seq<u8>>,
    Ghost(ops): Ghost<Seq<(spec_fn(int, int) -> bool, [u8; 4])>>,
)
    requires
        old(rgba)@.len() == width * height * 4,
        frame_fits(width, height),
        box_fits(x, y, w, h),
        todomvc_fits(x, y, w, h, lines@.map_values(|l: Vec<char>| l@)),
        scene_painted(base, old(rgba)@, width, height, ops),
    ensures
        final(rgba)@.len() == width * height * 4,
        scene_painted(base, final(rgba)@, width, height, ops + todomvc_scene(width, x, y, w, h, lines@.map_values(|l: Vec<char>| l@))),
{
    let ghost all = lines@.map_values(|l: Vec<char>| l@);
    let input = line_value_or(lines, "input: ", "");
    let filter = line_value_or(lines, "filter: ", "all");
    let items = read_todo_items(lines);
    let ghost spec_items = todo_items(all);
    let capped_w = if w < 700 { w } else { 700 };
    let pw = capped_w * 550 / 700;
    let px = x + w.saturating_sub(pw) / 2;
    let capped_h = if h < 700 { h } else { 700 };
    let scaled = capped_h * 130 / 700;
    let main_y = y + if scaled > 96 { scaled } else { 96 };
    assert(todo_layout(x, y, w, h) == (pw, px, main_y));
    let ghost input_text = input@;
    draw_todo_header(rgba, width, height, px, pw, y, main_y, input, items.len() > 0, Ghost(base), Ghost(ops));
    let ghost o1 = ops + todo_header_ops(px, pw, y, main_y, input_text, spec_items.len() > 0, width);
    draw_todo_rows(rgba, width, height, &items, px, pw, main_y, Ghost(spec_items), Ghost(base), Ghost(o1));
    let ghost o2 = o1 + todo_rows_ops(spec_items, spec_items.len(), px, pw, main_y, width);
    let fy = main_y + 64 + (items.len() as u32) * 58;
    let active = count_active(&items, Ghost(spec_items));
    draw_todo_footer(rgba, width, height, px, pw, fy, active, filter.as_str(), Ghost(base), Ghost(o2));
    proof {
        let o3 = o2 + todo_footer_ops(px, pw, fy, active as nat, filter@, width);
        assert(o3 =~= ops + todomvc_scene(width, x, y, w, h, all));
    }
}

// ---------------------------------------------------------------------------
// The native window frame
// ---------------------------------------------------------------------------

/// The width of the example sidebar.
pub open spec fn sidebar_width(width: u32) -> u32 {
    if width / 2 < 236 { width / 2 } else { 236 }
}

/// The height of the toolbar.
pub open spec fn toolbar_height(height: u32) -> u32 {
    if height / 3 < 54 { height / 3 } else { 54 }
}

/// The preview area: its left edge, top, width and height.
pub open spec fn preview_area(width: u32, height: u32) -> (u32, u32, u32, u32) {
    let px = (sidebar_width(width) + 24) as u32;
    let py = (toolbar_height(height) + 24) as u32;
    (px, py, width.saturating_sub((px + 24) as u32), height.saturating_sub((py + 48) as u32))
}

/// The square content box centred in the preview area: its left edge, top
/// and side.
pub open spec fn content_box(width: u32, height: u32) -> (u32, u32, u32) {
    let (px, py, pw, ph) = preview_area(width, height);
    let small = if pw < ph { pw } else { ph };
    let side = if small > 1 { small } else { 1 };
    ((px + pw.saturating_sub(side) / 2) as u32, (py + ph.saturating_sub(side) / 2) as u32, side)
}

/// The window chrome: the background, the sidebar, the toolbar, the
/// divider and the product name.
pub open spec fn chrome_ops(width: u32, height: u32) -> Seq<(spec_fn(int, int) -> bool, [u8; 4])> {
    let sw = sidebar_width(width);
    seq![
        rect_op(0, 0, width, height, [16u8, 20, 26, 255]),
        rect_op(0, 0, sw, height, [24u8, 31, 40, 255]),
        rect_op(sw, 0, width.saturating_sub(sw), toolbar_height(height), [28u8, 36, 46, 255]),
        rect_op(sw.saturating_sub(1), 0, 1, height, [60u8, 76, 89, 255]),
        text_op(18, 18, 2, "Boon Rust"@, width, [226u8, 239, 245, 255]),
        text_op(18, 48, 1, "Native GUI playground"@, width, [150u8, 183, 198, 255]),
    ]
}

/// The sidebar entry of example `idx`: its function key and name, on a
/// highlight when it is the current one.
pub open spec fn example_entry_ops(name: Seq<char>, idx: nat, selected: bool, sw: u32, width: u32) -> Seq<(spec_fn(int, int) -> bool, [u8; 4])> {
    let y = (86 + idx * 30) as u32;
    (if selected {
        seq![
            rect_op(10, y.saturating_sub(8), sw.saturating_sub(20), 25, [48u8, 89, 101, 255]),
            rect_op(10, y.saturating_sub(8), 4, 25, [90u8, 220, 230, 255]),
        ]
    } else {
        Seq::empty()
    }) + seq![
        text_op(22, y, 1, seq!['F'] + dec_chars(idx + 1) + seq![' '] + name, width, if selected { [244u8, 252, 255, 255] } else { [158u8, 179, 190, 255] }),
    ]
}

/// The sidebar entries of the first `n` examples.
pub open spec fn example_list_ops(examples: Seq<Seq<char>>, current: int, sw: u32, width: u32, n: nat) -> Seq<(spec_fn(int, int) -> bool, [u8; 4])>
    decreases n,
{
    if n == 0 {
        Seq::empty()
    } else {
        example_list_ops(examples, current, sw, width, (n - 1) as nat) + example_entry_ops(examples[n - 1], (n - 1) as nat, current == n - 1, sw, width)
    }
}

/// The label of sidebar entry `idx`, drawn in `color`.
pub open spec fn entry_label_op(examples: Seq<Seq<char>>, idx: int, width: u32, color: [u8; 4]) -> (spec_fn(int, int) -> bool, [u8; 4]) {
    text_op(22, (86 + idx * 30) as u32, 1, seq!['F'] + dec_chars((idx + 1) as nat) + seq![' '] + examples[idx], width, color)
}

/// The highlight bar behind sidebar entry `idx`.
pub open spec fn entry_bar_op(idx: int, sw: u32) -> (spec_fn(int, int) -> bool, [u8; 4]) {
    rect_op(10, ((86 + idx * 30) as u32).saturating_sub(8), sw.saturating_sub(20), 25, [48u8, 89, 101, 255])
}

/// The sidebar highlights exactly the entry at `current`: every bright
/// label is that entry's label and every highlight bar is behind that
/// entry, and where `current` is one of the first `n` entries, its label is
/// drawn bright and its bar is drawn.
pub proof fn law_example_list_selection(examples: Seq<Seq<char>>, current: int, sw: u32, width: u32, n: nat)
    requires
        n <= examples.len(),
    ensures
        forall|k: int| 0 <= k < example_list_ops(examples, current, sw, width, n).len()
            && (#[trigger] example_list_ops(examples, current, sw, width, n)[k]).1 == [244u8, 252, 255, 255]
            ==> example_list_ops(examples, current, sw, width, n)[k] == entry_label_op(examples, current, width, [244u8, 252, 255, 255]),
        forall|k: int| 0 <= k < example_list_ops(examples, current, sw, width, n).len()
            && (#[trigger] example_list_ops(examples, current, sw, width, n)[k]).1 == [48u8, 89, 101, 255]
            ==> example_list_ops(examples, current, sw, width, n)[k] == entry_bar_op(current, sw),
        0 <= current < n ==> example_list_ops(examples, current, sw, width, n).contains(
            entry_label_op(examples, current, width, [244u8, 252, 255, 255]),
        ) && example_list_ops(examples, current, sw, width, n).contains(entry_bar_op(current, sw)),
    decreases n,
{
    if n > 0 {
        law_example_list_selection(examples, current, sw, width, (n - 1) as nat);
        let pre = example_list_ops(examples, current, sw, width, (n - 1) as nat);
        let idx = n - 1;
        let e = example_entry_ops(examples[idx as int], idx as nat, current == idx, sw, width);
        let all = example_list_ops(examples, current, sw, width, n);
        assert(all == pre + e);
        let dim = [158u8, 179, 190, 255];
        let bright = [244u8, 252, 255, 255];
        let bar = [48u8, 89, 101, 255];
        let edge = [90u8, 220, 230, 255];
        assert(dim[0] != bright[0]);
        assert(dim[0] != bar[0]);
        assert(edge[0] != bright[0]);
        assert(edge[0] != bar[0]);
        assert(bright[0] != bar[0]);
        assert forall|k: int| 0 <= k < all.len() && (#[trigger] all[k]).1 == bright implies all[k] == entry_label_op(examples, current, width, bright) by {
            if k < pre.len() {
                assert(all[k] == pre[k]);
            } else {
                assert(all[k] == e[k - pre.len()]);
            }
        }
        assert forall|k: int| 0 <= k < all.len() && (#[trigger] all[k]).1 == bar implies all[k] == entry_bar_op(current, sw) by {
            if k < pre.len() {
                assert(all[k] == pre[k]);
            } else {
                assert(all[k] == e[k - pre.len()]);
            }
        }
        if 0 <= current < n {
            if current < idx {
                let k1 = choose|k: int| 0 <= k < pre.len() && pre[k] == entry_label_op(examples, current, width, bright);
                assert(all[k1] == pre[k1]);
                let k2 = choose|k: int| 0 <= k < pre.len() && pre[k] == entry_bar_op(current, sw);
                assert(all[k2] == pre[k2]);
            } else {
                assert(current == idx);
                assert(all[pre.len() as int + 2] == e[2]);
                assert(all[pre.len() as int] == e[0]);
            }
        }
    }
}

/// Which preview a frame text asks for, by the words it contains: 0 for
/// TodoMVC, 1 for the cells sheet, 2 for a game, 3 for the counter, 4 for
/// the interval, 5 for none.
pub open spec fn preview_kind(frame: Seq<char>) -> int {
    if contains_seq(frame, "TodoMVC"@) || contains_seq(frame, "What needs to be done"@) {
        0
    } else if contains_seq(frame, "Cells"@) || contains_seq(frame, "selected:"@) {
        1
    } else if contains_seq(frame, "Pong"@) || contains_seq(frame, "Arkanoid"@) {
        2
    } else if contains_seq(frame, "Counter"@) {
        3
    } else if contains_seq(frame, "Interval"@) {
        4
    } else {
        5
    }
}

/// The preview of the frame text in the content box at (`x`, `y`) of side
/// `side`; a frame text that names no example is written out as it is.
pub open spec fn preview_ops(frame: Seq<char>, width: u32, x: u32, y: u32, side: u32) -> Seq<(spec_fn(int, int) -> bool, [u8; 4])> {
    let lines = text_lines(frame);
    let kind = preview_kind(frame);
    if kind == 0 {
        todomvc_scene(width, x, y, side, side, lines)
    } else if kind == 1 {
        cells_scene(width, x, y, side, side, lines)
    } else if kind == 2 {
        game_scene(width, x, y, side, side, title_of(lines), frame_number(lines))
    } else if kind == 3 {
        counter_scene(width, x, y, side, side, value_or(lines, "count: "@, "0"@))
    } else if kind == 4 {
        interval_scene(width, x, y, side, side, value_or(lines, "ticks: "@, "0"@), value_or(lines, "fake_clock_ms: "@, "0"@))
    } else {
        seq![text_op((x + 32) as u32, (y + 32) as u32, 2, frame, width, [28u8, 42, 52, 255])]
    }
}

/// The native window frame: the chrome, the example list, the title of
/// the frame text, the key hints, the preview panel with the preview of
/// the frame text, and the controls line.
pub open spec fn gui_scene(
    width: u32,
    height: u32,
    examples: Seq<Seq<char>>,
    current: int,
    frame: Seq<char>,
    controls: Seq<char>,
) -> Seq<(spec_fn(int, int) -> bool, [u8; 4])> {
    let sw = sidebar_width(width);
    let (cx, cy, side) = content_box(width, height);
    chrome_ops(width, height) + example_list_ops(examples, current, sw, width, examples.len()) + panel_ops(
        width,
        height,
        title_of(text_lines(frame)),
    ) + preview_ops(frame, width, cx, cy, side) + seq![
        text_op((sw + 24) as u32, height.saturating_sub(28), 1, controls, width, [140u8, 173, 156, 255]),
    ]
}

/// Where the frame's layout arithmetic stays in `u32` for the preview the
/// frame text asks for: the counter's button and the TodoMVC heading do
/// not pass the top-left corner, the game's ball path stays in range, and
/// the TodoMVC footer stays in range.
pub open spec fn gui_arithmetic_fits(width: u32, height: u32, frame: Seq<char>) -> bool {
    let lines = text_lines(frame);
    let (cx, cy, side) = content_box(width, height);
    let kind = preview_kind(frame);
    &&& kind == 0 ==> todomvc_fits(cx, cy, side, side, lines)
    &&& kind == 2 ==> frame_number(lines) * 9 <= u32::MAX && cx + 52 + side.saturating_sub(104) / 2 >= 54
    &&& kind == 3 ==> cx + side / 2 >= 110 && cy + side / 2 >= 48
}

/// An all-zero frame of `n` bytes.
pub open spec fn blank(n: nat) -> Seq<u8> {
    Seq::new(n, |i: int| 0u8)
}

proof fn lemma_content_box_fits(width: u32, height: u32)
    requires
        frame_fits(width, height),
    ensures
        box_fits(content_box(width, height).0, content_box(width, height).1, content_box(width, height).2, content_box(width, height).2),
{
    let (px, py, pw, ph) = preview_area(width, height);
    let (cx, cy, side) = content_box(width, height);
    if width >= 1 && height >= 1 {
        assert(width <= u32::MAX / 4) by (nonlinear_arith)
            requires
                width * height * 4 <= u32::MAX,
                height >= 1,
        ;
        assert(height <= u32::MAX / 4) by (nonlinear_arith)
            requires
                width * height * 4 <= u32::MAX,
                width >= 1,
        ;
    }
}

fn draw_example_list(
    rgba: &mut Vec<u8>,
    width: u32,
    height: u32,
    examples: &[&str],
    current_index: usize,
    sw: u32,
    Ghost(base): Ghost<Seq<u8>>,
    Ghost(ops): Ghost<Seq<(spec_fn(int, int) -> bool, [u8; 4])>>,
)
    requires
        old(rgba)@.len() == width * height * 4,
        frame_fits(width, height),
        sw <= 236,
        examples@.len() * 30 + 1000 <= u32::MAX,
        scene_painted(base, old(rgba)@, width, height, ops),
    ensures
        final(rgba)@.len() == width * height * 4,
        scene_painted(base, final(rgba)@, width, height, ops + example_list_ops(
            examples@.map_values(|e: &str| e@),
            current_index as int,
            sw,
            width,
            examples@.len(),
        )),
{
    let ghost names = examples@.map_values(|e: &str| e@);
    let ghost mut cur = ops;
    assert(cur =~= ops + example_list_ops(names, current_index as int, sw, width, 0));
    let mut i: usize = 0;
    while i < examples.len()
        invariant
            i <= examples@.len(),
            names == examples@.map_values(|e: &str| e@),
            rgba@.len() == width * height * 4,
            frame_fits(width, height),
            sw <= 236,
            examples@.len() * 30 + 1000 <= u32::MAX,
            cur == ops + example_list_ops(names, current_index as int, sw, width, i as nat),
            scene_painted(base, rgba@, width, height, cur),
        decreases examples.len() - i,
    {
        assert(i * 30 <= examples@.len() * 30) by (nonlinear_arith)
            requires
                i <= examples@.len(),
        ;
        let y = 86 + (i as u32) * 30;
        let selected = i == current_index;
        let ghost start = cur;
        if selected {
            scene_rect(rgba, width, height, 10, y.saturating_sub(8), sw.saturating_sub(20), 25, [48, 89, 101, 255], Ghost(base), Ghost(cur));
            proof { cur = cur.push(rect_op(10, y.saturating_sub(8), sw.saturating_sub(20), 25, [48u8, 89, 101, 255])); }
            scene_rect(rgba, width, height, 10, y.saturating_sub(8), 4, 25, [90, 220, 230, 255], Ghost(base), Ghost(cur));
            proof { cur = cur.push(rect_op(10, y.saturating_sub(8), 4, 25, [90u8, 220, 230, 255])); }
        }
        let mut label: Vec<char> = Vec::new();
        label.push('F');
        push_decimal(&mut label, (i + 1) as u64);
        label.push(' ');
        push_str(&mut label, examples[i]);
        let label_text = string_of(&label);
        let color: [u8; 4] = if selected { [244, 252, 255, 255] } else { [158, 179, 190, 255] };
        scene_text(rgba, width, height, 22, y, 1, label_text.as_str(), color, Ghost(base), Ghost(cur));
        proof {
            assert(names[i as int] == examples@[i as int]@);
            assert(label_text@ =~= seq!['F'] + dec_chars((i + 1) as nat) + seq![' '] + names[i as int]);
            cur = cur.push(text_op(22, y, 1, label_text@, width, color));
            assert(cur =~= start + example_entry_ops(names[i as int], i as nat, current_index as int == i as int, sw, width));
            assert(cur =~= ops + example_list_ops(names, current_index as int, sw, width, (i + 1) as nat));
        }
        i = i + 1;
    }
}

fn draw_preview(
    rgba: &mut Vec<u8>,
    width: u32,
    height: u32,
    frame_text: &str,
    lines: &Vec<Vec<char>>,
    x: u32,
    y: u32,
    side: u32,
    Ghost(base): Ghost<Seq<u8>>,
    Ghost(ops): Ghost<Seq<(spec_fn(int, int) -> bool, [u8; 4])>>,
)
    requires
        old(rgba)@.len() == width * height * 4,
        frame_fits(width, height),
        box_fits(x, y, side, side),
        (x, y, side) == content_box(width, height),
        gui_arithmetic_fits(width, height, frame_text@),
        lines@.map_values(|l: Vec<char>| l@) == text_lines(frame_text@),
        scene_painted(base, old(rgba)@, width, height, ops),
    ensures
        final(rgba)@.len() == width * height * 4,
        scene_painted(base, final(rgba)@, width, height, ops + preview_ops(frame_text@, width, x, y, side)),
{
    if str_contains(frame_text, "TodoMVC") || str_contains(frame_text, "What needs to be done") {
        draw_todomvc_preview(rgba, width, height, x, y, side, side, lines, Ghost(base), Ghost(ops));
    } else if str_contains(frame_text, "Cells") || str_contains(frame_text, "selected:") {
        draw_cells_preview(rgba, width, height, x, y, side, side, lines, Ghost(base), Ghost(ops));
    } else if str_contains(frame_text, "Pong") || str_contains(frame_text, "Arkanoid") {
        draw_game_preview(rgba, width, height, x, y, side, side, lines, Ghost(base), Ghost(ops));
    } else if str_contains(frame_text, "Counter") {
        draw_counter_preview(rgba, width, height, x, y, side, side, lines, Ghost(base), Ghost(ops));
    } else if str_contains(frame_text, "Interval") {
        draw_interval_preview(rgba, width, height, x, y, side, side, lines, Ghost(base), Ghost(ops));
    } else {
        scene_text(rgba, width, height, x + 32, y + 32, 2, frame_text, [28, 42, 52, 255], Ghost(base), Ghost(ops));
        proof {
            assert(ops.push(text_op((x + 32) as u32, (y + 32) as u32, 2, frame_text@, width, [28u8, 42, 52, 255])) =~= ops + preview_ops(frame_text@, width, x, y, side));
        }
    }
}

fn draw_chrome(
    rgba: &mut Vec<u8>,
    width: u32,
    height: u32,
    Ghost(base): Ghost<Seq<u8>>,
    Ghost(ops): Ghost<Seq<(spec_fn(int, int) -> bool, [u8; 4])>>,
)
    requires
        old(rgba)@.len() == width * height * 4,
        frame_fits(width, height),
        scene_painted(base, old(rgba)@, width, height, ops),
    ensures
        final(rgba)@.len() == width * height * 4,
        scene_painted(base, final(rgba)@, width, height, ops + chrome_ops(width, height)),
{
    let ghost mut cur = ops;
    scene_rect(rgba, width, height, 0, 0, width, height, [16, 20, 26, 255], Ghost(base), Ghost(cur));
    proof { cur = cur.push(rect_op(0, 0, width, height, [16u8, 20, 26, 255])); }
    let sw = if width / 2 < 236 { width / 2 } else { 236 };
    let th = if height / 3 < 54 { height / 3 } else { 54 };
    scene_rect(rgba, width, height, 0, 0, sw, height, [24, 31, 40, 255], Ghost(base), Ghost(cur));
    proof { cur = cur.push(rect_op(0, 0, sw, height, [24u8, 31, 40, 255])); }
    scene_rect(rgba, width, height, sw, 0, width.saturating_sub(sw), th, [28, 36, 46, 255], Ghost(base), Ghost(cur));
    proof { cur = cur.push(rect_op(sw, 0, width.saturating_sub(sw), th, [28u8, 36, 46, 255])); }
    scene_rect(rgba, width, height, sw.saturating_sub(1), 0, 1, height, [60, 76, 89, 255], Ghost(base), Ghost(cur));
    proof { cur = cur.push(rect_op(sw.saturating_sub(1), 0, 1, height, [60u8, 76, 89, 255])); }
    scene_text(rgba, width, height, 18, 18, 2, "Boon Rust", [226, 239, 245, 255], Ghost(base), Ghost(cur));
    proof { cur = cur.push(text_op(18, 18, 2, "Boon Rust"@, width, [226u8, 239, 245, 255])); }
    scene_text(rgba, width, height, 18, 48, 1, "Native GUI playground", [150, 183, 198, 255], Ghost(base), Ghost(cur));
    proof {
        cur = cur.push(text_op(18, 48, 1, "Native GUI playground"@, width, [150u8, 183, 198, 255]));
        assert(cur =~= ops + chrome_ops(width, height));
    }
}

/// The toolbar texts and the preview panel of the frame.
pub open spec fn panel_ops(width: u32, height: u32, title: Seq<char>) -> Seq<(spec_fn(int, int) -> bool, [u8; 4])> {
    let sw = sidebar_width(width);
    let (px, py, pw, ph) = preview_area(width, height);
    seq![
        text_op((sw + 22) as u32, 21, 2, title, width, [236u8, 244, 247, 255]),
        text_op((sw + 340) as u32, 25, 1, "Esc quit | Tab next | F1-F9 examples"@, width, [142u8, 176, 192, 255]),
        rect_op(px, py, pw, ph, [245u8, 245, 245, 255]),
        outline_op(px, py, pw, ph, [78u8, 98, 112, 255]),
    ]
}

fn draw_panel(
    rgba: &mut Vec<u8>,
    width: u32,
    height: u32,
    title: &str,
    Ghost(base): Ghost<Seq<u8>>,
    Ghost(ops): Ghost<Seq<(spec_fn(int, int) -> bool, [u8; 4])>>,
)
    requires
        old(rgba)@.len() == width * height * 4,
        frame_fits(width, height),
        scene_painted(base, old(rgba)@, width, height, ops),
    ensures
        final(rgba)@.len() == width * height * 4,
        scene_painted(base, final(rgba)@, width, height, ops + panel_ops(width, height, title@)),
{
    let ghost mut cur = ops;
    let sw = if width / 2 < 236 { width / 2 } else { 236 };
    let th = if height / 3 < 54 { height / 3 } else { 54 };
    scene_text(rgba, width, height, sw + 22, 21, 2, title, [236, 244, 247, 255], Ghost(base), Ghost(cur));
    proof { cur = cur.push(text_op((sw + 22) as u32, 21, 2, title@, width, [236u8, 244, 247, 255])); }
    scene_text(rgba, width, height, sw + 340, 25, 1, "Esc quit | Tab next | F1-F9 examples", [142, 176, 192, 255], Ghost(base), Ghost(cur));
    proof { cur = cur.push(text_op((sw + 340) as u32, 25, 1, "Esc quit | Tab next | F1-F9 examples"@, width, [142u8, 176, 192, 255])); }
    let preview_x = sw + 24;
    let preview_y = th + 24;
    let preview_w = width.saturating_sub(preview_x + 24);
    let preview_h = height.saturating_sub(preview_y + 48);
    scene_rect(rgba, width, height, preview_x, preview_y, preview_w, preview_h, [245, 245, 245, 255], Ghost(base), Ghost(cur));
    proof { cur = cur.push(rect_op(preview_x, preview_y, preview_w, preview_h, [245u8, 245, 245, 255])); }
    scene_outline(rgba, width, height, preview_x, preview_y, preview_w, preview_h, [78, 98, 112, 255], Ghost(base), Ghost(cur));
    proof {
        cur = cur.push(outline_op(preview_x, preview_y, preview_w, preview_h, [78u8, 98, 112, 255]));
        assert(cur =~= ops + panel_ops(width, height, title@));
    }
}

/// The frame of the native window: a sidebar listing the examples with
/// the current one highlighted, a toolbar with the title of the frame
/// text and the key hints, a preview of the frame text, and the controls
/// line at the bottom.
#[verifier::spinoff_prover]
pub fn rasterize_native_gui_frame(
    width: u32,
    height: u32,
    examples: &[&str],
    current_index: usize,
    frame_text: &str,
    controls: &str,
) -> (r: Vec<u8>)
    requires
        frame_fits(width, height),
        examples@.len() * 30 + 1000 <= u32::MAX,
        gui_arithmetic_fits(width, height, frame_text@),
    ensures
        r@.len() == width * height * 4,
        scene_painted(blank((width * height * 4) as nat), r@, width, height, gui_scene(
            width,
            height,
            examples@.map_values(|e: &str| e@),
            current_index as int,
            frame_text@,
            controls@,
        )),
{
    let n = (width as usize) * (height as usize) * 4;
    let mut rgba: Vec<u8> = vec![0u8; n];
    let ghost base = rgba@;
    proof {
        assert(base =~= blank(n as nat));
        lemma_scene_start(base, width, height);
    }
    let ghost names = examples@.map_values(|e: &str| e@);
    let ghost o0: Seq<(spec_fn(int, int) -> bool, [u8; 4])> = Seq::empty();
    draw_chrome(&mut rgba, width, height, Ghost(base), Ghost(o0));
    let ghost o1 = o0 + chrome_ops(width, height);
    let sw = if width / 2 < 236 { width / 2 } else { 236 };
    draw_example_list(&mut rgba, width, height, examples, current_index, sw, Ghost(base), Ghost(o1));
    let ghost o2 = o1 + example_list_ops(names, current_index as int, sw, width, examples@.len());
    let chars = chars_of(frame_text);
    let lines = crate::text::lines_of(&chars);
    proof {
        assert(lines@.map_values(|l: Vec<char>| l@) =~= text_lines(frame_text@));
    }
    let title = current_example_title(&lines);
    draw_panel(&mut rgba, width, height, title.as_str(), Ghost(base), Ghost(o2));
    let ghost o3 = o2 + panel_ops(width, height, title@);
    let th = if height / 3 < 54 { height / 3 } else { 54 };
    let preview_x = sw + 24;
    let preview_y = th + 24;
    let preview_w = width.saturating_sub(preview_x + 24);
    let preview_h = height.saturating_sub(preview_y + 48);
    let small = if preview_w < preview_h { preview_w } else { preview_h };
    let side = if small > 1 { small } else { 1 };
    let content_x = preview_x + preview_w.saturating_sub(side) / 2;
    let content_y = preview_y + preview_h.saturating_sub(side) / 2;
    assert(content_box(width, height) == (content_x, content_y, side));
    proof {
        lemma_content_box_fits(width, height);
    }
    draw_preview(&mut rgba, width, height, frame_text, &lines, content_x, content_y, side, Ghost(base), Ghost(o3));
    let ghost o4 = o3 + preview_ops(frame_text@, width, content_x, content_y, side);
    scene_text(&mut rgba, width, height, sw + 24, height.saturating_sub(28), 1, controls, [140, 173, 156, 255], Ghost(base), Ghost(o4));
    proof {
        let o5 = o4.push(text_op((sw + 24) as u32, height.saturating_sub(28), 1, controls@, width, [140u8, 173, 156, 255]));
        assert(o5 =~= gui_scene(width, height, names, current_index as int, frame_text@, controls@));
    }
    rgba
}

/// Whether the frame text names one of the examples with a graphical
/// preview.
pub open spec fn names_graphical_example(frame: Seq<char>) -> bool {
    ||| contains_seq(frame, "TodoMVC"@)
    ||| contains_seq(frame, "What needs to be done"@)
    ||| contains_seq(frame, "Cells"@)
    ||| contains_seq(frame, "Pong"@)
    ||| contains_seq(frame, "Arkanoid"@)
    ||| contains_seq(frame, "Counter"@)
    ||| contains_seq(frame, "Interval"@)
}

/// Whether the frame text is one of the examples with a graphical
/// preview.
pub fn is_graphical_preview_frame(frame_text: &str) -> (r: bool)
    ensures
        r == names_graphical_example(frame_text@),
{
    str_contains(frame_text, "TodoMVC") || str_contains(frame_text, "What needs to be done") || str_contains(frame_text, "Cells")
        || str_contains(frame_text, "Pong") || str_contains(frame_text, "Arkanoid") || str_contains(frame_text, "Counter")
        || str_contains(frame_text, "Interval")
}

/// The lines joined with line feeds between them.
pub open spec fn join_lines(lines: Seq<Seq<char>>) -> Seq<char>
    decreases lines.len(),
{
    if lines.len() == 0 {
        Seq::empty()
    } else if lines.len() == 1 {
        lines[0]
    } else {
        join_lines(lines.drop_last()) + seq!['\n'] + lines.last()
    }
}

/// The frame text as the window shows it: at most 33 lines of at most 104
/// characters each.
pub open spec fn clipped_frame_text(frame: Seq<char>) -> Seq<char> {
    let lines = text_lines(frame);
    let kept = if lines.len() < 33 { lines } else { lines.take(33) };
    join_lines(kept.map_values(|l: Seq<char>| if l.len() < 104 { l } else { l.take(104) }))
}

/// Cuts the frame text to the first 33 lines and the first 104
/// characters of each.
pub fn clip_frame_text(frame_text: &str) -> (r: String)
    ensures
        r@ == clipped_frame_text(frame_text@),
{
    let chars = chars_of(frame_text);
    let lines = crate::text::lines_of(&chars);
    let ghost all = text_lines(frame_text@);
    let ghost kept = if all.len() < 33 { all } else { all.take(33) };
    let ghost cut = kept.map_values(|l: Seq<char>| if l.len() < 104 { l } else { l.take(104) });
    let mut out: Vec<char> = Vec::new();
    let mut i: usize = 0;
    while i < lines.len() && i < 33
        invariant
            i <= lines@.len(),
            i <= 33,
            all == text_lines(frame_text@),
            lines@.len() == all.len(),
            forall|k: int| 0 <= k < lines@.len() ==> (#[trigger] lines@[k])@ == all[k],
            kept == if all.len() < 33 { all } else { all.take(33) },
            cut == kept.map_values(|l: Seq<char>| if l.len() < 104 { l } else { l.take(104) }),
            out@ == join_lines(cut.take(i as int)),
        decreases lines.len() - i,
    {
        let line = &lines[i];
        let keep = if line.len() < 104 { line.len() } else { 104 };
        let piece = slice_range(line.as_slice(), 0, keep);
        proof {
            assert(cut[i as int] == piece@);
            assert(cut.take(i + 1).drop_last() =~= cut.take(i as int));
        }
        if i > 0 {
            out.push('\n');
        }
        push_all(&mut out, &piece);
        proof {
            if i == 0 {
                assert(out@ =~= join_lines(cut.take(1)));
            } else {
                assert(out@ =~= join_lines(cut.take(i + 1)));
            }
        }
        i = i + 1;
    }
    assert(cut.take(i as int) =~= cut);
    string_of(&out)
}

/// `value` rounded up to a multiple of `alignment`.
pub fn align_to(value: u32, alignment: u32) -> (r: u32)
    requires
        alignment > 0,
        (value + alignment - 1) / (alignment as int) * alignment <= u32::MAX,
    ensures
        r == (value + alignment - 1) / (alignment as int) * alignment,
        r % alignment == 0,
        value <= r < value + alignment,
{
    let d = value / alignment;
    assert(value % alignment != 0 ==> d < u32::MAX) by (nonlinear_arith)
        requires
            alignment > 0,
            d == value / alignment,
    ;
    let q = if value % alignment == 0 { d } else { d + 1 };
    assert(q == (value + alignment - 1) / (alignment as int)) by (nonlinear_arith)
        requires
            alignment > 0,
            q == value / alignment + if value % alignment == 0 { 0int } else { 1int },
    ;
    assert(value <= q * alignment < value + alignment) by (nonlinear_arith)
        requires
            alignment > 0,
            q == (value + alignment - 1) / (alignment as int),
    ;
    assert((q * alignment) % (alignment as int) == 0) by (nonlinear_arith)
        requires
            alignment > 0,
    ;
    q * alignment
}

/// The colour of pixel `p` of a frame.
pub open spec fn color_at(rgba: Seq<u8>, p: int) -> (u8, u8, u8, u8) {
    (rgba[4 * p], rgba[4 * p + 1], rgba[4 * p + 2], rgba[4 * p + 3])
}

/// The colours of the first `n` sampled pixels, `stride` pixels apart.
pub open spec fn sampled_colors(rgba: Seq<u8>, stride: int, n: int) -> Seq<(u8, u8, u8, u8)> {
    Seq::new(n as nat, |k: int| color_at(rgba, k * stride))
}

/// How many different colours a sequence holds.
pub open spec fn distinct_count(s: Seq<(u8, u8, u8, u8)>) -> nat
    decreases s.len(),
{
    if s.len() == 0 {
        0
    } else {
        distinct_count(s.drop_last()) + if s.drop_last().contains(s.last()) { 0nat } else { 1nat }
    }
}

proof fn lemma_distinct_count_prefix(s: Seq<(u8, u8, u8, u8)>, k: int)
    requires
        0 <= k <= s.len(),
    ensures
        distinct_count(s.take(k)) <= distinct_count(s),
    decreases s.len() - k,
{
    if k < s.len() {
        lemma_distinct_count_prefix(s, k + 1);
        assert(s.take(k + 1).drop_last() =~= s.take(k));
    } else {
        assert(s.take(k) =~= s);
    }
}

/// The sampling of a frame: one pixel in every `stride`, with `stride` the
/// pixel count over 4096 but at least 1; the number of samples.
pub open spec fn sampling(len: nat) -> (int, int) {
    let pixels = (len / 4) as int;
    let stride: int = if pixels / 4096 > 1 { pixels / 4096 } else { 1 };
    (stride, (pixels + stride - 1) / stride)
}

fn contains_color(colors: &Vec<(u8, u8, u8, u8)>, c: (u8, u8, u8, u8)) -> (r: bool)
    ensures
        r == colors@.contains(c),
{
    let mut i: usize = 0;
    while i < colors.len()
        invariant
            i <= colors@.len(),
            forall|j: int| 0 <= j < i ==> colors@[j] != c,
        decreases colors.len() - i,
    {
        let d = colors[i];
        if d.0 == c.0 && d.1 == c.1 && d.2 == c.2 && d.3 == c.3 {
            assert(colors@[i as int] == c);
            return true;
        }
        i = i + 1;
    }
    false
}

/// How many different colours a sample of the frame's pixels shows, up to
/// 1024.
pub fn sampled_color_count(rgba: &[u8]) -> (r: usize)
    ensures
        r == (if rgba@.len() / 4 == 0 {
            0
        } else {
            let (stride, n) = sampling(rgba@.len());
            let d = distinct_count(sampled_colors(rgba@, stride, n));
            if d < 1024 { d } else { 1024 }
        }),
{
    let pixel_count = rgba.len() / 4;
    if pixel_count == 0 {
        return 0;
    }
    let stride = if pixel_count / 4096 > 1 { pixel_count / 4096 } else { 1 };
    let ghost n = (pixel_count + stride - 1) / (stride as int);
    let ghost all = sampled_colors(rgba@, stride as int, n);
    assert(n >= 1) by (nonlinear_arith)
        requires
            pixel_count >= 1,
            stride >= 1,
            n == (pixel_count + stride - 1) / (stride as int),
    ;
    assert(stride <= pixel_count);
    let mut colors: Vec<(u8, u8, u8, u8)> = Vec::new();
    let mut p: usize = 0;
    let ghost mut k: int = 0;
    while p < pixel_count
        invariant_except_break
            p < pixel_count ==> k < n,
            p >= pixel_count ==> k == n,
            colors@.len() < 1024,
        invariant
            pixel_count == rgba@.len() / 4,
            pixel_count * 4 <= rgba.len(),
            stride >= 1,
            stride <= pixel_count,
            n == (pixel_count + stride - 1) / (stride as int),
            all == sampled_colors(rgba@, stride as int, n),
            0 <= k <= n,
            p == k * stride,
            colors@.len() == distinct_count(all.take(k)),
            colors@.len() <= 1024,
            forall|c: (u8, u8, u8, u8)| colors@.contains(c) <==> all.take(k).contains(c),
        ensures
            colors@.len() == 1024 || k == n,
            colors@.len() == distinct_count(all.take(k)),
            0 <= k <= n,
        decreases n - k,
    {
        proof {
            assert(k < n) by (nonlinear_arith)
                requires
                    p == k * stride,
                    p < pixel_count,
                    stride >= 1,
                    n == (pixel_count + stride - 1) / (stride as int),
            ;
            assert(4 * p + 3 < rgba@.len());
        }
        let idx = p * 4;
        let c = (rgba[idx], rgba[idx + 1], rgba[idx + 2], rgba[idx + 3]);
        proof {
            assert(all[k] == c);
            assert(all.take(k + 1).drop_last() =~= all.take(k));
            assert(all.take(k + 1).last() == c);
        }
        let ghost before = colors@;
        let seen = contains_color(&colors, c);
        if !seen {
            colors.push(c);
        }
        proof {
            assert forall|d: (u8, u8, u8, u8)| #[trigger] colors@.contains(d) <==> (before.contains(d) || d == c) by {
                if !seen {
                    assert(colors@ == before.push(c));
                    if before.contains(d) {
                        let j = choose|j: int| #![auto] 0 <= j < before.len() && before[j] == d;
                        assert(colors@[j] == d);
                    }
                    if d == c {
                        assert(colors@[before.len() as int] == d);
                    }
                    if colors@.contains(d) && d != c {
                        let j = choose|j: int| #![auto] 0 <= j < colors@.len() && colors@[j] == d;
                        assert(before[j] == d);
                    }
                }
            }
            let t1 = all.take(k + 1);
            let t0 = all.take(k);
            assert forall|d: (u8, u8, u8, u8)| #[trigger] t1.contains(d) <==> (t0.contains(d) || d == c) by {
                if t1.contains(d) && d != c {
                    let j = choose|j: int| 0 <= j < t1.len() && t1[j] == d;
                    assert(t0[j] == d);
                }
                if t0.contains(d) {
                    let j = choose|j: int| 0 <= j < t0.len() && t0[j] == d;
                    assert(t1[j] == d);
                }
                if d == c {
                    assert(t1[k] == d);
                }
            }
            k = k + 1;
        }
        let ghost pk = p;
        p = p + stride;
        proof {
            assert(p == k * stride) by (nonlinear_arith)
                requires
                    p == pk + stride,
                    pk == (k - 1) * stride,
            ;
        }
        if colors.len() >= 1024 {
            break;
        }
        proof {
            assert(p < pixel_count ==> k < n) by (nonlinear_arith)
                requires
                    p == k * stride,
                    stride >= 1,
                    n == (pixel_count + stride - 1) / (stride as int),
            ;
            assert(p >= pixel_count ==> k == n) by (nonlinear_arith)
                requires
                    p == k * stride,
                    (k - 1) * stride < pixel_count,
                    stride >= 1,
                    n == (pixel_count + stride - 1) / (stride as int),
            ;
        }
    }
    proof {
        lemma_distinct_count_prefix(all, k);
        if k == n {
            assert(all.take(k) =~= all);
        }
    }
    colors.len()
}

} // verus!
