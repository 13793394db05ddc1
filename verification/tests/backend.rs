use boon::backend::browser::test_api_symbol;
use boon::backend::raster::{
    align_to, clip_frame_text, draw_rect, draw_rect_outline, draw_text, is_graphical_preview_frame,
    rasterize_native_gui_frame, sampled_color_count,
};
use boon::backend::terminal::{stable_hash, RatatuiBackend};
use boon::render_ir::HostPatch;

#[test]
fn browser_test_api_symbol() {
    assert_eq!(test_api_symbol(), "window.__boonTest");
}

#[test]
fn terminal_backend_keeps_the_last_frame_text() {
    let mut backend = RatatuiBackend::new(80, 24);
    let blank = backend.render_frame();
    assert!(!blank.nonblank);
    backend.apply_patches(&[
        HostPatch::ReplaceFrameText { text: "first".to_string() },
        HostPatch::SetTag { id: boon::render_ir::NodeId(1), tag: "x".to_string() },
        HostPatch::ReplaceFrameText { text: "Counter\ncount: 1".to_string() },
    ]);
    let snapshot = backend.capture_frame();
    assert_eq!(snapshot.text, "Counter\ncount: 1");
    assert_eq!(snapshot.width, 80);
    assert_eq!(snapshot.height, 24);
    assert_eq!(snapshot.rgba_hash, None);
    let info = backend.render_frame();
    assert!(info.nonblank);
    assert_eq!(info.hash, stable_hash("Counter\ncount: 1"));
}

#[test]
fn whitespace_frames_are_blank() {
    let mut backend = RatatuiBackend::new(10, 10);
    backend.apply_patches(&[HostPatch::ReplaceFrameText { text: "  \n\t ".to_string() }]);
    assert!(!backend.render_frame().nonblank);
}

#[test]
fn stable_hash_is_sixteen_hex_digits_and_tells_texts_apart() {
    let a = stable_hash("alpha");
    let b = stable_hash("beta");
    assert_eq!(a.len(), 16);
    assert!(a.chars().all(|c| c.is_ascii_hexdigit() && !c.is_ascii_uppercase()));
    assert_eq!(a, stable_hash("alpha"));
    assert_ne!(a, b);
}

fn pixel(rgba: &[u8], width: u32, x: u32, y: u32) -> [u8; 4] {
    let i = ((y * width + x) * 4) as usize;
    [rgba[i], rgba[i + 1], rgba[i + 2], rgba[i + 3]]
}

#[test]
fn draw_rect_paints_only_its_clipped_pixels() {
    let mut rgba = vec![0u8; 4 * 3 * 4];
    draw_rect(&mut rgba, 4, 3, 2, 1, 10, 1, [9, 8, 7, 6]);
    assert_eq!(pixel(&rgba, 4, 2, 1), [9, 8, 7, 6]);
    assert_eq!(pixel(&rgba, 4, 3, 1), [9, 8, 7, 6]);
    assert_eq!(pixel(&rgba, 4, 1, 1), [0, 0, 0, 0]);
    assert_eq!(pixel(&rgba, 4, 2, 0), [0, 0, 0, 0]);
    assert_eq!(pixel(&rgba, 4, 2, 2), [0, 0, 0, 0]);
}

#[test]
fn outline_leaves_the_inside() {
    let mut rgba = vec![0u8; 5 * 5 * 4];
    draw_rect_outline(&mut rgba, 5, 5, 0, 0, 5, 5, [1, 2, 3, 4]);
    assert_eq!(pixel(&rgba, 5, 0, 0), [1, 2, 3, 4]);
    assert_eq!(pixel(&rgba, 5, 4, 4), [1, 2, 3, 4]);
    assert_eq!(pixel(&rgba, 5, 0, 2), [1, 2, 3, 4]);
    assert_eq!(pixel(&rgba, 5, 2, 2), [0, 0, 0, 0]);
}

#[test]
fn text_draws_glyph_cells() {
    let mut rgba = vec![0u8; 40 * 10 * 4];
    draw_text(&mut rgba, 40, 10, 0, 0, 1, "I", [5, 5, 5, 255]);
    // The glyph of I: a full top row, then the middle column.
    assert_eq!(pixel(&rgba, 40, 0, 0), [5, 5, 5, 255]);
    assert_eq!(pixel(&rgba, 40, 4, 0), [5, 5, 5, 255]);
    assert_eq!(pixel(&rgba, 40, 2, 3), [5, 5, 5, 255]);
    assert_eq!(pixel(&rgba, 40, 0, 3), [0, 0, 0, 0]);
    assert_eq!(pixel(&rgba, 40, 5, 0), [0, 0, 0, 0]);
}

#[test]
fn lowercase_draws_as_capital() {
    let mut upper = vec![0u8; 40 * 10 * 4];
    let mut lower = vec![0u8; 40 * 10 * 4];
    draw_text(&mut upper, 40, 10, 1, 1, 1, "K", [1, 1, 1, 1]);
    draw_text(&mut lower, 40, 10, 1, 1, 1, "k", [1, 1, 1, 1]);
    assert_eq!(upper, lower);
}

#[test]
fn gui_frame_has_sidebar_toolbar_and_title() {
    let (w, h) = (640u32, 480u32);
    let rgba = rasterize_native_gui_frame(w, h, &["counter", "todo_mvc"], 0, "Counter\ncount: 3", "Tab next");
    assert_eq!(rgba.len(), (w * h * 4) as usize);
    assert_eq!(pixel(&rgba, w, 0, 0), [24, 31, 40, 255]);
    assert_eq!(pixel(&rgba, w, w - 1, 0), [28, 36, 46, 255]);
    // The first cell of the B of "Boon Rust", drawn at (18, 18) at scale 2.
    assert_eq!(pixel(&rgba, w, 18, 18), [226, 239, 245, 255]);
    assert!(sampled_color_count(&rgba) > 5);
}

#[test]
fn gui_frame_previews_each_example() {
    for text in [
        "TodoMVC\ninput: milk\nfilter: active\n1 [x] buy eggs\n2 [ ] walk",
        "Cells\nselected: A1\nA1: 5\nB1: =add(A1, A1)",
        "Arkanoid\nframe: 24",
        "Pong\nframe: 3",
        "Interval\nticks: 4\nfake_clock_ms: 4000",
        "Something else",
    ] {
        let rgba = rasterize_native_gui_frame(800, 600, &["a"], 5, text, "");
        assert_eq!(rgba.len(), 800 * 600 * 4);
    }
}

#[test]
fn sampled_colors_of_a_blank_frame() {
    assert_eq!(sampled_color_count(&[]), 0);
    assert_eq!(sampled_color_count(&vec![0u8; 64]), 1);
    let mut two = vec![0u8; 64];
    two[4] = 1;
    assert_eq!(sampled_color_count(&two), 2);
}

#[test]
fn clipping_keeps_33_lines_of_104_characters() {
    assert_eq!(clip_frame_text("a\r\nb\n"), "a\nb");
    let long = "x".repeat(200);
    assert_eq!(clip_frame_text(&long).len(), 104);
    let many = (0..40).map(|i| i.to_string()).collect::<Vec<_>>().join("\n");
    assert_eq!(clip_frame_text(&many).lines().count(), 33);
}

#[test]
fn graphical_previews_are_recognised() {
    assert!(is_graphical_preview_frame("Counter\ncount: 1"));
    assert!(is_graphical_preview_frame("my Arkanoid"));
    assert!(!is_graphical_preview_frame("hello"));
}

#[test]
fn align_to_rounds_up() {
    assert_eq!(align_to(5, 4), 8);
    assert_eq!(align_to(8, 4), 8);
    assert_eq!(align_to(0, 256), 0);
    assert_eq!(align_to(257, 256), 512);
}
