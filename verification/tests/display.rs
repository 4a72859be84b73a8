use chip8::gfx::{Color, draw, render_frame};

#[test]
fn color_from_u32_unpacks_bytes() {
    assert_eq!(Color::from_u32(0x00FF8040), Color(0xFF, 0x80, 0x40));
    assert_eq!(Color::from_u32(0), Color(0, 0, 0));
    assert_eq!(Color::from_u32(0xFFFFFFFF), Color(0xFF, 0xFF, 0xFF));
    assert_eq!(Color::from_u32(0x00010203), Color(1, 2, 3));
}

#[test]
fn draw_emits_true_color_half_block() {
    let s = draw(Color(255, 0, 0), Color(0, 0, 255));
    assert_eq!(s, "\u{1b}[38;2;255;0;0m\u{1b}[48;2;0;0;255m\u{2580}\u{1b}[0m");
    let s = draw(Color(1, 22, 103), Color(0, 10, 200));
    assert_eq!(s, "\u{1b}[38;2;1;22;103m\u{1b}[48;2;0;10;200m\u{2580}\u{1b}[0m");
}

#[test]
fn render_frame_packs_two_rows_per_line() {
    let w = Color(255, 255, 255);
    let b = Color(0, 0, 0);
    let canvas = vec![vec![w, b], vec![b, b]];
    let s = render_frame(&canvas);
    let expected = format!(
        "{}{}\n",
        draw(w, b), // column 0: top white, bottom black
        draw(b, b), // column 1: both black
    );
    assert_eq!(s, expected);
}

#[test]
fn render_frame_of_empty_canvas_is_empty() {
    let canvas: Vec<Vec<Color>> = Vec::new();
    assert_eq!(render_frame(&canvas), "");
}
