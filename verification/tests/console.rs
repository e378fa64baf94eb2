use tinykernel::screen::{glyph_rows, to_ascii_upper, DrawOp, Writer, FONT, FONT_DOT};

fn screen() -> Writer {
    Writer::new(0xB000_0000, 640, 480, 2560, 0xFFFFFF)
}

fn pixels_of(rows: [u8; 8], x: u64, y: u64, color: u32) -> Vec<DrawOp> {
    let mut v = Vec::new();
    for (r, bits) in rows.iter().enumerate() {
        for c in 0..8u64 {
            if (bits >> (7 - c)) & 1 == 1 {
                v.push(DrawOp::Pixel { x: x + c, y: y + r as u64, color });
            }
        }
    }
    v
}

#[test]
fn new_writer_starts_at_margin() {
    let w = screen();
    assert_eq!((w.x, w.y, w.color, w.addr), (20, 20, 0xFFFFFF, 0xB000_0000));
    assert_eq!((w.width, w.height, w.pitch), (640, 480, 2560));
}

#[test]
fn print_char_draws_glyph_and_advances() {
    let mut w = screen();
    let ops = w.print_char('A');
    assert_eq!(ops, pixels_of(FONT[0], 20, 20, 0xFFFFFF));
    assert_eq!((w.x, w.y), (30, 20));
}

#[test]
fn lower_case_is_drawn_upper() {
    let mut a = screen();
    let mut b = screen();
    assert_eq!(a.print_char('q'), b.print_char('Q'));
    assert_eq!(to_ascii_upper('q'), 'Q');
    assert_eq!(to_ascii_upper('7'), '7');
}

#[test]
fn space_only_advances() {
    let mut w = screen();
    assert!(w.print_char(' ').is_empty());
    assert_eq!((w.x, w.y), (30, 20));
}

#[test]
fn char_without_glyph_only_advances() {
    let mut w = screen();
    assert!(w.print_char('1').is_empty());
    assert_eq!(w.x, 30);
    assert_eq!(glyph_rows('1'), None);
    assert_eq!(glyph_rows('.'), Some(FONT_DOT));
}

#[test]
fn newline_returns_to_margin() {
    let mut w = screen();
    w.print("AB");
    let ops = w.new_line();
    assert!(ops.is_empty());
    assert_eq!((w.x, w.y), (20, 32));
    let mut v = screen();
    assert!(v.print_char('\n').is_empty());
    assert_eq!((v.x, v.y), (20, 32));
}

#[test]
fn newline_at_bottom_scrolls() {
    let mut w = screen();
    w.y = 460;
    assert_eq!(w.new_line(), vec![DrawOp::Scroll]);
    assert_eq!((w.x, w.y), (20, 460));
}

#[test]
fn wrap_at_right_edge() {
    let mut w = Writer::new(0, 50, 480, 200, 7);
    w.x = 40;
    let ops = w.print_char('.');
    // 40 + 10 >= 50: a new line first, then the dot at the margin
    assert_eq!(ops, pixels_of(FONT_DOT, 20, 32, 7));
    assert_eq!((w.x, w.y), (30, 32));
}

#[test]
fn backspace_erases_previous_cell() {
    let mut w = screen();
    w.print_char('X');
    let ops = w.backspace();
    assert_eq!(ops, vec![DrawOp::Rect { x: 20, y: 20, w: 8, h: 8, color: 0 }]);
    assert_eq!((w.x, w.y), (20, 20));
    assert!(w.backspace().is_empty());
    assert_eq!(w.x, 20);
}

#[test]
fn clear_screen_paints_black() {
    let mut w = screen();
    w.print("HELLO\nWORLD");
    let ops = w.clear_screen();
    assert_eq!(ops, vec![DrawOp::Rect { x: 0, y: 0, w: 640, h: 480, color: 0 }]);
    assert_eq!((w.x, w.y), (20, 20));
}

#[test]
fn print_is_each_char() {
    let mut a = screen();
    let mut b = screen();
    let whole = a.print("HI.");
    let mut parts = b.print_char('H');
    parts.extend(b.print_char('I'));
    parts.extend(b.print_char('.'));
    assert_eq!(whole, parts);
    assert_eq!((a.x, a.y), (b.x, b.y));
}

#[test]
fn println_ends_with_new_line() {
    let mut w = screen();
    let ops = w.println("AB");
    let mut v = screen();
    let mut expected = v.print("AB");
    expected.extend(v.new_line());
    assert_eq!(ops, expected);
    assert_eq!((w.x, w.y), (20, 32));
}

#[test]
fn pixel_index_of_pixels() {
    let w = screen();
    assert_eq!(w.pixel_index(0, 0), Some(0));
    assert_eq!(w.pixel_index(3, 2), Some((2 * 2560 + 12) / 4));
    assert_eq!(w.pixel_index(640, 0), None);
    assert_eq!(w.pixel_index(0, 480), None);
}

#[test]
fn scroll_extent_of_screen() {
    let w = screen();
    assert_eq!(w.scroll_extent(), Some((12 * 2560, 480 * 2560)));
    let tiny = Writer::new(0, 10, 11, 40, 1);
    assert_eq!(tiny.scroll_extent(), None);
}
