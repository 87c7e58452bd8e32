use ilo_lawa::kernel::{Font, FramebufferInfo, KernelGraphics};
use ilo_lawa::terminal::{self, Terminal};

fn info(width: usize, height: usize, stride: usize) -> FramebufferInfo {
    FramebufferInfo { base_address: 0, width, height, stride }
}

fn px(g: &KernelGraphics, x: usize, y: usize) -> u32 {
    let fb = g.framebuffer_info();
    g.pixel_buffer()[y * fb.stride + x]
}

/// A font whose every glyph is a single row with the leftmost pixel set,
/// except 'X', which fills its whole cell.
fn test_font() -> Font {
    let mut glyphs = Vec::new();
    for c in 0..128u32 {
        if c == 'X' as u32 {
            glyphs.push(vec![0xFFu8; 8]);
        } else {
            glyphs.push(vec![0x01u8]);
        }
    }
    Font::new(glyphs)
}

#[test]
fn pixels_and_clipping() {
    let mut g = KernelGraphics::new(info(4, 3, 6));
    assert_eq!(g.pixel_buffer().len(), 18);
    assert!(g.pixel_buffer().iter().all(|&p| p == 0));
    g.draw_pixel(1, 2, 0xABCDEF);
    assert_eq!(px(&g, 1, 2), 0xABCDEF);
    assert_eq!(g.pixel_buffer()[2 * 6 + 1], 0xABCDEF);
    // off-screen pixels, padding included, are not drawn
    g.draw_pixel(4, 0, 5);
    g.draw_pixel(0, 3, 5);
    assert_eq!(g.pixel_buffer().iter().filter(|&&p| p == 5).count(), 0);
    g.clear(9);
    assert!(g.pixel_buffer().iter().all(|&p| p == 9));
}

#[test]
fn rectangles_are_clipped() {
    let mut g = KernelGraphics::new(info(4, 4, 4));
    g.draw_rect(2, 1, 5, 2, 7);
    let drawn: Vec<(usize, usize)> = (0..4)
        .flat_map(|y| (0..4).map(move |x| (x, y)))
        .filter(|&(x, y)| px(&g, x, y) == 7)
        .collect();
    assert_eq!(drawn, vec![(2, 1), (3, 1), (2, 2), (3, 2)]);
    g.draw_rect(0, 0, 0, 3, 8);
    assert!(g.pixel_buffer().iter().all(|&p| p != 8));
}

#[test]
fn glyph_bits_run_left_to_right() {
    let mut g = KernelGraphics::new(info(12, 4, 12));
    g.draw_char(2, 1, &[0b0000_0001, 0b1000_0010], 7, Some(1));
    assert_eq!(px(&g, 2, 1), 7);
    for x in 3..10 {
        assert_eq!(px(&g, x, 1), 1);
    }
    assert_eq!(px(&g, 2, 2), 1);
    assert_eq!(px(&g, 3, 2), 7);
    assert_eq!(px(&g, 9, 2), 7);
    assert_eq!(px(&g, 10, 1), 0);
    assert_eq!(px(&g, 1, 1), 0);
    assert_eq!(px(&g, 2, 3), 0);
    // without a background only set bits are drawn
    let mut h = KernelGraphics::new(info(12, 4, 12));
    h.draw_char(0, 0, &[0b0000_0101], 3, None);
    assert_eq!(px(&h, 0, 0), 3);
    assert_eq!(px(&h, 1, 0), 0);
    assert_eq!(px(&h, 2, 0), 3);
}

#[test]
fn glyphs_are_clipped_at_the_edge() {
    let mut g = KernelGraphics::new(info(5, 2, 8));
    g.draw_char(2, 1, &[0xFF, 0xFF], 4, None);
    assert_eq!(px(&g, 2, 1), 4);
    assert_eq!(px(&g, 4, 1), 4);
    // the padding column of the stride stays untouched
    assert_eq!(g.pixel_buffer()[8 + 5], 0);
}

#[test]
fn text_stops_at_newline() {
    let font = test_font();
    let mut g = KernelGraphics::new(info(32, 2, 32));
    g.draw_text(0, 0, "ab\ncd", &font, 6, None);
    assert_eq!(px(&g, 0, 0), 6);
    assert_eq!(px(&g, 8, 0), 6);
    assert_eq!(px(&g, 16, 0), 0);
    assert_eq!(font.glyph('X').len(), 8);
    assert_eq!(font.glyph('é').len(), 0);
}

#[test]
fn terminal_cursor_movement() {
    // 3 columns, 2 rows
    let mut t = Terminal::new(info(24, 20, 24), test_font());
    assert_eq!(t.cursor(), (0, 0));
    t.write_string("ab");
    assert_eq!(t.cursor(), (2, 0));
    assert_eq!(px(t.graphics(), 0, 0), 0x00FF00);
    assert_eq!(px(t.graphics(), 8, 0), 0x00FF00);
    t.write_char('\r');
    assert_eq!(t.cursor(), (0, 0));
    t.write_char('\n');
    assert_eq!(t.cursor(), (0, 1));
    t.write_char('x');
    t.write_char('\x08');
    assert_eq!(t.cursor(), (0, 1));
    t.write_char('\x08');
    assert_eq!(t.cursor(), (0, 1));
}

#[test]
fn terminal_wraps_and_clears_when_full() {
    let mut t = Terminal::new(info(24, 20, 24), test_font());
    t.write_string("XYZ");
    // the third character wrapped to the next line
    assert_eq!(t.cursor(), (0, 1));
    assert_eq!(px(t.graphics(), 0, 0), 0x00FF00);
    t.write_char('\n');
    // past the last row the screen is cleared and writing goes on in the last row
    assert_eq!(t.cursor(), (0, 1));
    assert!(t.graphics().pixel_buffer().iter().all(|&p| p == 0));
}

#[test]
fn terminal_tabs() {
    let mut t = Terminal::new(info(80, 40, 80), test_font());
    t.write_char('a');
    t.write_char('\t');
    assert_eq!(t.cursor(), (4, 0));
    t.write_char('\t');
    assert_eq!(t.cursor(), (8, 0));
    t.write_string("\tq");
    // the tab's spaces wrap past the end of the 10-column line
    assert_eq!(t.cursor(), (3, 1));
}

#[test]
fn terminal_module_functions() {
    let mut term: Option<Terminal> = None;
    terminal::print(&mut term, "ignored");
    terminal::print_char(&mut term, 'x');
    terminal::clear(&mut term);
    assert!(term.is_none());
    terminal::init(&mut term, info(80, 40, 80), test_font());
    terminal::print(&mut term, "hi\n");
    terminal::print_char(&mut term, 'z');
    assert_eq!(term.as_ref().unwrap().cursor(), (1, 1));
    terminal::clear(&mut term);
    assert_eq!(term.as_ref().unwrap().cursor(), (0, 0));
    assert!(term.as_ref().unwrap().graphics().pixel_buffer().iter().all(|&p| p == 0));
}

#[test]
fn terminal_without_rows_takes_text_within_a_line() {
    // 5 pixels high: no text row fits
    let mut t = Terminal::new(info(24, 5, 24), test_font());
    assert_eq!(t.rows(), 0);
    assert!(!t.moves_to_new_line("ab"));
    assert!(t.moves_to_new_line("abc"));
    assert!(t.moves_to_new_line("a\n"));
    assert!(!t.moves_to_new_line("ab\r\x08"));
    assert!(t.moves_to_new_line("\t"));
    t.write_string("ab");
    assert_eq!(t.cursor(), (2, 0));
    t.write_char('\r');
    assert_eq!(t.cursor(), (0, 0));
}

#[test]
fn new_line_prediction_on_a_full_terminal() {
    let t = Terminal::new(info(80, 40, 80), test_font());
    assert_eq!(t.rows(), 4);
    assert!(!t.moves_to_new_line(""));
    assert!(!t.moves_to_new_line("\t\t"));
    assert!(t.moves_to_new_line("\t\t\t"));
    assert!(!t.moves_to_new_line("123456789"));
    assert!(t.moves_to_new_line("1234567890"));
}

#[test]
fn split_writes_draw_the_same_screen() {
    let mut whole = Terminal::new(info(40, 40, 40), test_font());
    let mut parts = Terminal::new(info(40, 40, 40), test_font());
    whole.write_string("ab\tXc\nde\x08f");
    parts.write_string("ab\t");
    parts.write_string("Xc\n");
    parts.write_string("de\x08f");
    assert_eq!(whole.cursor(), parts.cursor());
    assert_eq!(whole.graphics().pixel_buffer(), parts.graphics().pixel_buffer());
}

#[test]
fn tall_glyphs_are_drawn_whole() {
    let mut glyphs = vec![Vec::new(); 128];
    glyphs['T' as usize] = vec![0x01u8; 12];
    let mut t = Terminal::new(info(16, 30, 16), Font::new(glyphs));
    t.write_char('T');
    for y in 0..12 {
        assert_eq!(px(t.graphics(), 0, y), 0x00FF00);
    }
    assert_eq!(px(t.graphics(), 0, 12), 0);
}
