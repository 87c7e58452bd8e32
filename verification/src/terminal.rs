//! Text terminal on top of the framebuffer graphics: a character cursor
//! over a grid of 8x8 cells with 2 pixels between lines.
use vstd::prelude::*;
use vstd::string::StrSliceExecFns;
use crate::kernel::{FramebufferInfo, KernelGraphics, Font, spec_draw_glyph, on_screen, px_of, py_of, glyph_colors};

verus! {

pub const CHAR_WIDTH: usize = 8;

pub const CHAR_HEIGHT: usize = 8;

pub const LINE_SPACING: usize = 2;

/// What the terminal shows and where its cursor is.
pub struct Screen {
    pub pixels: Seq<u32>,
    pub cx: int,
    pub cy: int,
}

/// The fixed parameters of a terminal.
pub struct TermConfig {
    pub fb: FramebufferInfo,
    pub font: Font,
    pub cols: int,
    pub rows: int,
    pub fg: u32,
    pub bg: u32,
}

/// Draws `c` in the cell under the cursor, foreground on background.
pub open spec fn scr_draw_at(cfg: TermConfig, s: Screen, c: char) -> Screen {
    Screen {
        pixels: spec_draw_glyph(
            s.pixels,
            cfg.fb,
            s.cx * 8,
            s.cy * 10,
            cfg.font.spec_glyph(c),
            cfg.fg,
            Some(cfg.bg),
        ),
        ..s
    }
}

/// Scrolling clears the screen to the background and homes the cursor.
pub open spec fn scr_scroll(cfg: TermConfig, s: Screen) -> Screen {
    Screen { pixels: Seq::new(s.pixels.len(), |k: int| cfg.bg), cx: 0, cy: 0 }
}

/// Moves to the start of the next line; past the last line the screen is
/// cleared and the cursor goes to the start of the last line.
pub open spec fn scr_newline(cfg: TermConfig, s: Screen) -> Screen {
    if s.cy + 1 >= cfg.rows {
        Screen { cy: cfg.rows - 1, ..scr_scroll(cfg, s) }
    } else {
        Screen { cx: 0, cy: s.cy + 1, ..s }
    }
}

/// Draws a printable character and advances, wrapping at the last column.
pub open spec fn scr_put(cfg: TermConfig, s: Screen, c: char) -> Screen {
    let drawn = Screen { cx: s.cx + 1, ..scr_draw_at(cfg, s, c) };
    if drawn.cx >= cfg.cols {
        scr_newline(cfg, drawn)
    } else {
        drawn
    }
}

/// Writes up to `n` spaces, stopping at the end of the line.
pub open spec fn scr_tab(cfg: TermConfig, s: Screen, n: nat) -> Screen
    decreases n,
{
    if n == 0 || s.cx >= cfg.cols {
        s
    } else {
        scr_tab(cfg, scr_put(cfg, s, ' '), (n - 1) as nat)
    }
}

/// The effect of writing one character.
pub open spec fn scr_write_char(cfg: TermConfig, s: Screen, c: char) -> Screen {
    if c == '\n' {
        scr_newline(cfg, s)
    } else if c == '\r' {
        Screen { cx: 0, ..s }
    } else if c == '\x08' {
        if s.cx > 0 {
            scr_draw_at(cfg, Screen { cx: s.cx - 1, ..s }, ' ')
        } else {
            s
        }
    } else if c == '\t' {
        scr_tab(cfg, s, (4 - s.cx % 4) as nat)
    } else {
        scr_put(cfg, s, c)
    }
}

/// The effect of writing the characters of `text` in order.
pub open spec fn scr_write_string(cfg: TermConfig, s: Screen, text: Seq<char>) -> Screen
    decreases text.len(),
{
    if text.len() == 0 {
        s
    } else {
        scr_write_char(cfg, scr_write_string(cfg, s, text.drop_last()), text.last())
    }
}

/// Whether writing `c` moves on to a new line (a line feed, or text that
/// reaches the end of the line).
pub open spec fn scr_wraps(cfg: TermConfig, s: Screen, c: char) -> bool {
    if c == '\n' {
        true
    } else if c == '\r' || c == '\x08' {
        false
    } else if c == '\t' {
        scr_tab_wraps(cfg, s, (4 - s.cx % 4) as nat)
    } else {
        s.cx + 1 >= cfg.cols
    }
}

/// Whether up to `n` tab spaces reach the end of the line.
pub open spec fn scr_tab_wraps(cfg: TermConfig, s: Screen, n: nat) -> bool
    decreases n,
{
    if n == 0 || s.cx >= cfg.cols {
        false
    } else {
        s.cx + 1 >= cfg.cols || scr_tab_wraps(cfg, scr_put(cfg, s, ' '), (n - 1) as nat)
    }
}

/// Whether writing `text` moves on to a new line at some point.
pub open spec fn scr_string_wraps(cfg: TermConfig, s: Screen, text: Seq<char>) -> bool
    decreases text.len(),
{
    if text.len() == 0 {
        false
    } else {
        scr_string_wraps(cfg, s, text.drop_last()) || scr_wraps(
            cfg,
            scr_write_string(cfg, s, text.drop_last()),
            text.last(),
        )
    }
}

/// A prefix of a text that never moves to a new line does not either.
proof fn lemma_string_wraps_prefix(cfg: TermConfig, s: Screen, text: Seq<char>, k: int)
    requires
        0 <= k <= text.len(),
        !scr_string_wraps(cfg, s, text),
    ensures
        !scr_string_wraps(cfg, s, text.take(k)),
    decreases text.len() - k,
{
    if k < text.len() {
        lemma_string_wraps_prefix(cfg, s, text, k + 1);
        assert(text.take(k + 1).drop_last() =~= text.take(k));
    } else {
        assert(text.take(k) =~= text);
    }
}

/// Writing two texts one after the other draws the same screen as writing
/// them joined: output may be split into pieces anywhere. The joined text
/// moves to a new line exactly when one of the pieces does, so on a
/// terminal without rows the joined write is allowed exactly when both
/// piecewise writes are.
pub proof fn law_write_string_concat(cfg: TermConfig, s: Screen, a: Seq<char>, b: Seq<char>)
    ensures
        scr_write_string(cfg, s, a + b) == scr_write_string(cfg, scr_write_string(cfg, s, a), b),
        scr_string_wraps(cfg, s, a + b) == (scr_string_wraps(cfg, s, a) || scr_string_wraps(
            cfg,
            scr_write_string(cfg, s, a),
            b,
        )),
    decreases b.len(),
{
    if b.len() == 0 {
        assert(a + b =~= a);
    } else {
        law_write_string_concat(cfg, s, a, b.drop_last());
        assert((a + b).drop_last() =~= a + b.drop_last());
        assert((a + b).last() == b.last());
    }
}

/// Writing a printable character paints its whole cell: every on-screen
/// pixel of the cell (over the glyph's rows) ends up in the foreground or
/// the background colour, whatever it held before, and each pixel whose
/// glyph bit is clear (all of them for a blank glyph such as the space)
/// ends up in the background colour.
pub proof fn law_write_char_paints_cell(cfg: TermConfig, s: Screen, c: char, k: int)
    requires
        c != '\n' && c != '\r' && c != '\x08' && c != '\t',
        0 <= k < s.pixels.len(),
        on_screen(cfg.fb, k),
        s.cx * 8 <= px_of(cfg.fb, k) < s.cx * 8 + 8,
        s.cy * 10 <= py_of(cfg.fb, k) < s.cy * 10 + cfg.font.spec_glyph(c).len(),
    ensures
        scr_write_char(cfg, s, c).pixels[k] == cfg.fg || scr_write_char(cfg, s, c).pixels[k]
            == cfg.bg,
        cfg.font.spec_glyph(c)[py_of(cfg.fb, k) - s.cy * 10] & ((1u8 << ((px_of(cfg.fb, k) - s.cx
            * 8) as u8)) as u8) == 0 ==> scr_write_char(cfg, s, c).pixels[k] == cfg.bg,
{
    let drawn = scr_draw_at(cfg, s, c);
    assert(drawn.pixels.len() == s.pixels.len());
    assert(drawn.pixels[k] == (match glyph_colors(
        s.cx * 8,
        s.cy * 10,
        cfg.font.spec_glyph(c),
        cfg.fg,
        Some(cfg.bg),
    )(px_of(cfg.fb, k), py_of(cfg.fb, k)) {
        Some(v) => v,
        None => s.pixels[k],
    }));
}

/// A text terminal drawing into a framebuffer.
pub struct Terminal {
    gfx: KernelGraphics,
    font: Font,
    cursor_x: usize,
    cursor_y: usize,
    cols: usize,
    rows: usize,
    fg_color: u32,
    bg_color: u32,
}

impl Terminal {
    pub closed spec fn screen(&self) -> Screen {
        Screen { pixels: self.gfx.pixels(), cx: self.cursor_x as int, cy: self.cursor_y as int }
    }

    pub closed spec fn config(&self) -> TermConfig {
        TermConfig {
            fb: self.gfx.info(),
            font: self.font,
            cols: self.cols as int,
            rows: self.rows as int,
            fg: self.fg_color,
            bg: self.bg_color,
        }
    }

    /// The grid fits the framebuffer, and a glyph drawn at any row stays
    /// within the range of `usize`.
    closed spec fn wf_grid(&self) -> bool {
        &&& self.gfx.wf()
        &&& self.cols == self.gfx.info().width / 8
        &&& self.rows == self.gfx.info().height / 10
        &&& forall|i: int|
            0 <= i < self.font.glyph_count() ==> self.gfx.info().height + (#[trigger] self.font.spec_glyph_at(i)).len() <= usize::MAX
    }

    /// The grid is well formed and the cursor is in the grid (or at its
    /// origin).
    pub closed spec fn wf(&self) -> bool {
        &&& self.wf_grid()
        &&& (self.cursor_x < self.cols || self.cursor_x == 0)
        &&& (self.cursor_y < self.rows || self.cursor_y == 0)
    }

    /// A terminal over `fb_info` with green text on black; the screen is
    /// cleared and the cursor is at the top left.
    pub fn new(fb_info: FramebufferInfo, font: Font) -> (t: Self)
        requires
            fb_info.height * fb_info.stride <= usize::MAX,
            fb_info.width <= fb_info.stride,
            forall|i: int|
                0 <= i < font.glyph_count() ==> fb_info.height + (#[trigger] font.spec_glyph_at(i)).len() <= usize::MAX,
        ensures
            t.wf(),
            t.config() == (TermConfig {
                fb: fb_info,
                font,
                cols: (fb_info.width / 8) as int,
                rows: (fb_info.height / 10) as int,
                fg: 0x00FF00,
                bg: 0x000000,
            }),
            t.screen() == (Screen {
                pixels: Seq::new((fb_info.height * fb_info.stride) as nat, |k: int| 0u32),
                cx: 0,
                cy: 0,
            }),
    {
        let mut gfx = KernelGraphics::new(fb_info);
        let cols = fb_info.width / CHAR_WIDTH;
        let rows = fb_info.height / (CHAR_HEIGHT + LINE_SPACING);
        gfx.clear(0x000000);
        let t = Terminal {
            gfx,
            font,
            cursor_x: 0,
            cursor_y: 0,
            cols,
            rows,
            fg_color: 0x00FF00,
            bg_color: 0x000000,
        };
        assert(t.screen().pixels =~= Seq::new(
            (fb_info.height * fb_info.stride) as nat,
            |k: int| 0u32,
        ));
        t
    }

    fn draw_char_at_cursor(&mut self, c: char)
        requires
            old(self).wf(),
            old(self).cursor_x < old(self).cols || old(self).cursor_x == 0,
        ensures
            final(self).wf(),
            final(self).config() == old(self).config(),
            final(self).screen() == scr_draw_at(old(self).config(), old(self).screen(), c),
    {
        let glyph = self.font.glyph(c);
        proof {
            if (c as int) < self.font.glyph_count() {
                assert(self.gfx.info().height + self.font.spec_glyph_at(c as int).len() <= usize::MAX);
            }
            assert(self.cursor_x * 8 <= self.gfx.info().width);
            assert(self.cursor_y * 10 <= self.gfx.info().height);
            if self.cursor_y < self.rows {
                assert(self.cursor_y * 10 + 10 <= self.gfx.info().height);
            }
        }
        let x = self.cursor_x * CHAR_WIDTH;
        let y = self.cursor_y * (CHAR_HEIGHT + LINE_SPACING);
        self.gfx.draw_char(x, y, glyph, self.fg_color, Some(self.bg_color));
    }

    fn scroll(&mut self)
        requires
            old(self).wf_grid(),
        ensures
            final(self).wf(),
            final(self).config() == old(self).config(),
            final(self).screen() == scr_scroll(old(self).config(), old(self).screen()),
    {
        self.gfx.clear(self.bg_color);
        self.cursor_x = 0;
        self.cursor_y = 0;
    }

    fn newline(&mut self)
        requires
            old(self).wf_grid(),
            old(self).cursor_y < old(self).rows || old(self).cursor_y == 0,
            old(self).rows > 0,
        ensures
            final(self).wf(),
            final(self).config() == old(self).config(),
            final(self).screen() == scr_newline(old(self).config(), old(self).screen()),
    {
        self.cursor_x = 0;
        self.cursor_y = self.cursor_y + 1;
        if self.cursor_y >= self.rows {
            self.scroll();
            self.cursor_y = self.rows - 1;
        }
    }

    fn put_char(&mut self, c: char)
        requires
            old(self).wf(),
            old(self).rows > 0 || old(self).cursor_x + 1 < old(self).cols,
        ensures
            final(self).wf(),
            final(self).config() == old(self).config(),
            final(self).screen() == scr_put(old(self).config(), old(self).screen(), c),
    {
        self.draw_char_at_cursor(c);
        self.cursor_x = self.cursor_x + 1;
        if self.cursor_x >= self.cols {
            self.newline();
        }
    }

    /// Writes one character: newline, carriage return, backspace (erases
    /// the previous cell), tab (spaces up to the next multiple of 4, not
    /// past the end of the line), or a printable character.
    pub fn write_char(&mut self, c: char)
        requires
            old(self).wf(),
            old(self).config().rows > 0 || !scr_wraps(old(self).config(), old(self).screen(), c),
        ensures
            final(self).wf(),
            final(self).config() == old(self).config(),
            final(self).screen() == scr_write_char(old(self).config(), old(self).screen(), c),
    {
        if c == '\n' {
            self.newline();
        } else if c == '\r' {
            self.cursor_x = 0;
        } else if c == '\x08' {
            if self.cursor_x > 0 {
                self.cursor_x = self.cursor_x - 1;
                self.draw_char_at_cursor(' ');
            }
        } else if c == '\t' {
            let spaces = 4 - (self.cursor_x % 4);
            let ghost start = self.screen();
            let mut i: usize = 0;
            while i < spaces
                invariant
                    self.wf(),
                    self.config() == old(self).config(),
                    self.rows > 0 || !scr_tab_wraps(self.config(), self.screen(), (spaces - i) as nat),
                    i <= spaces,
                    scr_tab(self.config(), self.screen(), (spaces - i) as nat) == scr_tab(
                        self.config(),
                        start,
                        spaces as nat,
                    ),
                ensures
                    self.wf(),
                    self.config() == old(self).config(),
                    self.screen() == scr_tab(self.config(), start, spaces as nat),
                decreases spaces - i,
            {
                if self.cursor_x >= self.cols {
                    break;
                }
                self.put_char(' ');
                i = i + 1;
            }
        } else {
            self.put_char(c);
        }
    }

    /// Writes the characters of `s` in order.
    pub fn write_string(&mut self, s: &str)
        requires
            old(self).wf(),
            old(self).config().rows > 0 || !scr_string_wraps(
                old(self).config(),
                old(self).screen(),
                s@,
            ),
        ensures
            final(self).wf(),
            final(self).config() == old(self).config(),
            final(self).screen() == scr_write_string(old(self).config(), old(self).screen(), s@),
    {
        let n = s.unicode_len();
        let mut i: usize = 0;
        while i < n
            invariant
                self.wf(),
                self.config() == old(self).config(),
                self.config().rows > 0 || !scr_string_wraps(
                    old(self).config(),
                    old(self).screen(),
                    s@,
                ),
                n == s@.len(),
                i <= n,
                self.screen() == scr_write_string(
                    old(self).config(),
                    old(self).screen(),
                    s@.take(i as int),
                ),
            decreases n - i,
        {
            let c = s.get_char(i);
            assert(s@.take(i + 1).drop_last() =~= s@.take(i as int));
            proof {
                if self.config().rows == 0 {
                    lemma_string_wraps_prefix(old(self).config(), old(self).screen(), s@, i + 1);
                }
            }
            self.write_char(c);
            i = i + 1;
        }
        assert(s@.take(n as int) =~= s@);
    }

    /// Number of text rows.
    pub fn rows(&self) -> (r: usize)
        ensures
            r == self.config().rows,
    {
        self.rows
    }

    /// Whether writing `s` would move on to a new line at some point: a
    /// terminal without rows can only take text that does not.
    pub fn moves_to_new_line(&self, s: &str) -> (r: bool)
        requires
            self.wf(),
        ensures
            r == scr_string_wraps(self.config(), self.screen(), s@),
    {
        let ghost cfg = self.config();
        let ghost s0 = self.screen();
        let n = s.unicode_len();
        let mut cx = self.cursor_x;
        let mut i: usize = 0;
        assert(s@.take(0) =~= Seq::<char>::empty());
        while i < n
            invariant
                i <= n == s@.len(),
                cfg == self.config(),
                s0 == self.screen(),
                self.wf(),
                !scr_string_wraps(cfg, s0, s@.take(i as int)),
                cx == scr_write_string(cfg, s0, s@.take(i as int)).cx,
            decreases n - i,
        {
            let c = s.get_char(i);
            assert(s@.take(i + 1).drop_last() =~= s@.take(i as int));
            assert(s@.take(i + 1).last() == c);
            let ghost st = scr_write_string(cfg, s0, s@.take(i as int));
            proof {
                if scr_wraps(cfg, st, c) {
                    assert(scr_string_wraps(cfg, s0, s@.take(i + 1)));
                    if !scr_string_wraps(cfg, s0, s@) {
                        lemma_string_wraps_prefix(cfg, s0, s@, i + 1);
                    }
                }
            }
            if c == '\n' {
                return true;
            } else if c == '\r' {
                cx = 0;
            } else if c == '\x08' {
                if cx > 0 {
                    cx = cx - 1;
                }
            } else if c == '\t' {
                let spaces = 4 - cx % 4;
                let mut k: usize = 0;
                let ghost mut t = st;
                while k < spaces && cx < self.cols
                    invariant
                        k <= spaces,
                        cx == t.cx,
                        cfg == self.config(),
                        s0 == self.screen(),
                        c == '\t',
                        spaces == 4 - st.cx % 4,
                        scr_wraps(cfg, st, c) ==> scr_string_wraps(cfg, s0, s@),
                        scr_tab_wraps(cfg, st, spaces as nat) == scr_tab_wraps(
                            cfg,
                            t,
                            (spaces - k) as nat,
                        ),
                        scr_tab(cfg, st, spaces as nat) == scr_tab(cfg, t, (spaces - k) as nat),
                    decreases spaces - k,
                {
                    if cx + 1 >= self.cols {
                        assert(scr_tab_wraps(cfg, t, (spaces - k) as nat));
                        assert(scr_wraps(cfg, st, c));
                        return true;
                    }
                    proof {
                        t = scr_put(cfg, t, ' ');
                    }
                    cx = cx + 1;
                    k = k + 1;
                }
            } else {
                if cx >= self.cols || cx + 1 >= self.cols {
                    return true;
                }
                cx = cx + 1;
            }
            i = i + 1;
        }
        assert(s@.take(n as int) =~= s@);
        false
    }

    /// The graphics the terminal draws with.
    pub fn graphics(&self) -> (g: &KernelGraphics)
        ensures
            g.pixels() == self.screen().pixels,
            g.info() == self.config().fb,
    {
        &self.gfx
    }

    /// The cursor: column and row of the next character.
    pub fn cursor(&self) -> (r: (usize, usize))
        ensures
            r.0 == self.screen().cx,
            r.1 == self.screen().cy,
    {
        (self.cursor_x, self.cursor_y)
    }

    /// Clears the screen to the background colour and homes the cursor.
    pub fn clear_screen(&mut self)
        requires
            old(self).wf(),
        ensures
            final(self).wf(),
            final(self).config() == old(self).config(),
            final(self).screen() == scr_scroll(old(self).config(), old(self).screen()),
    {
        self.gfx.clear(self.bg_color);
        self.cursor_x = 0;
        self.cursor_y = 0;
    }
}

/// Whether the installed terminal, if any, is well formed.
pub open spec fn ready(term: Option<Terminal>) -> bool {
    term matches Some(t) ==> t.wf()
}

/// Installs a new terminal over `fb_info`.
pub fn init(term: &mut Option<Terminal>, fb_info: FramebufferInfo, font: Font)
    requires
        fb_info.height * fb_info.stride <= usize::MAX,
        fb_info.width <= fb_info.stride,
        forall|i: int| 0 <= i < font.glyph_count() ==> fb_info.height + (#[trigger] font.spec_glyph_at(i)).len() <= usize::MAX,
    ensures
        *final(term) matches Some(t) && t.wf() && t.config().fb == fb_info && t.config().font
            == font && t.screen().cx == 0 && t.screen().cy == 0,
{
    *term = Some(Terminal::new(fb_info, font));
}

/// Writes a character to the terminal, if one is installed.
pub fn print_char(term: &mut Option<Terminal>, c: char)
    requires
        ready(*old(term)),
        *old(term) matches Some(t) ==> t.config().rows > 0 || !scr_wraps(t.config(), t.screen(), c),
    ensures
        ready(*final(term)),
        match *old(term) {
            None => *final(term) is None,
            Some(t) => *final(term) matches Some(t2) && t2.config() == t.config() && t2.screen()
                == scr_write_char(t.config(), t.screen(), c),
        },
{
    match term {
        Some(t) => t.write_char(c),
        None => {},
    }
}

/// Writes a string to the terminal, if one is installed.
pub fn print(term: &mut Option<Terminal>, s: &str)
    requires
        ready(*old(term)),
        *old(term) matches Some(t) ==> t.config().rows > 0 || !scr_string_wraps(
            t.config(),
            t.screen(),
            s@,
        ),
    ensures
        ready(*final(term)),
        match *old(term) {
            None => *final(term) is None,
            Some(t) => *final(term) matches Some(t2) && t2.config() == t.config() && t2.screen()
                == scr_write_string(t.config(), t.screen(), s@),
        },
{
    match term {
        Some(t) => t.write_string(s),
        None => {},
    }
}

/// Clears the terminal, if one is installed.
pub fn clear(term: &mut Option<Terminal>)
    requires
        ready(*old(term)),
    ensures
        ready(*final(term)),
        match *old(term) {
            None => *final(term) is None,
            Some(t) => *final(term) matches Some(t2) && t2.config() == t.config() && t2.screen()
                == scr_scroll(t.config(), t.screen()),
        },
{
    match term {
        Some(t) => t.clear_screen(),
        None => {},
    }
}

} // verus!
