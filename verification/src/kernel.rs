//! Framebuffer graphics: a shadow copy of the GOP framebuffer that the
//! drawing operations update pixel by pixel; the platform code copies it to
//! the screen.
use vstd::prelude::*;
use vstd::string::StrSliceExecFns;

verus! {

/// Framebuffer geometry saved before leaving boot services.
#[derive(Clone, Copy)]
pub struct FramebufferInfo {
    pub base_address: u64,
    pub width: usize,
    pub height: usize,
    pub stride: usize,
}

/// Glyph bitmaps indexed by character code: row `i` of a glyph is byte `i`,
/// and bit `b` of a row is the pixel `b` columns right of the glyph's left
/// edge.
pub struct Font {
    glyphs: Vec<Vec<u8>>,
}

impl Font {
    pub fn new(glyphs: Vec<Vec<u8>>) -> (f: Self)
        ensures
            f.glyph_count() == glyphs@.len(),
            forall|i: int| 0 <= i < glyphs@.len() ==> #[trigger] f.spec_glyph_at(i) == glyphs@[i]@,
    {
        Font { glyphs }
    }

    pub closed spec fn glyph_count(&self) -> nat {
        self.glyphs@.len()
    }

    pub closed spec fn spec_glyph_at(&self, i: int) -> Seq<u8> {
        self.glyphs@[i]@
    }

    /// The bitmap of `ch`: its glyph when the font has one, no rows
    /// otherwise.
    pub open spec fn spec_glyph(&self, ch: char) -> Seq<u8> {
        if (ch as int) < self.glyph_count() {
            self.spec_glyph_at(ch as int)
        } else {
            Seq::empty()
        }
    }

    pub fn glyph(&self, ch: char) -> (r: &[u8])
        ensures
            r@ == self.spec_glyph(ch),
    {
        let code = ch as u32 as usize;
        if code < self.glyphs.len() {
            self.glyphs[code].as_slice()
        } else {
            &[]
        }
    }
}

/// Column of pixel index `k`.
pub open spec fn px_of(fb: FramebufferInfo, k: int) -> int {
    k % (fb.stride as int)
}

/// Row of pixel index `k`.
pub open spec fn py_of(fb: FramebufferInfo, k: int) -> int {
    k / (fb.stride as int)
}

/// Whether pixel index `k` is on screen (not in the padding past `width`).
pub open spec fn on_screen(fb: FramebufferInfo, k: int) -> bool {
    px_of(fb, k) < fb.width && py_of(fb, k) < fb.height
}

/// `old` with each on-screen pixel `(px, py)` that `done` selects set to
/// `f(px, py)` when that is `Some`.
pub open spec fn painted(
    old: Seq<u32>,
    fb: FramebufferInfo,
    f: spec_fn(int, int) -> Option<u32>,
    done: spec_fn(int, int) -> bool,
) -> Seq<u32> {
    Seq::new(
        old.len(),
        |k: int|
            if on_screen(fb, k) && done(px_of(fb, k), py_of(fb, k)) {
                match f(px_of(fb, k), py_of(fb, k)) {
                    Some(v) => v,
                    None => old[k],
                }
            } else {
                old[k]
            },
    )
}

/// Colour of a glyph pixel: the foreground when the bit is set, else the
/// background if there is one, else unchanged.
pub open spec fn glyph_pixel(row: u8, bit: int, color: u32, bg: Option<u32>) -> Option<u32> {
    if 0 <= bit < 8 && row & ((1u8 << (bit as u8)) as u8) != 0 {
        Some(color)
    } else {
        bg
    }
}

/// The pixels a glyph covers at `(x, y)`.
pub open spec fn glyph_area(x: int, y: int, rows: int) -> spec_fn(int, int) -> bool {
    |px: int, py: int| x <= px < x + 8 && y <= py < y + rows
}

/// The colours of a glyph drawn at `(x, y)`.
pub open spec fn glyph_colors(x: int, y: int, bitmap: Seq<u8>, color: u32, bg: Option<u32>) -> spec_fn(
    int,
    int,
) -> Option<u32> {
    |px: int, py: int| glyph_pixel(bitmap[py - y], px - x, color, bg)
}

/// The pixels after drawing `bitmap` at `(x, y)`.
pub open spec fn spec_draw_glyph(
    old: Seq<u32>,
    fb: FramebufferInfo,
    x: int,
    y: int,
    bitmap: Seq<u8>,
    color: u32,
    bg: Option<u32>,
) -> Seq<u32> {
    painted(old, fb, glyph_colors(x, y, bitmap, color, bg), glyph_area(x, y, bitmap.len() as int))
}

/// The pixels after filling the rectangle at `(x, y)` of size `w` by `h`.
pub open spec fn spec_fill_rect(
    old: Seq<u32>,
    fb: FramebufferInfo,
    x: int,
    y: int,
    w: int,
    h: int,
    color: u32,
) -> Seq<u32> {
    painted(old, fb, solid(color), |px: int, py: int| x <= px < x + w && y <= py < y + h)
}

/// Every pixel in `color`.
pub open spec fn solid(color: u32) -> spec_fn(int, int) -> Option<u32> {
    |px: int, py: int| Some(color)
}

proof fn lemma_coords(fb: FramebufferInfo, px: int, py: int)
    requires
        0 <= px < fb.stride,
        0 <= py,
    ensures
        px_of(fb, py * fb.stride + px) == px,
        py_of(fb, py * fb.stride + px) == py,
{
    vstd::arithmetic::div_mod::lemma_fundamental_div_mod_converse(
        py * fb.stride + px,
        fb.stride as int,
        py,
        px,
    );
}

proof fn lemma_index_of_coords(fb: FramebufferInfo, k: int)
    requires
        fb.stride > 0,
        0 <= k,
    ensures
        k == py_of(fb, k) * fb.stride + px_of(fb, k),
        0 <= px_of(fb, k) < fb.stride,
        0 <= py_of(fb, k),
{
    vstd::arithmetic::div_mod::lemma_fundamental_div_mod(k, fb.stride as int);
    vstd::arithmetic::mul::lemma_mul_is_commutative(fb.stride as int, k / (fb.stride as int));
    vstd::arithmetic::div_mod::lemma_mod_pos_bound(k, fb.stride as int);
    vstd::arithmetic::div_mod::lemma_div_pos_is_pos(k, fb.stride as int);
}

/// Extending the selection by one pixel and drawing that pixel gives the
/// painting of the larger selection.
proof fn lemma_paint_step(
    old: Seq<u32>,
    fb: FramebufferInfo,
    f: spec_fn(int, int) -> Option<u32>,
    done1: spec_fn(int, int) -> bool,
    done2: spec_fn(int, int) -> bool,
    px0: int,
    py0: int,
    cur: Seq<u32>,
    new: Seq<u32>,
)
    requires
        fb.stride > 0,
        fb.width <= fb.stride,
        old.len() == fb.height * fb.stride,
        0 <= px0,
        0 <= py0,
        cur == painted(old, fb, f, done1),
        forall|px: int, py: int|
            #![trigger done2(px, py)]
            done2(px, py) == (done1(px, py) || (px == px0 && py == py0)),
        new == (if px0 < fb.width && py0 < fb.height {
            match f(px0, py0) {
                Some(v) => cur.update(py0 * fb.stride + px0, v),
                None => cur,
            }
        } else {
            cur
        }),
    ensures
        new == painted(old, fb, f, done2),
{
    let target = painted(old, fb, f, done2);
    if px0 < fb.width && py0 < fb.height {
        lemma_coords(fb, px0, py0);
        assert(py0 * fb.stride + px0 < fb.height * fb.stride) by (nonlinear_arith)
            requires
                px0 < fb.width <= fb.stride,
                py0 < fb.height,
        ;
    }
    assert forall|k: int| 0 <= k < old.len() implies #[trigger] new[k] == target[k] by {
        lemma_index_of_coords(fb, k);
        let px = px_of(fb, k);
        let py = py_of(fb, k);
        if px == px0 && py == py0 {
            assert(k == py0 * fb.stride + px0);
        } else {
            assert(done2(px, py) == done1(px, py));
            if px0 < fb.width && py0 < fb.height {
                assert(k != py0 * fb.stride + px0);
            }
        }
    }
    assert(new =~= target);
}

/// Selecting nothing paints nothing; selections with the same pixels paint
/// the same.
proof fn lemma_paint_same(
    old: Seq<u32>,
    fb: FramebufferInfo,
    f: spec_fn(int, int) -> Option<u32>,
    done1: spec_fn(int, int) -> bool,
    done2: spec_fn(int, int) -> bool,
)
    requires
        forall|px: int, py: int|
            #![trigger done2(px, py)]
            0 <= px < fb.width && 0 <= py < fb.height ==> done2(px, py) == done1(px, py),
        fb.stride > 0,
    ensures
        painted(old, fb, f, done1) == painted(old, fb, f, done2),
{
    let a = painted(old, fb, f, done1);
    let b = painted(old, fb, f, done2);
    assert forall|k: int| 0 <= k < old.len() implies #[trigger] a[k] == b[k] by {
        lemma_index_of_coords(fb, k);
    }
    assert(a =~= b);
}

proof fn lemma_paint_nothing(
    old: Seq<u32>,
    fb: FramebufferInfo,
    f: spec_fn(int, int) -> Option<u32>,
    done: spec_fn(int, int) -> bool,
)
    requires
        forall|px: int, py: int| #![trigger done(px, py)] !done(px, py),
    ensures
        painted(old, fb, f, done) == old,
{
    assert(painted(old, fb, f, done) =~= old);
}

/// Graphics driver over a shadow framebuffer of `height * stride` pixels.
pub struct KernelGraphics {
    fb_info: FramebufferInfo,
    pixels: Vec<u32>,
}

impl KernelGraphics {
    /// The pixels, row by row, `stride` per row.
    pub closed spec fn pixels(&self) -> Seq<u32> {
        self.pixels@
    }

    pub closed spec fn info(&self) -> FramebufferInfo {
        self.fb_info
    }

    /// The buffer holds `height` rows of `stride` pixels, and a row's
    /// visible part fits in the stride.
    pub closed spec fn wf(&self) -> bool {
        &&& self.pixels@.len() == self.fb_info.height * self.fb_info.stride
        &&& self.fb_info.width <= self.fb_info.stride
    }

    /// The shadow framebuffer, row by row, `stride` pixels per row.
    pub fn pixel_buffer(&self) -> (r: &[u32])
        ensures
            r@ == self.pixels(),
    {
        self.pixels.as_slice()
    }

    /// The framebuffer geometry.
    pub fn framebuffer_info(&self) -> (r: FramebufferInfo)
        ensures
            r == self.info(),
    {
        self.fb_info
    }

    /// A driver for the framebuffer `fb_info`; the shadow copy starts black.
    pub fn new(fb_info: FramebufferInfo) -> (g: Self)
        requires
            fb_info.height * fb_info.stride <= usize::MAX,
            fb_info.width <= fb_info.stride,
        ensures
            g.wf(),
            g.info() == fb_info,
            g.pixels() == Seq::new((fb_info.height * fb_info.stride) as nat, |k: int| 0u32),
    {
        let g = KernelGraphics { fb_info, pixels: vec![0u32; fb_info.height * fb_info.stride] };
        assert(g.pixels@ =~= Seq::new((fb_info.height * fb_info.stride) as nat, |k: int| 0u32));
        g
    }

    /// Fills the whole buffer, padding included, with `color`.
    pub fn clear(&mut self, color: u32)
        requires
            old(self).wf(),
        ensures
            final(self).wf(),
            final(self).info() == old(self).info(),
            final(self).pixels() == Seq::new(old(self).pixels().len(), |k: int| color),
    {
        let n = self.pixels.len();
        let mut i: usize = 0;
        while i < n
            invariant
                n == self.pixels@.len(),
                self.wf(),
                self.fb_info == old(self).fb_info,
                i <= n,
                forall|k: int| 0 <= k < i ==> #[trigger] self.pixels@[k] == color,
            decreases n - i,
        {
            self.pixels.set(i, color);
            i = i + 1;
        }
        assert(self.pixels@ =~= Seq::new(old(self).pixels().len(), |k: int| color));
    }

    /// Sets the pixel `(x, y)`; pixels off screen are ignored.
    pub fn draw_pixel(&mut self, x: usize, y: usize, color: u32)
        requires
            old(self).wf(),
        ensures
            final(self).wf(),
            final(self).info() == old(self).info(),
            final(self).pixels() == (if x < old(self).info().width && y < old(self).info().height {
                old(self).pixels().update(y * old(self).info().stride + x, color)
            } else {
                old(self).pixels()
            }),
    {
        if x >= self.fb_info.width || y >= self.fb_info.height {
            return;
        }
        proof {
            let fb = self.fb_info;
            assert(y * fb.stride + x < fb.height * fb.stride) by (nonlinear_arith)
                requires
                    x < fb.width <= fb.stride,
                    y < fb.height,
            ;
        }
        let n = self.pixels.len();
        let offset = y * self.fb_info.stride + x;
        self.pixels.set(offset, color);
    }

    /// Fills the rectangle at `(x, y)` of `width` by `height` pixels,
    /// clipped to the screen.
    pub fn draw_rect(&mut self, x: usize, y: usize, width: usize, height: usize, color: u32)
        requires
            old(self).wf(),
            width > 0 && height > 0 ==> x + width - 1 <= usize::MAX && y + height - 1
                <= usize::MAX,
        ensures
            final(self).wf(),
            final(self).info() == old(self).info(),
            final(self).pixels() == spec_fill_rect(
                old(self).pixels(),
                old(self).info(),
                x as int,
                y as int,
                width as int,
                height as int,
                color,
            ),
    {
        let ghost old_px = self.pixels@;
        let ghost fb = self.fb_info;
        let ghost f = solid(color);
        if self.fb_info.stride == 0 {
            assert(self.pixels@ =~= spec_fill_rect(old_px, fb, x as int, y as int, width as int, height as int, color));
            return;
        }
        proof {
            lemma_paint_nothing(old_px, fb, f, |px: int, py: int| false);
        }
        let mut dy: usize = 0;
        while dy < height
            invariant
                self.wf(),
                self.fb_info == fb,
                fb.stride > 0,
                old_px.len() == fb.height * fb.stride,
                width > 0 && height > 0 ==> x + width - 1 <= usize::MAX && y + height - 1
                    <= usize::MAX,
                f == solid(color),
                dy <= height,
                self.pixels@ == painted(
                    old_px,
                    fb,
                    f,
                    |px: int, py: int| x <= px < x + width && y <= py < y + dy,
                ),
            decreases height - dy,
        {
            let mut dx: usize = 0;
            while dx < width
                invariant
                    self.wf(),
                    self.fb_info == fb,
                    fb.stride > 0,
                    old_px.len() == fb.height * fb.stride,
                    width > 0 && height > 0 ==> x + width - 1 <= usize::MAX && y + height - 1
                        <= usize::MAX,
                    f == solid(color),
                    dy < height,
                    dx <= width,
                    self.pixels@ == painted(
                        old_px,
                        fb,
                        f,
                        |px: int, py: int|
                            x <= px < x + width && (y <= py < y + dy || (py == y + dy && px < x
                                + dx)),
                    ),
                decreases width - dx,
            {
                let ghost cur = self.pixels@;
                self.draw_pixel(x + dx, y + dy, color);
                proof {
                    lemma_paint_step(
                        old_px,
                        fb,
                        f,
                        |px: int, py: int|
                            x <= px < x + width && (y <= py < y + dy || (py == y + dy && px < x
                                + dx)),
                        |px: int, py: int|
                            x <= px < x + width && (y <= py < y + dy || (py == y + dy && px < x
                                + dx + 1)),
                        (x + dx) as int,
                        (y + dy) as int,
                        cur,
                        self.pixels@,
                    );
                }
                dx = dx + 1;
            }
            proof {
                lemma_paint_same(
                    old_px,
                    fb,
                    f,
                    |px: int, py: int|
                        x <= px < x + width && (y <= py < y + dy || (py == y + dy && px < x + width)),
                    |px: int, py: int| x <= px < x + width && y <= py < y + dy + 1,
                );
            }
            dy = dy + 1;
        }
        proof {
            lemma_paint_same(
                old_px,
                fb,
                f,
                |px: int, py: int| x <= px < x + width && y <= py < y + height,
                |px: int, py: int| x <= px < x + width && y <= py < y + height,
            );
        }
    }

    /// Draws a glyph bitmap with its top-left corner at `(x, y)`: set bits
    /// in `color`, clear bits in `bg_color` when given, pixels off screen
    /// skipped.
    pub fn draw_char(
        &mut self,
        x: usize,
        y: usize,
        bitmap: &[u8],
        color: u32,
        bg_color: Option<u32>,
    )
        requires
            old(self).wf(),
            bitmap@.len() > 0 ==> x + 7 <= usize::MAX && y + bitmap@.len() - 1 <= usize::MAX,
        ensures
            final(self).wf(),
            final(self).info() == old(self).info(),
            final(self).pixels() == spec_draw_glyph(
                old(self).pixels(),
                old(self).info(),
                x as int,
                y as int,
                bitmap@,
                color,
                bg_color,
            ),
    {
        let ghost old_px = self.pixels@;
        let ghost fb = self.fb_info;
        let ghost f = glyph_colors(x as int, y as int, bitmap@, color, bg_color);
        let rows = bitmap.len();
        if self.fb_info.stride == 0 {
            assert(self.pixels@ =~= spec_draw_glyph(old_px, fb, x as int, y as int, bitmap@, color, bg_color));
            return;
        }
        proof {
            lemma_paint_nothing(old_px, fb, f, |px: int, py: int| false);
        }
        let mut row_idx: usize = 0;
        while row_idx < rows
            invariant
                self.wf(),
                self.fb_info == fb,
                fb.stride > 0,
                old_px.len() == fb.height * fb.stride,
                rows == bitmap@.len(),
                rows > 0 ==> x + 7 <= usize::MAX && y + rows - 1 <= usize::MAX,
                row_idx <= rows,
                f == glyph_colors(x as int, y as int, bitmap@, color, bg_color),
                self.pixels@ == painted(
                    old_px,
                    fb,
                    f,
                    |px: int, py: int| x <= px < x + 8 && y <= py < y + row_idx,
                ),
            decreases rows - row_idx,
        {
            let row_data = bitmap[row_idx];
            let mut bit: usize = 0;
            while bit < 8
                invariant
                    self.wf(),
                    self.fb_info == fb,
                    fb.stride > 0,
                    old_px.len() == fb.height * fb.stride,
                    rows == bitmap@.len(),
                    rows > 0 ==> x + 7 <= usize::MAX && y + rows - 1 <= usize::MAX,
                    row_idx < rows,
                    row_data == bitmap@[row_idx as int],
                    bit <= 8,
                    f == glyph_colors(x as int, y as int, bitmap@, color, bg_color),
                    self.pixels@ == painted(
                        old_px,
                        fb,
                        f,
                        |px: int, py: int|
                            x <= px < x + 8 && (y <= py < y + row_idx || (py == y + row_idx && px
                                < x + bit)),
                    ),
                decreases 8 - bit,
            {
                let ghost cur = self.pixels@;
                let pixel_x = x + bit;
                let pixel_y = y + row_idx;
                if pixel_x < self.fb_info.width && pixel_y < self.fb_info.height {
                    let mask: u8 = 1u8 << (bit as u8);
                    if row_data & mask != 0 {
                        self.draw_pixel(pixel_x, pixel_y, color);
                    } else {
                        match bg_color {
                            Some(bg) => self.draw_pixel(pixel_x, pixel_y, bg),
                            None => {},
                        }
                    }
                }
                proof {
                    assert(f(pixel_x as int, pixel_y as int) == glyph_pixel(
                        row_data,
                        bit as int,
                        color,
                        bg_color,
                    ));
                    lemma_paint_step(
                        old_px,
                        fb,
                        f,
                        |px: int, py: int|
                            x <= px < x + 8 && (y <= py < y + row_idx || (py == y + row_idx && px
                                < x + bit)),
                        |px: int, py: int|
                            x <= px < x + 8 && (y <= py < y + row_idx || (py == y + row_idx && px
                                < x + bit + 1)),
                        pixel_x as int,
                        pixel_y as int,
                        cur,
                        self.pixels@,
                    );
                }
                bit = bit + 1;
            }
            proof {
                lemma_paint_same(
                    old_px,
                    fb,
                    f,
                    |px: int, py: int|
                        x <= px < x + 8 && (y <= py < y + row_idx || (py == y + row_idx && px < x
                            + 8)),
                    |px: int, py: int| x <= px < x + 8 && y <= py < y + row_idx + 1,
                );
            }
            row_idx = row_idx + 1;
        }
        proof {
            lemma_paint_same(
                old_px,
                fb,
                f,
                |px: int, py: int| x <= px < x + 8 && y <= py < y + rows,
                glyph_area(x as int, y as int, rows as int),
            );
        }
    }
}

/// The number of characters of `s` before its first newline.
pub open spec fn text_run(s: Seq<char>) -> nat
    decreases s.len(),
{
    if s.len() == 0 || s[0] == '\n' {
        0
    } else {
        1 + text_run(s.drop_first())
    }
}

/// The pixels after drawing the characters of `s` from `(x, y)` rightwards,
/// 8 pixels apart, up to the first newline.
pub open spec fn spec_draw_text(
    old: Seq<u32>,
    fb: FramebufferInfo,
    x: int,
    y: int,
    s: Seq<char>,
    font: Font,
    color: u32,
    bg: Option<u32>,
) -> Seq<u32>
    decreases s.len(),
{
    if s.len() == 0 || s[0] == '\n' {
        old
    } else {
        spec_draw_text(
            spec_draw_glyph(old, fb, x, y, font.spec_glyph(s[0]), color, bg),
            fb,
            x + 8,
            y,
            s.drop_first(),
            font,
            color,
            bg,
        )
    }
}

impl KernelGraphics {
    /// Draws `text` from `(x, y)` rightwards with the glyphs of `font`,
    /// stopping at the first newline.
    pub fn draw_text(
        &mut self,
        x: usize,
        y: usize,
        text: &str,
        font: &Font,
        color: u32,
        bg_color: Option<u32>,
    )
        requires
            old(self).wf(),
            x + 8 * text_run(text@) <= usize::MAX,
            forall|i: int|
                0 <= i < text_run(text@) && (#[trigger] font.spec_glyph(text@[i])).len() > 0
                    ==> y + font.spec_glyph(text@[i]).len() - 1 <= usize::MAX,
        ensures
            final(self).wf(),
            final(self).info() == old(self).info(),
            final(self).pixels() == spec_draw_text(
                old(self).pixels(),
                old(self).info(),
                x as int,
                y as int,
                text@,
                *font,
                color,
                bg_color,
            ),
    {
        let n = text.unicode_len();
        assert(text@.skip(0) =~= text@);
        let mut cx = x;
        let mut i: usize = 0;
        while i < n
            invariant
                self.wf(),
                self.fb_info == old(self).fb_info,
                n == text@.len(),
                i <= n,
                cx == x + 8 * i,
                i <= text_run(text@),
                text_run(text@.skip(i as int)) == text_run(text@) - i,
                x + 8 * text_run(text@) <= usize::MAX,
                forall|j: int|
                    0 <= j < text_run(text@) && (#[trigger] font.spec_glyph(text@[j])).len() > 0
                        ==> y + font.spec_glyph(text@[j]).len() - 1 <= usize::MAX,
                spec_draw_text(
                    self.pixels@,
                    self.fb_info,
                    cx as int,
                    y as int,
                    text@.skip(i as int),
                    *font,
                    color,
                    bg_color,
                ) == spec_draw_text(
                    old(self).pixels(),
                    old(self).info(),
                    x as int,
                    y as int,
                    text@,
                    *font,
                    color,
                    bg_color,
                ),
            decreases n - i,
        {
            let ch = text.get_char(i);
            assert(text@.skip(i as int)[0] == ch);
            assert(text@.skip(i as int).drop_first() =~= text@.skip(i + 1));
            if ch == '\n' {
                return;
            }
            let glyph = font.glyph(ch);
            self.draw_char(cx, y, glyph, color, bg_color);
            cx = cx + 8;
            i = i + 1;
        }
        assert(text@.skip(n as int).len() == 0);
    }
}

} // verus!
