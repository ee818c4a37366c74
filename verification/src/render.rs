//! The canvas: premultiplied ARGB8888 pixels in a shared-memory buffer.
//!
//! A colour is `[alpha, red, green, blue]`, not premultiplied. A pixel is four
//! bytes of the buffer: wl_shm's ARGB8888 is little-endian, so they are blue,
//! green, red and alpha, the first three premultiplied by the last.
use vstd::arithmetic::div_mod::lemma_fundamental_div_mod;
use vstd::arithmetic::div_mod::lemma_fundamental_div_mod_converse;
use vstd::prelude::*;

verus! {

/// One channel of a colour as a premultiplied byte, rounded to the nearest.
pub open spec fn scaled(c: u8, a: u8) -> u8 {
    ((c * a + 127) / 255) as u8
}

/// One byte of a pixel with `c` at alpha `a` laid over it, rounded to the
/// nearest.
pub open spec fn over(c: u8, a: u8, d: u8) -> u8 {
    ((c * a + d * (255 - a) + 127) / 255) as u8
}

/// What a colour puts into byte `k` of a pixel where nothing shines through.
pub open spec fn channel(argb: [u8; 4], k: int) -> u8 {
    if k == 0 {
        argb@[3]
    } else if k == 1 {
        argb@[2]
    } else if k == 2 {
        argb@[1]
    } else {
        255
    }
}

/// A colour as the four bytes of a pixel.
pub open spec fn pixel(argb: [u8; 4]) -> Seq<u8> {
    seq![
        scaled(argb@[3], argb@[0]),
        scaled(argb@[2], argb@[0]),
        scaled(argb@[1], argb@[0]),
        argb@[0],
    ]
}

/// How far a width or a height reaches: positions are 32-bit and signed, and
/// one that they cannot count to the end of shows nothing.
pub open spec fn reach(n: u32) -> int {
    if n <= i32::MAX {
        n as int
    } else {
        0
    }
}

/// What a canvas shows: its size, and the rows it is clipped to.
pub struct Area {
    pub width: u32,
    pub height: u32,
    pub clip: Option<(i32, i32)>,
}

/// The bytes of `p` are those from `i` on.
pub open spec fn is_at(p: [u8; 4], buf: Seq<u8>, i: int) -> bool {
    forall|k: int| 0 <= k < 4 ==> #[trigger] p@[k] == buf[i + k]
}

impl Area {
    /// `after` is `buf` with what `mixed` made of the pixel at `(x, y)` in its
    /// place, if it is drawn on, and is `buf` if not.
    pub open spec fn mixes<F: Fn([u8; 4]) -> [u8; 4]>(
        self,
        buf: Seq<u8>,
        after: Seq<u8>,
        x: int,
        y: int,
        mixed: F,
    ) -> bool {
        &&& after.len() == buf.len()
        &&& forall|i: int|
            0 <= i < buf.len() && !self.covers(x, y, x + 1, y + 1, i) ==> #[trigger] after[i]
                == buf[i]
        &&& self.shows(x, y) ==> exists|p: [u8; 4], q: [u8; 4]|
            is_at(p, buf, self.at(x, y)) && is_at(q, after, self.at(x, y)) && #[trigger]
                call_ensures(mixed, (p,), q)
        &&& !self.shows(x, y) ==> after == buf
    }

    /// The pixel at `(x, y)` is drawn on.
    pub open spec fn shows(self, x: int, y: int) -> bool {
        &&& 0 <= x < reach(self.width)
        &&& 0 <= y < reach(self.height)
        &&& (self.clip matches Some((start, end)) ==> start <= y < end)
    }

    /// Where the bytes of the pixel at `(x, y)` begin.
    pub open spec fn at(self, x: int, y: int) -> int {
        (y * self.width + x) * 4
    }

    /// A buffer of `len` bytes has the pixel at `(x, y)`, at an offset that
    /// 32 bits can hold.
    pub open spec fn holds(self, len: nat, x: int, y: int) -> bool {
        self.at(x, y) + 4 <= len && self.at(x, y) <= u32::MAX
    }

    /// The column that byte `i` of the buffer belongs to.
    pub open spec fn column(self, i: int) -> int {
        (i / 4) % (self.width as int)
    }

    /// The row that byte `i` of the buffer belongs to.
    pub open spec fn row(self, i: int) -> int {
        (i / 4) / (self.width as int)
    }

    /// Byte `i` belongs to a pixel that is drawn on, in the columns `x0..x1`
    /// of the rows `y0..y1`.
    pub open spec fn covers(self, x0: int, y0: int, x1: int, y1: int, i: int) -> bool {
        &&& self.shows(self.column(i), self.row(i))
        &&& x0 <= self.column(i) < x1
        &&& y0 <= self.row(i) < y1
    }

    /// Byte `i` belongs to a row that is not clipped away.
    pub open spec fn unclipped(self, i: int) -> bool {
        self.clip matches Some((start, end)) ==> self.width > 0 && start <= self.row(i) < end
    }

    /// `buf` with every whole pixel of it set to `argb`, but for the rows that
    /// are clipped away.
    pub open spec fn filled(self, buf: Seq<u8>, argb: [u8; 4]) -> Seq<u8> {
        Seq::new(
            buf.len(),
            |i: int|
                if i < buf.len() / 4 * 4 && self.unclipped(i) {
                    pixel(argb)[i % 4]
                } else {
                    buf[i]
                },
        )
    }

    /// `buf` with `argb` laid over the columns `x0..x1` of the rows `y0..y1`.
    pub open spec fn drawn(
        self,
        buf: Seq<u8>,
        x0: int,
        y0: int,
        x1: int,
        y1: int,
        argb: [u8; 4],
    ) -> Seq<u8> {
        Seq::new(
            buf.len(),
            |i: int|
                if self.covers(x0, y0, x1, y1, i) {
                    over(channel(argb, i % 4), argb@[0], buf[i])
                } else {
                    buf[i]
                },
        )
    }

    /// A buffer of `len` bytes has every pixel that `argb` over the columns
    /// `x0..x1` of the rows `y0..y1` changes.
    pub open spec fn room(
        self,
        len: nat,
        x0: int,
        y0: int,
        x1: int,
        y1: int,
        argb: [u8; 4],
    ) -> bool {
        argb@[0] != 0 ==> forall|x: int, y: int|
            x0 <= x < x1 && y0 <= y < y1 && #[trigger] self.shows(x, y) ==> self.holds(len, x, y)
    }
}

proof fn lemma_place(w: int, x: int, y: int, k: int)
    requires
        0 <= x < w,
        0 <= y,
        0 <= k < 4,
    ensures
        ((y * w + x) * 4 + k) / 4 == y * w + x,
        ((y * w + x) * 4 + k) % 4 == k,
        (y * w + x) / w == y,
        (y * w + x) % w == x,
        0 <= y * w + x,
{
    assert(0 <= y * w) by (nonlinear_arith)
        requires
            0 <= y,
            0 < w,
    ;
    lemma_fundamental_div_mod_converse(y * w + x, w, y, x);
}

proof fn lemma_byte(a: Area, i: int)
    requires
        0 <= i,
        a.width > 0,
    ensures
        a.at(a.column(i), a.row(i)) <= i < a.at(a.column(i), a.row(i)) + 4,
        0 <= a.column(i) < a.width,
        0 <= a.row(i),
        i % 4 == i - a.at(a.column(i), a.row(i)),
{
    let w = a.width as int;
    lemma_fundamental_div_mod(i / 4, w);
    assert((i / 4) / w >= 0) by (nonlinear_arith)
        requires
            i >= 0,
            w > 0,
    ;
    assert(((i / 4) / w) * w == w * ((i / 4) / w)) by (nonlinear_arith);
    assert(0 <= (i / 4) % w < w) by (nonlinear_arith)
        requires
            w > 0,
    ;
}

proof fn lemma_over_clear(c: u8, d: u8)
    ensures
        over(c, 0, d) == d,
{
}

/// Drawing over the same canvas in two parts.
proof fn lemma_drawn_extends(
    a: Area,
    buf: Seq<u8>,
    x0: int,
    y0: int,
    x1: int,
    y1: int,
    argb: [u8; 4],
)
    requires
        x0 <= x1,
        y0 <= y1,
    ensures
        a.drawn(a.drawn(buf, x0, y0, x1, y1, argb), x0, y1, x1, y1 + 1, argb) == a.drawn(
            buf,
            x0,
            y0,
            x1,
            y1 + 1,
            argb,
        ),
        a.drawn(a.drawn(buf, x0, y0, x1, y0 + 1, argb), x1, y0, x1 + 1, y0 + 1, argb) == a.drawn(
            buf,
            x0,
            y0,
            x1 + 1,
            y0 + 1,
            argb,
        ),
{
}

/// A colour as the four bytes of a pixel: blue, green, red and alpha, the
/// first three premultiplied.
pub fn premul(a: u8, r: u8, g: u8, b: u8) -> (p: [u8; 4])
    ensures
        p@ == pixel([a, r, g, b]),
{
    [multiplied(b, a), multiplied(g, a), multiplied(r, a), a]
}

fn multiplied(c: u8, a: u8) -> (r: u8)
    ensures
        r == scaled(c, a),
{
    assert(c * a <= 255 * 255) by (nonlinear_arith)
        requires
            0 <= c <= 255,
            0 <= a <= 255,
    ;
    ((c as u32 * a as u32 + 127) / 255) as u8
}

fn laid_over(c: u8, a: u8, d: u8) -> (r: u8)
    ensures
        r == over(c, a, d),
{
    proof {
        lemma_over_range(c, a, d);
    }
    ((c as u32 * a as u32 + d as u32 * (255 - a as u32) + 127) / 255) as u8
}

proof fn lemma_over_range(c: u8, a: u8, d: u8)
    ensures
        0 <= c * a,
        0 <= d * (255 - a),
        c * a + d * (255 - a) <= 255 * 255,
{
    assert(0 <= c * a <= 255 * a) by (nonlinear_arith)
        requires
            0 <= c <= 255,
            0 <= a,
    ;
    assert(0 <= d * (255 - a) <= 255 * (255 - a)) by (nonlinear_arith)
        requires
            0 <= d <= 255,
            0 <= a <= 255,
    ;
}

/// A buffer of pixels to draw on.
pub struct Canvas<'a> {
    pub buf: &'a mut [u8],
    pub width: u32,
    pub height: u32,
    /// Rows outside `start..end` are left untouched: the clock panel's list
    /// scrolls under the header rather than over it.
    pub clip: Option<(i32, i32)>,
}

impl<'a> Canvas<'a> {
    /// What the canvas shows.
    pub open spec fn area(&self) -> Area {
        Area { width: self.width, height: self.height, clip: self.clip }
    }

    /// The bytes of the buffer.
    pub open spec fn bytes(&self) -> Seq<u8> {
        self.buf@
    }

    /// A canvas of `width` by `height` pixels over `buf`, not clipped.
    pub fn new(buf: &'a mut [u8], width: u32, height: u32) -> (c: Self)
        ensures
            c.bytes() == old(buf)@,
            c.width == width,
            c.height == height,
            c.clip is None,
            final(buf)@ == final(c.buf)@,
    {
        Self { buf, width, height, clip: None }
    }

    /// Whether the row that the pixel at byte `i` belongs to is not clipped
    /// away.
    fn is_unclipped(&self, i: usize) -> (r: bool)
        ensures
            r == self.area().unclipped(i as int),
    {
        match self.clip {
            Some((start, end)) => {
                if self.width == 0 {
                    return false;
                }
                let row: i128 = (i / 4 / self.width as usize) as i128;
                start as i128 <= row && row < end as i128
            },
            None => true,
        }
    }

    /// Set every whole pixel of the buffer to `argb`, but for the rows that
    /// are clipped away.
    pub fn fill(&mut self, argb: [u8; 4])
        ensures
            final(self).bytes() == old(self).area().filled(old(self).bytes(), argb),
            final(self).area() == old(self).area(),
            final(final(self).buf)@ == final(old(self).buf)@,
    {
        let px = premul(argb[0], argb[1], argb[2], argb[3]);
        let ghost after = self.area().filled(self.bytes(), argb);
        proof {
            assert(px@ == pixel(argb));
        }
        let n: usize = self.buf.len() / 4 * 4;
        let mut i: usize = 0;
        while i < n
            invariant
                n == old(self).bytes().len() / 4 * 4,
                i <= n,
                i % 4 == 0,
                self.bytes().len() == old(self).bytes().len(),
                px@ == pixel(argb),
                after == old(self).area().filled(old(self).bytes(), argb),
                forall|j: int| 0 <= j < i ==> self.buf@[j] == #[trigger] after[j],
                forall|j: int| i <= j < self.bytes().len() ==> self.buf@[j] == old(self).bytes()[j],
                self.area() == old(self).area(),
                final(self.buf)@ == final(old(self).buf)@,
            decreases n - i,
        {
            assert forall|j: int| i <= j < i + 4 implies self.area().unclipped(j)
                == #[trigger] self.area().unclipped(i as int) by {
                assert(j / 4 == i / 4);
            }
            if self.is_unclipped(i) {
                self.buf[i] = px[0];
                self.buf[i + 1] = px[1];
                self.buf[i + 2] = px[2];
                self.buf[i + 3] = px[3];
            }
            assert forall|j: int| i <= j < i + 4 implies self.buf@[j] == #[trigger] after[j] by {
                assert(old(self).area().unclipped(j) == old(self).area().unclipped(i as int));
            }
            i += 4;
        }
        assert(self.buf@ == after);
    }

    /// Whether the buffer has a place for every pixel of the canvas, at an
    /// offset that 32 bits can hold.
    pub fn is_whole(&self) -> (r: bool)
        ensures
            r == (self.width * self.height * 4 <= self.bytes().len() && self.width * self.height * 4
                <= u32::MAX),
            r ==> forall|x: int, y: int| #[trigger]
                self.area().shows(x, y) ==> self.area().holds(self.bytes().len(), x, y),
    {
        assert(self.width * self.height * 4 <= u32::MAX * u32::MAX * 4) by (nonlinear_arith)
            requires
                0 <= self.width <= u32::MAX,
                0 <= self.height <= u32::MAX,
        ;
        let size: u128 = self.width as u128 * self.height as u128 * 4;
        let r = size <= self.buf.len() as u128 && size <= u32::MAX as u128;
        proof {
            if r {
                let a = self.area();
                assert forall|x: int, y: int| #[trigger] a.shows(x, y) implies a.holds(
                    self.bytes().len(),
                    x,
                    y,
                ) by {
                    assert((y + 1) * self.width <= self.height * self.width) by (nonlinear_arith)
                        requires
                            0 <= y < self.height,
                            0 <= self.width,
                    ;
                    assert((y + 1) * self.width == y * self.width + self.width)
                        by (nonlinear_arith);
                    assert(self.height * self.width == self.width * self.height)
                        by (nonlinear_arith);
                }
            }
        }
        r
    }

    /// Where the bytes of the pixel at `(x, y)` begin, if it is drawn on.
    pub fn offset(&self, x: i32, y: i32) -> (r: Option<usize>)
        requires
            self.area().shows(x as int, y as int) ==> self.area().holds(
                self.bytes().len(),
                x as int,
                y as int,
            ),
        ensures
            match r {
                Some(i) => self.area().shows(x as int, y as int) && i == self.area().at(
                    x as int,
                    y as int,
                ) && i + 4 <= self.bytes().len(),
                None => !self.area().shows(x as int, y as int),
            },
    {
        if x < 0 || y < 0 || self.width > i32::MAX as u32 || self.height > i32::MAX as u32 || x
            >= self.width as i32 || y >= self.height as i32 {
            return None;
        }
        if let Some((start, end)) = self.clip {
            if y < start || y >= end {
                return None;
            }
        }
        assert(0 <= y * self.width) by (nonlinear_arith)
            requires
                0 <= y,
                0 <= self.width,
        ;
        Some(((y as u32 * self.width + x as u32) * 4) as usize)
    }

    /// Lay `argb` over the pixel at `(x, y)`, if it is drawn on.
    pub fn blend(&mut self, x: i32, y: i32, argb: [u8; 4])
        requires
            old(self).area().room(old(self).bytes().len(), x as int, y as int, x + 1, y + 1, argb),
        ensures
            final(self).bytes() == old(self).area().drawn(
                old(self).bytes(),
                x as int,
                y as int,
                x + 1,
                y + 1,
                argb,
            ),
            final(self).area() == old(self).area(),
            final(final(self).buf)@ == final(old(self).buf)@,
    {
        let ghost a = self.area();
        let ghost before = self.buf@;
        if argb[0] == 0 {
            proof {
                assert(a.drawn(before, x as int, y as int, x + 1, y + 1, argb) == before) by {
                    assert forall|i: int| 0 <= i < before.len() implies over(
                        channel(argb, i % 4),
                        0,
                        before[i],
                    ) == before[i] by {
                        lemma_over_clear(channel(argb, i % 4), before[i]);
                    }
                }
            }
            return;
        }
        let i = match self.offset(x, y) {
            Some(i) => i,
            None => {
                assert(a.drawn(before, x as int, y as int, x + 1, y + 1, argb) == before);
                return;
            },
        };
        self.buf[i] = laid_over(argb[3], argb[0], self.buf[i]);
        self.buf[i + 1] = laid_over(argb[2], argb[0], self.buf[i + 1]);
        self.buf[i + 2] = laid_over(argb[1], argb[0], self.buf[i + 2]);
        self.buf[i + 3] = laid_over(255, argb[0], self.buf[i + 3]);
        proof {
            let w = self.width as int;
            let after = a.drawn(before, x as int, y as int, x + 1, y + 1, argb);
            assert forall|j: int| 0 <= j < before.len() implies self.buf@[j] == after[j] by {
                lemma_byte(a, j);
                if i <= j < i + 4 {
                    lemma_place(w, x as int, y as int, j - i);
                }
            }
            assert(self.buf@ == after);
        }
    }

    /// Put in place of the four bytes of the pixel at `(x, y)` what `mixed`
    /// makes of them, if it is drawn on. No other pixel changes.
    pub fn mix<F: Fn([u8; 4]) -> [u8; 4]>(&mut self, x: i32, y: i32, mixed: F)
        requires
            old(self).area().shows(x as int, y as int) ==> old(self).area().holds(
                old(self).bytes().len(),
                x as int,
                y as int,
            ),
            forall|p: [u8; 4]| call_requires(mixed, (p,)),
        ensures
            old(self).area().mixes(
                old(self).bytes(),
                final(self).bytes(),
                x as int,
                y as int,
                mixed,
            ),
            final(self).area() == old(self).area(),
            final(final(self).buf)@ == final(old(self).buf)@,
    {
        let ghost a = self.area();
        let ghost before = self.buf@;
        let i = match self.offset(x, y) {
            Some(i) => i,
            None => {
                return;
            },
        };
        let old_pixel: [u8; 4] = [self.buf[i], self.buf[i + 1], self.buf[i + 2], self.buf[i + 3]];
        let new_pixel: [u8; 4] = mixed(old_pixel);
        self.buf[i] = new_pixel[0];
        self.buf[i + 1] = new_pixel[1];
        self.buf[i + 2] = new_pixel[2];
        self.buf[i + 3] = new_pixel[3];
        proof {
            assert(is_at(old_pixel, before, i as int));
            assert(is_at(new_pixel, self.buf@, i as int));
            assert forall|j: int|
                0 <= j < before.len() && !a.covers(x as int, y as int, x + 1, y + 1, j) implies
                #[trigger] self.buf@[j] == before[j] by {
                if i <= j < i + 4 {
                    lemma_place(self.width as int, x as int, y as int, j - i);
                }
            }
        }
    }

    /// A square-cornered fill: the rule under the clock panel's date.
    pub fn fill_rect(&mut self, x: i32, y: i32, w: i32, h: i32, argb: [u8; 4])
        requires
            i32::MIN <= y + h <= i32::MAX,
            h > 0 ==> i32::MIN <= x + w <= i32::MAX,
            old(self).area().room(old(self).bytes().len(), x as int, y as int, x + w, y + h, argb),
        ensures
            final(self).bytes() == old(self).area().drawn(
                old(self).bytes(),
                x as int,
                y as int,
                x + w,
                y + h,
                argb,
            ),
            final(self).area() == old(self).area(),
            final(final(self).buf)@ == final(old(self).buf)@,
    {
        let ghost a = self.area();
        let ghost before = self.buf@;
        if h <= 0 || w <= 0 {
            assert(a.drawn(before, x as int, y as int, x + w, y + h, argb) == before);
            return;
        }
        let mut yy: i32 = y;
        assert(a.drawn(before, x as int, y as int, x + w, yy as int, argb) == before);
        while yy < y + h
            invariant
                h > 0,
                w > 0,
                y <= yy <= y + h,
                y + h <= i32::MAX,
                x + w <= i32::MAX,
                a == old(self).area(),
                a == self.area(),
                before == old(self).bytes(),
                self.bytes().len() == before.len(),
                a.room(before.len(), x as int, y as int, x + w, y + h, argb),
                self.buf@ == a.drawn(before, x as int, y as int, x + w, yy as int, argb),
                final(self.buf)@ == final(old(self).buf)@,
            decreases y + h - yy,
        {
            let ghost rows = self.buf@;
            let mut xx: i32 = x;
            assert(a.drawn(rows, x as int, yy as int, xx as int, yy + 1, argb) == rows);
            while xx < x + w
                invariant
                    w > 0,
                    x <= xx <= x + w,
                    x + w <= i32::MAX,
                    y <= yy < y + h,
                    y + h <= i32::MAX,
                    a == old(self).area(),
                a == self.area(),
                    rows.len() == before.len(),
                    self.bytes().len() == before.len(),
                    a.room(before.len(), x as int, y as int, x + w, y + h, argb),
                    self.buf@ == a.drawn(rows, x as int, yy as int, xx as int, yy + 1, argb),
                    final(self.buf)@ == final(old(self).buf)@,
                decreases x + w - xx,
            {
                self.blend(xx, yy, argb);
                proof {
                    lemma_drawn_extends(a, rows, x as int, yy as int, xx as int, yy + 1, argb);
                }
                xx += 1;
            }
            proof {
                lemma_drawn_extends(a, before, x as int, y as int, x + w, yy as int, argb);
            }
            yy += 1;
        }
    }

    /// A full-width one-pixel line at row `y`: the hairline where the bar
    /// meets the desktop.
    pub fn hline(&mut self, y: i32, argb: [u8; 4])
        requires
            old(self).area().room(
                old(self).bytes().len(),
                0,
                y as int,
                old(self).width as int,
                y + 1,
                argb,
            ),
        ensures
            final(self).bytes() == old(self).area().drawn(
                old(self).bytes(),
                0,
                y as int,
                old(self).width as int,
                y + 1,
                argb,
            ),
            final(self).area() == old(self).area(),
            final(final(self).buf)@ == final(old(self).buf)@,
    {
        let ghost a = self.area();
        let ghost before = self.buf@;
        if self.width > i32::MAX as u32 {
            assert(a.drawn(before, 0, y as int, a.width as int, y + 1, argb) == before);
            return;
        }
        let w: i32 = self.width as i32;
        let mut xx: i32 = 0;
        assert(a.drawn(before, 0, y as int, 0, y + 1, argb) == before);
        while xx < w
            invariant
                0 <= xx <= w,
                w == a.width,
                a == old(self).area(),
                a == self.area(),
                before == old(self).bytes(),
                self.bytes().len() == before.len(),
                a.room(before.len(), 0, y as int, w as int, y + 1, argb),
                self.buf@ == a.drawn(before, 0, y as int, xx as int, y + 1, argb),
                final(self.buf)@ == final(old(self).buf)@,
            decreases w - xx,
        {
            self.blend(xx, y, argb);
            proof {
                lemma_drawn_extends(a, before, 0, y as int, xx as int, y + 1, argb);
            }
            xx += 1;
        }
    }
}

// ---------------------------------------------------------------------------
// What holds of every canvas
// ---------------------------------------------------------------------------
/// No colour byte of a pixel of `buf` exceeds its alpha byte.
pub open spec fn premultiplied(buf: Seq<u8>) -> bool {
    forall|p: int, k: int|
        0 <= p < buf.len() / 4 && 0 <= k < 3 ==> #[trigger] buf[p * 4 + k] <= buf[p * 4 + 3]
}

/// Rows outside the clip are left untouched, whatever is drawn or filled.
pub proof fn law_clipped_rows_untouched(
    a: Area,
    buf: Seq<u8>,
    x0: int,
    y0: int,
    x1: int,
    y1: int,
    argb: [u8; 4],
    i: int,
)
    requires
        0 <= i < buf.len(),
        a.clip matches Some((start, end)) && !(start <= a.row(i) < end),
    ensures
        a.drawn(buf, x0, y0, x1, y1, argb)[i] == buf[i],
        a.filled(buf, argb)[i] == buf[i],
{
}

/// Rows outside the clip are left untouched, whatever is mixed into a pixel.
pub proof fn law_mixing_stays_unclipped<F: Fn([u8; 4]) -> [u8; 4]>(
    a: Area,
    buf: Seq<u8>,
    after: Seq<u8>,
    x: int,
    y: int,
    mixed: F,
    i: int,
)
    requires
        a.mixes(buf, after, x, y, mixed),
        0 <= i < buf.len(),
        a.clip matches Some((start, end)) && !(start <= a.row(i) < end),
    ensures
        after[i] == buf[i],
{
}

/// No colour byte of a pixel exceeds its alpha byte.
pub open spec fn is_premultiplied(p: [u8; 4]) -> bool {
    forall|k: int| 0 <= k < 3 ==> #[trigger] p@[k] <= p@[3]
}

/// Mixing on a premultiplied buffer leaves it premultiplied, where `mixed`
/// makes a premultiplied pixel of every such.
pub proof fn law_mixing_keeps_premultiplied<F: Fn([u8; 4]) -> [u8; 4]>(
    a: Area,
    buf: Seq<u8>,
    after: Seq<u8>,
    x: int,
    y: int,
    mixed: F,
)
    requires
        a.mixes(buf, after, x, y, mixed),
        a.shows(x, y) ==> a.holds(buf.len(), x, y),
        forall|p: [u8; 4], q: [u8; 4]|
            is_premultiplied(p) && #[trigger] call_ensures(mixed, (p,), q) ==> is_premultiplied(q),
        premultiplied(buf),
    ensures
        premultiplied(after),
{
    if a.shows(x, y) {
        let at = a.at(x, y);
        let n = y * a.width + x;
        lemma_place(a.width as int, x, y, 0);
        let (p, q) = choose|p: [u8; 4], q: [u8; 4]|
            is_at(p, buf, at) && is_at(q, after, at) && #[trigger] call_ensures(mixed, (p,), q);
        assert(p@[0] == buf[n * 4 + 0] && p@[1] == buf[n * 4 + 1] && p@[2] == buf[n * 4 + 2]
            && p@[3] == buf[n * 4 + 3]);
        assert(is_premultiplied(p)) by {
            assert(buf[n * 4 + 0] <= buf[n * 4 + 3]);
            assert(buf[n * 4 + 1] <= buf[n * 4 + 3]);
            assert(buf[n * 4 + 2] <= buf[n * 4 + 3]);
        }
        assert(is_premultiplied(q));
        assert forall|m: int, k: int| 0 <= m < after.len() / 4 && 0 <= k < 3 implies
            #[trigger] after[m * 4 + k] <= after[m * 4 + 3] by {
            let i = m * 4 + k;
            let j = m * 4 + 3;
            assert(buf[i] <= buf[j]);
            lemma_byte(a, i);
            lemma_byte(a, j);
            assert(i / 4 == m && j / 4 == m);
            if m == n {
                assert(q@[k] <= q@[3]);
                assert(q@[k] == after[at + k] && q@[3] == after[at + 3]);
            } else {
                assert(!a.covers(x, y, x + 1, y + 1, i));
                assert(!a.covers(x, y, x + 1, y + 1, j));
            }
        }
    }
}

/// An opaque colour hides what was under it; one of alpha 0 changes nothing.
pub proof fn law_opaque_and_clear(
    a: Area,
    buf: Seq<u8>,
    x0: int,
    y0: int,
    x1: int,
    y1: int,
    argb: [u8; 4],
)
    ensures
        argb@[0] == 255 ==> forall|i: int|
            0 <= i < buf.len() && a.covers(x0, y0, x1, y1, i) ==> #[trigger] a.drawn(
                buf,
                x0,
                y0,
                x1,
                y1,
                argb,
            )[i] == channel(argb, i % 4),
        argb@[0] == 0 ==> a.drawn(buf, x0, y0, x1, y1, argb) == buf,
{
    if argb@[0] == 0 {
        assert forall|i: int| 0 <= i < buf.len() implies over(channel(argb, i % 4), 0, buf[i])
            == buf[i] by {
            lemma_over_clear(channel(argb, i % 4), buf[i]);
        }
        assert(a.drawn(buf, x0, y0, x1, y1, argb) == buf);
    }
}

/// After a fill, the buffer is premultiplied: wholly where nothing is clipped
/// away, and otherwise if it was before.
pub proof fn law_fill_premultiplied(a: Area, buf: Seq<u8>, argb: [u8; 4])
    requires
        a.clip is None || premultiplied(buf),
    ensures
        premultiplied(a.filled(buf, argb)),
{
    let out = a.filled(buf, argb);
    assert forall|p: int, k: int| 0 <= p < out.len() / 4 && 0 <= k < 3 implies #[trigger] out[p * 4
        + k] <= out[p * 4 + 3] by {
        let i = p * 4 + k;
        let j = p * 4 + 3;
        assert(i % 4 == k && i / 4 == p);
        assert(j % 4 == 3 && j / 4 == p);
        assert(a.unclipped(i) == a.unclipped(j));
        if !a.unclipped(i) {
            assert(buf[i] <= buf[j]);
        }
        lemma_scaled_range(argb@[1], argb@[0]);
        lemma_scaled_range(argb@[2], argb@[0]);
        lemma_scaled_range(argb@[3], argb@[0]);
    }
}

proof fn lemma_scaled_range(c: u8, a: u8)
    ensures
        scaled(c, a) <= a,
{
    assert(0 <= c * a <= 255 * a) by (nonlinear_arith)
        requires
            0 <= c <= 255,
            0 <= a,
    ;
}

/// Drawing on a premultiplied buffer leaves it premultiplied.
pub proof fn law_drawing_keeps_premultiplied(
    a: Area,
    buf: Seq<u8>,
    x0: int,
    y0: int,
    x1: int,
    y1: int,
    argb: [u8; 4],
)
    requires
        premultiplied(buf),
    ensures
        premultiplied(a.drawn(buf, x0, y0, x1, y1, argb)),
{
    let out = a.drawn(buf, x0, y0, x1, y1, argb);
    assert forall|p: int, k: int| 0 <= p < out.len() / 4 && 0 <= k < 3 implies #[trigger] out[p * 4
        + k] <= out[p * 4 + 3] by {
        let i = p * 4 + k;
        let j = p * 4 + 3;
        assert(i % 4 == k && i / 4 == p);
        assert(j % 4 == 3 && j / 4 == p);
        assert(buf[i] <= buf[j]);
        let al = argb@[0];
        let c = channel(argb, k);
        lemma_over_range(c, al, buf[i]);
        lemma_over_range(255, al, buf[j]);
        assert(c * al <= 255 * al) by (nonlinear_arith)
            requires
                c <= 255,
                0 <= al,
        ;
        assert(buf[i] * (255 - al) <= buf[j] * (255 - al)) by (nonlinear_arith)
            requires
                buf[i] <= buf[j],
                al <= 255,
        ;
        assert(over(c, al, buf[i]) <= over(255, al, buf[j]));
    }
}

/// Drawing never makes a pixel more transparent: no alpha byte decreases.
pub proof fn law_alpha_never_decreases(
    a: Area,
    buf: Seq<u8>,
    x0: int,
    y0: int,
    x1: int,
    y1: int,
    argb: [u8; 4],
    p: int,
)
    requires
        0 <= p < buf.len() / 4,
    ensures
        buf[p * 4 + 3] <= a.drawn(buf, x0, y0, x1, y1, argb)[p * 4 + 3],
{
    let j = p * 4 + 3;
    assert(j % 4 == 3);
    let al = argb@[0];
    let d = buf[j];
    lemma_over_range(255, al, d);
    assert(255 * al + d * (255 - al) >= d * 255) by (nonlinear_arith)
        requires
            0 <= al,
            d <= 255,
    ;
    assert(d <= over(255, al, d));
}

// ---------------------------------------------------------------------------
// What holds of every colour and every pixel
// ---------------------------------------------------------------------------
/// A channel at an alpha is the nearest byte to its share of it: none is off by
/// more than half.
pub proof fn law_scaled_is_nearest(c: u8, a: u8)
    ensures
        -127 <= 255 * scaled(c, a) - c * a <= 127,
        scaled(c, a) <= c,
        scaled(c, a) <= a,
        scaled(c, a) == scaled(a, c),
{
    lemma_scaled_range(c, a);
    lemma_scaled_range(a, c);
    assert(c * a == a * c) by (nonlinear_arith);
    assert(0 <= c * a <= 255 * 255) by (nonlinear_arith)
        requires
            0 <= c <= 255,
            0 <= a <= 255,
    ;
}

/// What is laid over a byte comes out between the two, at the nearest byte to
/// their mean by alpha.
pub proof fn law_over_is_nearest(c: u8, a: u8, d: u8)
    ensures
        -127 <= 255 * over(c, a, d) - (c * a + d * (255 - a)) <= 127,
        c <= d ==> c <= over(c, a, d) <= d,
        d <= c ==> d <= over(c, a, d) <= c,
        over(c, 255, d) == c,
        over(c, 0, d) == d,
{
    lemma_over_range(c, a, d);
    assert(d * (255 - 255) == 0) by (nonlinear_arith);
    lemma_over_clear(c, d);
    assert(c <= d ==> c * 255 <= c * a + d * (255 - a) <= d * 255) by (nonlinear_arith)
        requires
            0 <= a <= 255,
            0 <= c <= 255,
            0 <= d <= 255,
    ;
    assert(d <= c ==> d * 255 <= c * a + d * (255 - a) <= c * 255) by (nonlinear_arith)
        requires
            0 <= a <= 255,
            0 <= c <= 255,
            0 <= d <= 255,
    ;
}

/// The bytes of a pixel are blue, green, red and alpha; each of the first three
/// depends on its own channel and alpha alone, and is that channel where the
/// colour is opaque.
pub proof fn law_premul(a: u8, r: u8, g: u8, b: u8, p: [u8; 4])
    requires
        call_ensures(premul, (a, r, g, b), p),
    ensures
        p@[3] == a,
        -127 <= 255 * p@[0] - b * a <= 127,
        -127 <= 255 * p@[1] - g * a <= 127,
        -127 <= 255 * p@[2] - r * a <= 127,
        a == 255 ==> p@[0] == b && p@[1] == g && p@[2] == r,
        a == 0 ==> p@[0] == 0 && p@[1] == 0 && p@[2] == 0,
{
    law_scaled_is_nearest(b, a);
    law_scaled_is_nearest(g, a);
    law_scaled_is_nearest(r, a);
    assert(p@ == pixel([a, r, g, b]));
    assert(p@[0] == scaled(b, a) && p@[1] == scaled(g, a) && p@[2] == scaled(r, a));
    lemma_scaled_full(b);
    lemma_scaled_full(g);
    lemma_scaled_full(r);
}

proof fn lemma_scaled_full(c: u8)
    ensures
        scaled(c, 255) == c,
{
}

/// Every pixel begins at a place of its own, its column going up by one pixel
/// and its row by one line of them, from the top left one at the beginning.
pub proof fn law_places(a: Area, x: int, y: int)
    ensures
        a.at(0, 0) == 0,
        a.at(x + 1, y) == a.at(x, y) + 4,
        a.at(x, y + 1) == a.at(x, y) + 4 * a.width,
        0 <= x < a.width && 0 <= y ==> forall|k: int|
            0 <= k < 4 ==> a.column(#[trigger] (a.at(x, y) + k)) == x && a.row(a.at(x, y) + k) == y,
{
    assert(0 * a.width == 0) by (nonlinear_arith);
    assert((y + 1) * a.width == y * a.width + a.width) by (nonlinear_arith);
    if 0 <= x < a.width && 0 <= y {
        assert forall|k: int| 0 <= k < 4 implies a.column(#[trigger] (a.at(x, y) + k)) == x && a.row(
            a.at(x, y) + k,
        ) == y by {
            lemma_place(a.width as int, x, y, k);
        }
    }
}

/// A pixel is found exactly if it is on the canvas and not clipped away, and
/// then at its own place.
pub proof fn law_offset<'a>(c: &Canvas<'a>, x: i32, y: i32, r: Option<usize>)
    requires
        call_ensures(Canvas::offset, (c, x, y), r),
        c.width <= i32::MAX,
        c.height <= i32::MAX,
    ensures
        r is Some <==> 0 <= x < c.width && 0 <= y < c.height && (c.clip matches Some((start, end))
            ==> start <= y < end),
        r matches Some(i) ==> i == 4 * (y * c.width + x) && i + 4 <= c.bytes().len(),
{
}

/// A whole canvas is one whose buffer has all of its pixels, at offsets that 32
/// bits can hold.
pub proof fn law_is_whole<'a>(c: &Canvas<'a>, r: bool)
    requires
        call_ensures(Canvas::is_whole, (c,), r),
    ensures
        r <==> 4 * (c.width * c.height) <= c.bytes().len() && 4 * (c.width * c.height) <= u32::MAX,
{
}

/// A fill leaves nothing of what was there: every whole pixel that is not
/// clipped away is the colour afterwards, whatever it was, and all else stays.
pub proof fn law_fill(a: Area, buf: Seq<u8>, argb: [u8; 4], p: int)
    requires
        0 <= p < buf.len() / 4,
        a.width > 0,
    ensures
        ({
            let out = a.filled(buf, argb);
            let row = p / (a.width as int);
            let there = a.clip matches Some((start, end)) ==> start <= row < end;
            &&& out.len() == buf.len()
            &&& there ==> {
                &&& out[4 * p + 3] == argb@[0]
                &&& -127 <= 255 * out[4 * p + 2] - argb@[1] * argb@[0] <= 127
                &&& -127 <= 255 * out[4 * p + 1] - argb@[2] * argb@[0] <= 127
                &&& -127 <= 255 * out[4 * p] - argb@[3] * argb@[0] <= 127
            }
            &&& !there ==> forall|k: int|
                0 <= k < 4 ==> out[#[trigger] (4 * p + k)] == buf[4 * p + k]
        }),
{
    law_scaled_is_nearest(argb@[1], argb@[0]);
    law_scaled_is_nearest(argb@[2], argb@[0]);
    law_scaled_is_nearest(argb@[3], argb@[0]);
    let out = a.filled(buf, argb);
    assert forall|k: int| 0 <= k < 4 implies (4 * p + k) / 4 == p && #[trigger] (4 * p + k) % 4
        == k by {}
    assert((4 * p + 0) / 4 == p && (4 * p + 0) % 4 == 0);
    assert((4 * p + 1) / 4 == p && (4 * p + 1) % 4 == 1);
    assert((4 * p + 2) / 4 == p && (4 * p + 2) % 4 == 2);
    assert((4 * p + 3) / 4 == p && (4 * p + 3) % 4 == 3);
    assert(a.row(4 * p + 0) == p / (a.width as int));
    assert(a.row(4 * p + 1) == p / (a.width as int));
    assert(a.row(4 * p + 2) == p / (a.width as int));
    assert(a.row(4 * p + 3) == p / (a.width as int));
    assert(out[4 * p + 0] == out[4 * p]);
}

/// A pixel that is drawn over with a colour comes out, byte by byte, at the
/// nearest to the mean of the two by the colour's alpha, and more opaque by it;
/// a pixel that is outside comes out as it was.
pub proof fn law_drawn(
    a: Area,
    buf: Seq<u8>,
    x0: int,
    y0: int,
    x1: int,
    y1: int,
    argb: [u8; 4],
    x: int,
    y: int,
)
    requires
        0 <= x < a.width,
        0 <= y,
        a.at(x, y) + 4 <= buf.len(),
    ensures
        ({
            let out = a.drawn(buf, x0, y0, x1, y1, argb);
            let i = a.at(x, y);
            let al = argb@[0] as int;
            let rest = 255 - al;
            &&& out.len() == buf.len()
            &&& a.shows(x, y) && x0 <= x < x1 && y0 <= y < y1 ==> {
                &&& -127 <= 255 * out[i] - (argb@[3] * al + buf[i] * rest) <= 127
                &&& -127 <= 255 * out[i + 1] - (argb@[2] * al + buf[i + 1] * rest) <= 127
                &&& -127 <= 255 * out[i + 2] - (argb@[1] * al + buf[i + 2] * rest) <= 127
                &&& -127 <= 255 * out[i + 3] - (255 * al + buf[i + 3] * rest) <= 127
            }
            &&& !(a.shows(x, y) && x0 <= x < x1 && y0 <= y < y1) ==> {
                &&& out[i] == buf[i] && out[i + 1] == buf[i + 1]
                &&& out[i + 2] == buf[i + 2] && out[i + 3] == buf[i + 3]
            }
        }),
{
    let w = a.width as int;
    let i = a.at(x, y);
    lemma_place(w, x, y, 0);
    lemma_place(w, x, y, 1);
    lemma_place(w, x, y, 2);
    lemma_place(w, x, y, 3);
    assert(a.column(i) == x && a.row(i) == y);
    law_over_is_nearest(argb@[3], argb@[0], buf[i]);
    law_over_is_nearest(argb@[2], argb@[0], buf[i + 1]);
    law_over_is_nearest(argb@[1], argb@[0], buf[i + 2]);
    law_over_is_nearest(255, argb@[0], buf[i + 3]);
}

/// A pixel shows exactly if it is on the canvas and in a row that is not clipped
/// away; a canvas without a clip shows all of them.
pub proof fn law_shows(a: Area, x: int, y: int)
    requires
        a.width <= i32::MAX,
        a.height <= i32::MAX,
    ensures
        a.shows(x, y) <==> 0 <= x < a.width && 0 <= y < a.height && (a.clip matches Some((s, e))
            ==> s <= y < e),
        a.clip is None ==> (a.shows(x, y) <==> 0 <= x < a.width && 0 <= y < a.height),
{
}

/// A line is a rectangle as wide as the canvas and one pixel high, and a pixel
/// one by one: each draws what the rectangle of its size does.
pub proof fn law_lines_and_pixels<'a>(
    c: &mut Canvas<'a>,
    d: &mut Canvas<'a>,
    x: i32,
    y: i32,
    w: i32,
    argb: [u8; 4],
)
    requires
        old(c).bytes() == old(d).bytes(),
        old(c).area() == old(d).area(),
        call_ensures(Canvas::fill_rect, (d, x, y, w, 1i32, argb), ()),
    ensures
        call_ensures(Canvas::hline, (c, y, argb), ()) && x == 0 && w == old(c).width
            ==> final(c).bytes() == final(d).bytes(),
        call_ensures(Canvas::blend, (c, x, y, argb), ()) && w == 1 ==> final(c).bytes() == final(d).bytes(),
{
}

} // verus!
