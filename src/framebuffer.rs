use vstd::prelude::*;

verus! {

/// Largest screen or texture side the library draws, in pixels.
pub const MAX_SIDE: usize = 0x8000;

/// An RGBA colour.
#[derive(Debug, Clone, Copy, PartialEq, Eq, Structural)]
pub struct Color {
    pub r: u8,
    pub g: u8,
    pub b: u8,
    pub a: u8,
}

impl Color {
    pub fn new(r: u8, g: u8, b: u8, a: u8) -> (c: Color)
        ensures
            c == (Color { r, g, b, a }),
    {
        Color { r, g, b, a }
    }
}

/// A decoded image, row by row.
#[derive(Debug, Clone)]
pub struct Texture {
    pub width: usize,
    pub height: usize,
    pub pixels: Vec<Color>,
}

impl Texture {
    /// Holds exactly `width * height` pixels, each side within `MAX_SIDE`.
    pub open spec fn wf(&self) -> bool {
        &&& self.pixels@.len() == self.width * self.height
        &&& self.width <= MAX_SIDE
        &&& self.height <= MAX_SIDE
    }

    pub open spec fn texel(&self, x: int, y: int) -> Color {
        self.pixels@[y * self.width + x]
    }

    /// The pixel at column `x`, row `y`.
    pub fn get(&self, x: usize, y: usize) -> (c: Color)
        requires
            self.wf(),
            x < self.width,
            y < self.height,
        ensures
            c == self.texel(x as int, y as int),
    {
        let len = self.pixels.len();
        proof {
            lemma_index_in_bounds(x as int, y as int, self.width as int, self.height as int);
        }
        self.pixels[y * self.width + x]
    }
}

/// The image being composed: a colour per pixel, row by row, and the colour
/// `set_pixel` paints with.
pub struct Framebuffer {
    pub pixels: Vec<Color>,
    pub width: usize,
    pub height: usize,
    pub foreground_color: Color,
    pub background_color: Color,
}

impl Framebuffer {
    pub open spec fn wf(&self) -> bool {
        &&& self.pixels@.len() == self.width * self.height
        &&& self.width <= MAX_SIDE
        &&& self.height <= MAX_SIDE
    }

    /// The colour at column `x`, row `y`.
    pub open spec fn at(&self, x: int, y: int) -> Color {
        self.pixels@[y * self.width + x]
    }

    pub open spec fn on_screen(&self, x: int, y: int) -> bool {
        0 <= x < self.width && 0 <= y < self.height
    }

    /// A framebuffer filled with `background_color`; paints white.
    pub fn new(width: usize, height: usize, background_color: Color) -> (r: Framebuffer)
        requires
            width <= MAX_SIDE,
            height <= MAX_SIDE,
        ensures
            r.wf(),
            r.width == width,
            r.height == height,
            r.background_color == background_color,
            r.foreground_color == (Color { r: 255, g: 255, b: 255, a: 255 }),
            forall|x: int, y: int| r.on_screen(x, y) ==> #[trigger] r.at(x, y) == background_color,
    {
        let pixels = filled(width, height, background_color);
        assert forall|x: int, y: int| 0 <= x < width && 0 <= y < height implies #[trigger] pixels@[y
            * width + x] == background_color by {
            lemma_index_in_bounds(x, y, width as int, height as int);
        }
        Framebuffer {
            pixels,
            width,
            height,
            foreground_color: Color { r: 255, g: 255, b: 255, a: 255 },
            background_color,
        }
    }

    pub fn width(&self) -> (r: usize)
        ensures
            r == self.width,
    {
        self.width
    }

    pub fn height(&self) -> (r: usize)
        ensures
            r == self.height,
    {
        self.height
    }

    /// Fills the whole image with the background colour.
    pub fn clear(&mut self)
        requires
            old(self).wf(),
        ensures
            final(self).wf(),
            final(self).width == old(self).width,
            final(self).height == old(self).height,
            final(self).foreground_color == old(self).foreground_color,
            final(self).background_color == old(self).background_color,
            forall|x: int, y: int|
                final(self).on_screen(x, y) ==> #[trigger] final(self).at(x, y)
                    == old(self).background_color,
    {
        self.pixels = filled(self.width, self.height, self.background_color);
        assert forall|x: int, y: int| self.on_screen(x, y) implies #[trigger] self.at(x, y)
            == self.background_color by {
            lemma_index_in_bounds(x, y, self.width as int, self.height as int);
        }
    }

    pub fn set_foreground_color(&mut self, color: Color)
        ensures
            final(self).foreground_color == color,
            final(self).pixels == old(self).pixels,
            final(self).width == old(self).width,
            final(self).height == old(self).height,
            final(self).background_color == old(self).background_color,
    {
        self.foreground_color = color;
    }

    pub fn set_background_color(&mut self, color: Color)
        ensures
            final(self).background_color == color,
            final(self).pixels == old(self).pixels,
            final(self).width == old(self).width,
            final(self).height == old(self).height,
            final(self).foreground_color == old(self).foreground_color,
    {
        self.background_color = color;
    }

    /// Paints pixel `(x, y)` with `color`; off the image nothing changes.
    pub fn put_pixel(&mut self, x: i64, y: i64, color: Color)
        requires
            old(self).wf(),
        ensures
            final(self).wf(),
            final(self).width == old(self).width,
            final(self).height == old(self).height,
            final(self).foreground_color == old(self).foreground_color,
            final(self).background_color == old(self).background_color,
            forall|px: int, py: int|
                final(self).on_screen(px, py) ==> #[trigger] final(self).at(px, py) == if px == x
                    && py == y {
                    color
                } else {
                    old(self).at(px, py)
                },
    {
        if x >= 0 && y >= 0 && (x as u64) < self.width as u64 && (y as u64) < self.height as u64 {
            let xi = x as usize;
            let yi = y as usize;
            let len = self.pixels.len();
            proof {
                lemma_index_in_bounds(xi as int, yi as int, self.width as int, self.height as int);
            }
            let ghost before = *self;
            self.pixels.set(yi * self.width + xi, color);
            assert forall|px: int, py: int| self.on_screen(px, py) implies #[trigger] self.at(px, py)
                == if px == x && py == y {
                color
            } else {
                before.at(px, py)
            } by {
                lemma_index_in_bounds(px, py, self.width as int, self.height as int);
                if py * self.width + px == yi * self.width + xi {
                    lemma_index_injective(px, py, xi as int, yi as int, self.width as int);
                }
            }
        }
    }

    /// Paints pixel `(x, y)` with the foreground colour.
    pub fn set_pixel(&mut self, x: i64, y: i64)
        requires
            old(self).wf(),
        ensures
            final(self).wf(),
            final(self).width == old(self).width,
            final(self).height == old(self).height,
            final(self).foreground_color == old(self).foreground_color,
            final(self).background_color == old(self).background_color,
            forall|px: int, py: int|
                final(self).on_screen(px, py) ==> #[trigger] final(self).at(px, py) == if px == x
                    && py == y {
                    old(self).foreground_color
                } else {
                    old(self).at(px, py)
                },
    {
        let color = self.foreground_color;
        self.put_pixel(x, y, color);
    }
}

/// An on-screen coordinate's row-major index lies within the buffer.
pub proof fn lemma_index_in_bounds(x: int, y: int, w: int, h: int)
    requires
        0 <= x < w,
        0 <= y < h,
    ensures
        0 <= y * w + x < w * h,
{
    assert(0 <= y * w + x < w * h) by (nonlinear_arith)
        requires
            0 <= x < w,
            0 <= y < h,
    ;
}

/// Distinct on-screen coordinates have distinct row-major indices.
pub proof fn lemma_index_injective(x1: int, y1: int, x2: int, y2: int, w: int)
    requires
        0 <= x1 < w,
        0 <= x2 < w,
        0 <= y1,
        0 <= y2,
        y1 * w + x1 == y2 * w + x2,
    ensures
        x1 == x2 && y1 == y2,
{
    if y1 < y2 {
        assert(y1 * w + x1 < y2 * w + x2) by (nonlinear_arith)
            requires
                y1 < y2,
                0 <= x1 < w,
                0 <= x2,
        ;
    } else if y2 < y1 {
        assert(y2 * w + x2 < y1 * w + x1) by (nonlinear_arith)
            requires
                y2 < y1,
                0 <= x2 < w,
                0 <= x1,
        ;
    }
}

/// `width * height` copies of `color`.
fn filled(width: usize, height: usize, color: Color) -> (r: Vec<Color>)
    requires
        width <= MAX_SIDE,
        height <= MAX_SIDE,
    ensures
        r@.len() == width * height,
        forall|i: int| 0 <= i < r@.len() ==> #[trigger] r@[i] == color,
{
    assert(width * height <= MAX_SIDE * MAX_SIDE) by (nonlinear_arith)
        requires
            width <= MAX_SIDE,
            height <= MAX_SIDE,
    ;
    let n = width * height;
    let mut v: Vec<Color> = Vec::new();
    let mut i: usize = 0;
    while i < n
        invariant
            i <= n,
            v@.len() == i,
            forall|k: int| 0 <= k < i ==> #[trigger] v@[k] == color,
        decreases n - i,
    {
        v.push(color);
        i = i + 1;
    }
    v
}

} // verus!
