//! The screen buffer the projector draws into, and the texture data it
//! samples from.
//!
//! Pixels are stored row-major. Writes go through [`Framebuffer::set_pixel`],
//! which applies the current draw color and ignores out-of-bounds
//! coordinates, so no caller can write outside the buffer.

use vstd::prelude::*;
use vstd::pervasive::VecAdditionalExecFns;
use vstd::arithmetic::div_mod::{
    lemma_fundamental_div_mod, lemma_mod_bound, lemma_multiply_divide_lt,
};

verus! {

/// One RGBA pixel.
#[derive(Clone, Copy, PartialEq, Eq, Structural, Debug)]
pub struct Color {
    pub r: u8,
    pub g: u8,
    pub b: u8,
    pub a: u8,
}

impl Color {
    /// Builds a color from its four channels.
    pub fn new(r: u8, g: u8, b: u8, a: u8) -> (c: Color)
        ensures
            c == (Color { r, g, b, a }),
    {
        Color { r, g, b, a }
    }
}

/// Side length, in texels, of every texture the engine samples.
pub const TEX_SIZE: usize = 128;

/// A 2D grid of color pixels with a current draw color.
pub struct Framebuffer {
    pub width: usize,
    pub height: usize,
    pub background: Color,
    pub pixels: Vec<Color>,
    pub current_color: Color,
}

impl Framebuffer {
    /// The buffer holds one pixel per screen cell and its dimensions stay
    /// within the engine's caps.
    pub open spec fn wf(self) -> bool {
        &&& self.pixels@.len() == self.width * self.height
        &&& 1 <= self.width <= 8192
        &&& 1 <= self.height <= 8192
    }

    /// Row-major position of `(x, y)` in the pixel vector.
    pub open spec fn pixel_index(self, x: int, y: int) -> int {
        y * self.width + x
    }

    /// The pixel at `(x, y)`.
    pub open spec fn pixel(self, x: int, y: int) -> Color {
        self.pixels@[self.pixel_index(x, y)]
    }

    /// `(x, y)` lies on the buffer.
    pub open spec fn in_bounds(self, x: int, y: int) -> bool {
        0 <= x < self.width && 0 <= y < self.height
    }

    pub proof fn lemma_index_in_range(self, x: int, y: int)
        requires
            self.wf(),
            self.in_bounds(x, y),
        ensures
            0 <= self.pixel_index(x, y) < self.pixels@.len(),
            self.pixel_index(x, y) < 0x4000000,
    {
        assert(0 <= y * self.width + x < self.width * self.height && y * self.width + x
            < 0x4000000) by (nonlinear_arith)
            requires
                0 <= x < self.width,
                0 <= y < self.height,
                self.width <= 8192,
                self.height <= 8192,
        ;
    }

    /// Two distinct on-screen coordinates occupy distinct slots of the
    /// pixel vector.
    pub proof fn lemma_index_injective(self, x1: int, y1: int, x2: int, y2: int)
        requires
            self.wf(),
            self.in_bounds(x1, y1),
            self.in_bounds(x2, y2),
            self.pixel_index(x1, y1) == self.pixel_index(x2, y2),
        ensures
            x1 == x2,
            y1 == y2,
    {
        assert(x1 == x2 && y1 == y2) by (nonlinear_arith)
            requires
                y1 * self.width + x1 == y2 * self.width + x2,
                0 <= x1 < self.width,
                0 <= x2 < self.width,
                0 <= y1,
                0 <= y2,
        ;
    }

    /// Every slot of the pixel vector is the slot of exactly one on-screen
    /// coordinate: the remainder and quotient by the width.
    pub proof fn lemma_index_decomposition(self, idx: int)
        requires
            self.wf(),
            0 <= idx < self.pixels@.len(),
        ensures
            self.in_bounds(idx % (self.width as int), idx / (self.width as int)),
            self.pixel_index(idx % (self.width as int), idx / (self.width as int)) == idx,
    {
        let w = self.width as int;
        lemma_fundamental_div_mod(idx, w);
        lemma_mod_bound(idx, w);
        lemma_multiply_divide_lt(idx, w, self.height as int);
        assert(w * (idx / w) == (idx / w) * w) by (nonlinear_arith);
    }

    /// Creates a buffer filled with the background color.
    pub fn new(width: usize, height: usize, background: Color) -> (fb: Framebuffer)
        requires
            1 <= width <= 8192,
            1 <= height <= 8192,
        ensures
            fb.wf(),
            fb.width == width,
            fb.height == height,
            fb.background == background,
            fb.current_color == background,
            forall|x: int, y: int| fb.in_bounds(x, y) ==> fb.pixel(x, y) == background,
    {
        assert(width * height <= 0x4000000) by (nonlinear_arith)
            requires width <= 8192, height <= 8192,
        ;
        let n = width * height;
        let mut pixels: Vec<Color> = Vec::new();
        let mut i: usize = 0;
        while i < n
            invariant
                i <= n,
                pixels@.len() == i,
                forall|t: int| 0 <= t < i ==> pixels@[t] == background,
            decreases n - i,
        {
            pixels.push(background);
            i = i + 1;
        }
        let fb = Framebuffer { width, height, background, pixels, current_color: background };
        proof {
            assert forall|x: int, y: int| fb.in_bounds(x, y) implies fb.pixel(x, y)
                == background by {
                fb.lemma_index_in_range(x, y);
            }
        }
        fb
    }

    /// Resets every pixel to the background color.
    pub fn clear(&mut self)
        requires
            old(self).wf(),
        ensures
            final(self).wf(),
            final(self).width == old(self).width,
            final(self).height == old(self).height,
            final(self).background == old(self).background,
            final(self).current_color == old(self).current_color,
            forall|x: int, y: int|
                final(self).in_bounds(x, y) ==> final(self).pixel(x, y) == final(self).background,
    {
        let n = self.pixels.len();
        let bg = self.background;
        let mut i: usize = 0;
        while i < n
            invariant
                i <= n,
                n == self.pixels@.len(),
                self.width == old(self).width,
                self.height == old(self).height,
                self.background == old(self).background,
                self.current_color == old(self).current_color,
                forall|t: int| 0 <= t < i ==> self.pixels@[t] == bg,
                bg == self.background,
            decreases n - i,
        {
            self.pixels.set(i, bg);
            i = i + 1;
        }
        proof {
            assert forall|x: int, y: int| self.in_bounds(x, y) implies self.pixel(x, y)
                == self.background by {
                self.lemma_index_in_range(x, y);
            }
        }
    }

    /// Selects the color that following `set_pixel` calls apply.
    pub fn set_current_color(&mut self, c: Color)
        ensures
            *final(self) == (Framebuffer { current_color: c, ..*old(self) }),
    {
        self.current_color = c;
    }

    /// Writes the current color at `(x, y)`; coordinates off the buffer are
    /// ignored.
    pub fn set_pixel(&mut self, x: i64, y: i64)
        requires
            old(self).wf(),
        ensures
            final(self).wf(),
            final(self).width == old(self).width,
            final(self).height == old(self).height,
            final(self).background == old(self).background,
            final(self).current_color == old(self).current_color,
            old(self).in_bounds(x as int, y as int) ==> final(self).pixels@ == old(
                self,
            ).pixels@.update(old(self).pixel_index(x as int, y as int), old(self).current_color),
            !old(self).in_bounds(x as int, y as int) ==> final(self).pixels@ == old(self).pixels@,
    {
        if 0 <= x && x < self.width as i64 && 0 <= y && y < self.height as i64 {
            proof {
                self.lemma_index_in_range(x as int, y as int);
            }
            let idx: usize = (y as usize) * self.width + (x as usize);
            let c = self.current_color;
            self.pixels.set(idx, c);
        }
    }

    /// Reads the pixel at `(x, y)`.
    pub fn get_pixel(&self, x: usize, y: usize) -> (c: Color)
        requires
            self.wf(),
            self.in_bounds(x as int, y as int),
        ensures
            c == self.pixel(x as int, y as int),
    {
        proof {
            self.lemma_index_in_range(x as int, y as int);
        }
        self.pixels[y * self.width + x]
    }
}

/// One square texture, identified by its key character.
pub struct Texture {
    pub key: char,
    pub pixels: Vec<Color>,
}

impl Texture {
    /// A texture holds exactly `TEX_SIZE * TEX_SIZE` texels.
    pub open spec fn wf(self) -> bool {
        self.pixels@.len() == TEX_SIZE * TEX_SIZE
    }
}

/// Clamps a texel coordinate onto the texture.
pub open spec fn clamp_tex(v: int) -> int {
    if v < TEX_SIZE {
        v
    } else {
        TEX_SIZE - 1
    }
}

/// The texel of `t` at `(x, y)`, with coordinates clamped onto the texture.
pub open spec fn tex_pixel(t: Texture, x: int, y: int) -> Color {
    t.pixels@[clamp_tex(y) * TEX_SIZE + clamp_tex(x)]
}

/// The color the provider returns for `key` at `(x, y)`: the texel of the
/// first texture whose key matches, or the fallback color for an unknown key.
pub open spec fn sample_spec(ts: Seq<Texture>, key: char, x: int, y: int, fallback: Color) -> Color
    decreases ts.len(),
{
    if ts.len() == 0 {
        fallback
    } else if ts[0].key == key {
        tex_pixel(ts[0], x, y)
    } else {
        sample_spec(ts.drop_first(), key, x, y, fallback)
    }
}

/// The texture provider: pixel-color lookup by key, with a fallback color
/// for unknown keys and a designated fully-transparent sentinel color that
/// sprite rendering skips.
pub struct TextureSet {
    pub textures: Vec<Texture>,
    pub fallback: Color,
    pub transparent: Color,
}

impl TextureSet {
    /// Every texture is fully populated.
    pub open spec fn wf(self) -> bool {
        forall|i: int| 0 <= i < self.textures@.len() ==> (#[trigger] self.textures@[i]).wf()
    }

    /// What a lookup of `key` at `(x, y)` returns.
    pub open spec fn sample(self, key: char, x: int, y: int) -> Color {
        sample_spec(self.textures@, key, x, y, self.fallback)
    }

    /// Looks one texel up, clamping coordinates onto the texture and falling
    /// back to the default color for a key no texture carries.
    pub fn get_pixel_color(&self, key: char, x: u32, y: u32) -> (c: Color)
        requires
            self.wf(),
        ensures
            c == self.sample(key, x as int, y as int),
    {
        let n = self.textures.len();
        proof {
            assert(self.textures@.skip(0) =~= self.textures@);
        }
        let mut i: usize = 0;
        while i < n
            invariant
                self.wf(),
                i <= n,
                n == self.textures@.len(),
                sample_spec(self.textures@, key, x as int, y as int, self.fallback) == sample_spec(
                    self.textures@.skip(i as int),
                    key,
                    x as int,
                    y as int,
                    self.fallback,
                ),
            decreases n - i,
        {
            proof {
                assert(self.textures@.skip(i as int)[0] == self.textures@[i as int]);
            }
            if self.textures[i].key == key {
                let tx: usize = if x < TEX_SIZE as u32 {
                    x as usize
                } else {
                    TEX_SIZE - 1
                };
                let ty: usize = if y < TEX_SIZE as u32 {
                    y as usize
                } else {
                    TEX_SIZE - 1
                };
                return self.textures[i].pixels[ty * TEX_SIZE + tx];
            }
            proof {
                assert(self.textures@.skip(i as int).drop_first() =~= self.textures@.skip(
                    i as int + 1,
                ));
            }
            i = i + 1;
        }
        self.fallback
    }
}

} // verus!
