//! Frames: dense row-major pixel buffers with colour transforms and
//! compositing operations.

use vstd::prelude::*;
use crate::pixel::{Pixel, tint_pixel, mono_pixel, chroma_matches};

verus! {

/// The mathematical content of a frame: its dimensions and its pixels as a
/// sequence in row-major order (the pixel at `(x, y)` sits at index
/// `y * width + x`).
#[verifier::ext_equal]
pub struct FrameModel {
    /// Width in pixels.
    pub width: nat,
    /// Height in pixels.
    pub height: nat,
    /// The pixels, row-major.
    pub pixels: Seq<Pixel>,
}

impl FrameModel {
    /// A frame is well formed when its buffer holds exactly
    /// `width * height` pixels.
    pub open spec fn wf(self) -> bool {
        self.pixels.len() == self.width * self.height
    }

    /// Whether `(x, y)` lies inside the frame.
    pub open spec fn in_bounds(self, x: int, y: int) -> bool {
        0 <= x < self.width && 0 <= y < self.height
    }

    /// The pixel at `(x, y)`.
    pub open spec fn pixel_at(self, x: int, y: int) -> Pixel {
        self.pixels[y * self.width + x]
    }
}

/// A row-major index computed from coordinates inside the grid stays inside
/// the buffer.
pub proof fn lemma_row_major_index(w: int, h: int, x: int, y: int)
    requires
        0 <= x < w,
        0 <= y < h,
    ensures
        0 <= y * w + x < w * h,
{
    assert(y * w + x <= (h - 1) * w + (w - 1) && (h - 1) * w + (w - 1) < w * h) by (nonlinear_arith)
        requires
            0 <= x < w,
            0 <= y < h,
    ;
}

/// Dividing a row-major index by the width recovers the coordinates it was
/// built from.
pub proof fn lemma_row_major_round_trip(w: int, x: int, y: int)
    requires
        0 < w,
        0 <= x < w,
        0 <= y,
    ensures
        (y * w + x) / w == y,
        (y * w + x) % w == x,
{
    vstd::arithmetic::div_mod::lemma_fundamental_div_mod_converse(y * w + x, w, y, x);
}

/// The row-major sequence of a `w` by `h` grid whose pixel at `(x, y)` is
/// `at(x, y)`.
pub open spec fn grid(w: nat, h: nat, at: spec_fn(int, int) -> Pixel) -> Seq<Pixel> {
    Seq::new(w * h, |i: int| at(i % (w as int), i / (w as int)))
}

/// Reading a grid through `pixel_at` gives back the generating function.
pub proof fn lemma_grid_pixel_at(w: nat, h: nat, at: spec_fn(int, int) -> Pixel, x: int, y: int)
    requires
        0 <= x < w,
        0 <= y < h,
    ensures
        (FrameModel { width: w, height: h, pixels: grid(w, h, at) }).pixel_at(x, y) == at(x, y),
{
    lemma_row_major_index(w as int, h as int, x, y);
    lemma_row_major_round_trip(w as int, x, y);
}

/// The model of a frame after tinting: every pixel interpolated toward
/// `color` by the strength `num/den`.
pub open spec fn tint_model(f: FrameModel, color: Pixel, num: int, den: int) -> FrameModel {
    FrameModel { pixels: f.pixels.map_values(|p: Pixel| tint_pixel(p, color, num, den)), ..f }
}

/// The model of a frame after the monochrome transform: every pixel
/// replaced by its channel average.
pub open spec fn mono_model(f: FrameModel) -> FrameModel {
    FrameModel { pixels: f.pixels.map_values(|p: Pixel| mono_pixel(p)), ..f }
}

/// The pixel function of a crop of `f` with top-left corner `(x0, y0)`.
pub open spec fn crop_at(f: FrameModel, x0: int, y0: int) -> spec_fn(int, int) -> Pixel {
    |x: int, y: int| f.pixel_at(x0 + x, y0 + y)
}

/// The model of the `cw` by `ch` sub-rectangle of `f` whose top-left corner
/// is `(x0, y0)`.
pub open spec fn crop_model(f: FrameModel, x0: int, y0: int, cw: nat, ch: nat) -> FrameModel {
    FrameModel { width: cw, height: ch, pixels: grid(cw, ch, crop_at(f, x0, y0)) }
}

/// The horizontal centring offset when `f` is enlarged to width `tw`.
pub open spec fn centre_x(f: FrameModel, tw: nat) -> int {
    (tw / 2) as int - (f.width / 2) as int
}

/// The vertical centring offset when `f` is enlarged to height `th`.
pub open spec fn centre_y(f: FrameModel, th: nat) -> int {
    (th / 2) as int - (f.height / 2) as int
}

/// The pixel function of `f` enlarged to `tw` by `th` over the background
/// `bg`: the original content sits centred, everything else is background.
pub open spec fn expand_at(f: FrameModel, tw: nat, th: nat, bg: Pixel) -> spec_fn(
    int,
    int,
) -> Pixel {
    |x: int, y: int|
        if centre_x(f, tw) <= x < centre_x(f, tw) + f.width && centre_y(f, th) <= y < centre_y(
            f,
            th,
        ) + f.height {
            f.pixel_at(x - centre_x(f, tw), y - centre_y(f, th))
        } else {
            bg
        }
}

/// The model of `f` enlarged to `tw` by `th`: the original content sits
/// centred (with truncated centring offsets), everything else is the
/// background colour.
pub open spec fn expand_model(f: FrameModel, tw: nat, th: nat, bg: Pixel) -> FrameModel {
    FrameModel { width: tw, height: th, pixels: grid(tw, th, expand_at(f, tw, th, bg)) }
}

/// Whether the target position `(x, y)` is covered by an overlay of size
/// `over` placed at offset `(xo, yo)`.
pub open spec fn covered(over: FrameModel, xo: int, yo: int, x: int, y: int) -> bool {
    xo <= x < xo + over.width && yo <= y < yo + over.height
}

/// The pixel function of `base` with `over` drawn on top at `(xo, yo)`.
pub open spec fn overlay_at(base: FrameModel, over: FrameModel, xo: int, yo: int) -> spec_fn(
    int,
    int,
) -> Pixel {
    |x: int, y: int|
        if covered(over, xo, yo, x, y) {
            over.pixel_at(x - xo, y - yo)
        } else {
            base.pixel_at(x, y)
        }
}

/// The model of `base` with `over` drawn on top at offset `(xo, yo)`:
/// covered positions take the overlay's pixel, every other position keeps
/// the base pixel; overlay positions outside the base are dropped.
pub open spec fn overlay_model(base: FrameModel, over: FrameModel, xo: int, yo: int) -> FrameModel {
    FrameModel { pixels: grid(base.width, base.height, overlay_at(base, over, xo, yo)), ..base }
}

/// The pixel function of `base` with `over` drawn on top at `(xo, yo)` under
/// the chroma key `key` with threshold `tolerance`.
pub open spec fn chroma_overlay_at(
    base: FrameModel,
    over: FrameModel,
    xo: int,
    yo: int,
    key: Pixel,
    tolerance: u8,
) -> spec_fn(int, int) -> Pixel {
    |x: int, y: int|
        if covered(over, xo, yo, x, y) && !chroma_matches(
            over.pixel_at(x - xo, y - yo),
            key,
            tolerance,
        ) {
            over.pixel_at(x - xo, y - yo)
        } else {
            base.pixel_at(x, y)
        }
}

/// The model of `base` with `over` drawn on top at offset `(xo, yo)` under a
/// chroma key: a covered position takes the overlay's pixel unless that
/// pixel matches `key` within `tolerance`, in which case (as everywhere
/// outside the overlay) the base pixel stays.
pub open spec fn chroma_overlay_model(
    base: FrameModel,
    over: FrameModel,
    xo: int,
    yo: int,
    key: Pixel,
    tolerance: u8,
) -> FrameModel {
    FrameModel {
        pixels: grid(
            base.width,
            base.height,
            chroma_overlay_at(base, over, xo, yo, key, tolerance),
        ),
        ..base
    }
}

/// A frame: a single image, held as a dense buffer of `width * height`
/// pixels in row-major order.
#[derive(Debug)]
pub struct Frame {
    /// The pixel data of the frame, row-major.
    pub pixels: Vec<Pixel>,
    /// The width of the frame.
    pub width: usize,
    /// The height of the frame.
    pub height: usize,
}

impl View for Frame {
    type V = FrameModel;

    open spec fn view(&self) -> FrameModel {
        FrameModel {
            width: self.width as nat,
            height: self.height as nat,
            pixels: self.pixels@,
        }
    }
}

impl Frame {
    /// Creates a frame of the given dimensions filled with the background
    /// colour.
    pub fn new(width: usize, height: usize, background: Pixel) -> (f: Frame)
        requires
            width * height <= usize::MAX,
        ensures
            f@.wf(),
            f@.width == width,
            f@.height == height,
            forall|i: int| 0 <= i < f@.pixels.len() ==> f@.pixels[i] == background,
    {
        let count: usize = width * height;
        let mut pixels: Vec<Pixel> = Vec::new();
        let mut i: usize = 0;
        while i < count
            invariant
                i <= count,
                pixels@.len() == i,
                forall|j: int| 0 <= j < i ==> pixels@[j] == background,
            decreases count - i,
        {
            pixels.push(background);
            i = i + 1;
        }
        Frame { pixels, width, height }
    }

    /// The pixel at `(x, y)`. The coordinates must lie inside the frame.
    pub fn get_pixel(&self, x: usize, y: usize) -> (p: Pixel)
        requires
            self@.wf(),
            x < self@.width,
            y < self@.height,
        ensures
            p == self@.pixel_at(x as int, y as int),
    {
        proof {
            lemma_row_major_index(self.width as int, self.height as int, x as int, y as int);
            assert(self.pixels@.len() <= usize::MAX) by {
                let n = self.pixels.len();
            }
        }
        let idx: usize = y * self.width + x;
        self.pixels[idx]
    }

    /// Replaces the pixel at `(x, y)`. The coordinates must lie inside the
    /// frame.
    pub fn put_pixel(&mut self, x: usize, y: usize, pixel: Pixel)
        requires
            old(self)@.wf(),
            x < old(self)@.width,
            y < old(self)@.height,
        ensures
            final(self)@ == (FrameModel {
                pixels: old(self)@.pixels.update(y * old(self)@.width + x, pixel),
                ..old(self)@
            }),
            final(self)@.wf(),
    {
        proof {
            lemma_row_major_index(self.width as int, self.height as int, x as int, y as int);
            assert(self.pixels@.len() <= usize::MAX) by {
                let n = self.pixels.len();
            }
        }
        let idx: usize = y * self.width + x;
        self.pixels.set(idx, pixel);
    }

    /// Tints the frame: every pixel is interpolated toward `color` by the
    /// strength `num/den`, which must lie in `[0, 1]`.
    pub fn tint(&mut self, color: Pixel, num: u64, den: u64)
        requires
            0 < den,
            num <= den,
        ensures
            final(self)@ == tint_model(old(self)@, color, num as int, den as int),
    {
        let n: usize = self.pixels.len();
        let mut i: usize = 0;
        while i < n
            invariant
                i <= n,
                self.pixels@.len() == n,
                self.width == old(self).width,
                self.height == old(self).height,
                0 < den,
                num <= den,
                forall|j: int| 0 <= j < i ==> self.pixels@[j] == tint_pixel(
                    old(self).pixels@[j],
                    color,
                    num as int,
                    den as int,
                ),
                forall|j: int| i <= j < n ==> self.pixels@[j] == old(self).pixels@[j],
            decreases n - i,
        {
            let p = self.pixels[i];
            self.pixels.set(i, p.tinted(color, num, den));
            i = i + 1;
        }
        proof {
            assert(self@ =~= tint_model(old(self)@, color, num as int, den as int));
        }
    }

    /// Turns the frame monochrome: every pixel's channels are replaced by
    /// the truncated average of its original channels.
    pub fn monochrome(&mut self)
        ensures
            final(self)@ == mono_model(old(self)@),
    {
        let n: usize = self.pixels.len();
        let mut i: usize = 0;
        while i < n
            invariant
                i <= n,
                self.pixels@.len() == n,
                self.width == old(self).width,
                self.height == old(self).height,
                forall|j: int| 0 <= j < i ==> self.pixels@[j] == mono_pixel(old(self).pixels@[j]),
                forall|j: int| i <= j < n ==> self.pixels@[j] == old(self).pixels@[j],
            decreases n - i,
        {
            let p = self.pixels[i];
            self.pixels.set(i, p.monochromed());
            i = i + 1;
        }
        proof {
            assert(self@ =~= mono_model(old(self)@));
        }
    }

    /// The `cw` by `ch` sub-rectangle of this frame whose top-left corner is
    /// `(x_start, y_start)`. The rectangle must lie inside the frame.
    pub fn cropped(&self, x_start: usize, y_start: usize, cw: usize, ch: usize) -> (c: Frame)
        requires
            self@.wf(),
            x_start + cw <= self@.width,
            y_start + ch <= self@.height,
        ensures
            c@ == crop_model(self@, x_start as int, y_start as int, cw as nat, ch as nat),
            c@.wf(),
    {
        proof {
            vstd::arithmetic::mul::lemma_mul_upper_bound(
                cw as int,
                self.width as int,
                ch as int,
                self.height as int,
            );
            assert(self.pixels@.len() <= usize::MAX) by {
                let m = self.pixels.len();
            }
        }
        let count: usize = cw * ch;
        let ghost target = grid(cw as nat, ch as nat, crop_at(self@, x_start as int, y_start as int));
        let mut pixels: Vec<Pixel> = Vec::new();
        let mut i: usize = 0;
        while i < count
            invariant
                i <= count,
                count == cw * ch,
                x_start + cw <= self@.width,
                y_start + ch <= self@.height,
                self@.wf(),
                target == grid(cw as nat, ch as nat, crop_at(self@, x_start as int, y_start as int)),
                pixels@ =~= target.take(i as int),
            decreases count - i,
        {
            proof {
                assert(0 < cw) by (nonlinear_arith)
                    requires
                        i < cw * ch,
                        0 <= i,
                ;
                vstd::arithmetic::div_mod::lemma_multiply_divide_lt(i as int, cw as int, ch as int);
            }
            let x: usize = i % cw;
            let y: usize = i / cw;
            let p = self.get_pixel(x_start + x, y_start + y);
            pixels.push(p);
            proof {
                assert(target.take(i + 1) =~= target.take(i as int).push(target[i as int]));
            }
            i = i + 1;
        }
        let c = Frame { pixels, width: cw, height: ch };
        proof {
            assert(target.take(count as int) =~= target);
            assert(c@ =~= crop_model(self@, x_start as int, y_start as int, cw as nat, ch as nat));
        }
        c
    }

    /// Replaces the frame by a `target_width` by `target_height` frame
    /// filled with `background`, with the old content copied into its
    /// centre (centring offsets truncate). The target dimensions must not
    /// be smaller than the current ones.
    pub fn expand(&mut self, target_width: usize, target_height: usize, background: Pixel)
        requires
            old(self)@.wf(),
            old(self)@.width <= target_width,
            old(self)@.height <= target_height,
            target_width * target_height <= usize::MAX,
        ensures
            final(self)@ == expand_model(
                old(self)@,
                target_width as nat,
                target_height as nat,
                background,
            ),
            final(self)@.wf(),
    {
        proof {
            vstd::arithmetic::div_mod::lemma_div_is_ordered(
                self.width as int,
                target_width as int,
                2,
            );
            vstd::arithmetic::div_mod::lemma_div_is_ordered(
                self.height as int,
                target_height as int,
                2,
            );
            vstd::arithmetic::div_mod::lemma_fundamental_div_mod(target_width as int, 2);
            vstd::arithmetic::div_mod::lemma_fundamental_div_mod(self.width as int, 2);
            vstd::arithmetic::div_mod::lemma_fundamental_div_mod(target_height as int, 2);
            vstd::arithmetic::div_mod::lemma_fundamental_div_mod(self.height as int, 2);
            vstd::arithmetic::div_mod::lemma_mod_bound(target_width as int, 2);
            vstd::arithmetic::div_mod::lemma_mod_bound(self.width as int, 2);
            vstd::arithmetic::div_mod::lemma_mod_bound(target_height as int, 2);
            vstd::arithmetic::div_mod::lemma_mod_bound(self.height as int, 2);
        }
        let x0: usize = target_width / 2 - self.width / 2;
        let y0: usize = target_height / 2 - self.height / 2;
        assert(x0 + self@.width <= target_width);
        assert(y0 + self@.height <= target_height);
        let count: usize = target_width * target_height;
        let ghost target = grid(
            target_width as nat,
            target_height as nat,
            expand_at(old(self)@, target_width as nat, target_height as nat, background),
        );
        let mut pixels: Vec<Pixel> = Vec::new();
        let mut i: usize = 0;
        while i < count
            invariant
                i <= count,
                count == target_width * target_height,
                *self == *old(self),
                self@.wf(),
                self@.width <= target_width,
                self@.height <= target_height,
                x0 as int == centre_x(self@, target_width as nat),
                y0 as int == centre_y(self@, target_height as nat),
                x0 + self@.width <= target_width,
                y0 + self@.height <= target_height,
                target == grid(
                    target_width as nat,
                    target_height as nat,
                    expand_at(self@, target_width as nat, target_height as nat, background),
                ),
                pixels@ =~= target.take(i as int),
            decreases count - i,
        {
            proof {
                assert(0 < target_width) by (nonlinear_arith)
                    requires
                        i < target_width * target_height,
                        0 <= i,
                ;
                vstd::arithmetic::div_mod::lemma_multiply_divide_lt(
                    i as int,
                    target_width as int,
                    target_height as int,
                );
            }
            let x: usize = i % target_width;
            let y: usize = i / target_width;
            let p: Pixel = if x >= x0 && x - x0 < self.width && y >= y0 && y - y0 < self.height {
                self.get_pixel(x - x0, y - y0)
            } else {
                background
            };
            pixels.push(p);
            proof {
                assert(target.take(i + 1) =~= target.take(i as int).push(target[i as int]));
            }
            i = i + 1;
        }
        self.width = target_width;
        self.height = target_height;
        self.pixels = pixels;
        proof {
            assert(target.take(count as int) =~= target);
            assert(self@ =~= expand_model(
                old(self)@,
                target_width as nat,
                target_height as nat,
                background,
            ));
        }
    }

    /// Draws `other` over this frame with its top-left corner at
    /// `(x_offset, y_offset)`: every overlay pixel whose target position
    /// lies inside this frame overwrites the pixel there; overlay positions
    /// outside this frame are silently skipped, and no pixel outside the
    /// overlay's footprint changes.
    pub fn draw_over(&mut self, other: &Frame, x_offset: usize, y_offset: usize)
        requires
            old(self)@.wf(),
            other@.wf(),
        ensures
            final(self)@ == overlay_model(old(self)@, other@, x_offset as int, y_offset as int),
            final(self)@.wf(),
            final(self)@.width == old(self)@.width,
            final(self)@.height == old(self)@.height,
            forall|x: int, y: int|
                old(self)@.in_bounds(x, y) && !covered(other@, x_offset as int, y_offset as int, x, y)
                    ==> final(self)@.pixel_at(x, y) == old(self)@.pixel_at(x, y),
    {
        let count: usize = self.pixels.len();
        proof {
            assert(count == self@.width * self@.height);
        }
        let w: usize = self.width;
        let h: usize = self.height;
        let ghost target = grid(
            self@.width,
            self@.height,
            overlay_at(old(self)@, other@, x_offset as int, y_offset as int),
        );
        let mut pixels: Vec<Pixel> = Vec::new();
        let mut i: usize = 0;
        while i < count
            invariant
                i <= count,
                count == w * h,
                w == self@.width,
                h == self@.height,
                *self == *old(self),
                self@.wf(),
                other@.wf(),
                target == grid(
                    self@.width,
                    self@.height,
                    overlay_at(self@, other@, x_offset as int, y_offset as int),
                ),
                pixels@ =~= target.take(i as int),
            decreases count - i,
        {
            proof {
                assert(0 < w) by (nonlinear_arith)
                    requires
                        i < w * h,
                        0 <= i,
                ;
                vstd::arithmetic::div_mod::lemma_multiply_divide_lt(i as int, w as int, h as int);
            }
            let x: usize = i % w;
            let y: usize = i / w;
            let p: Pixel = if x >= x_offset && x - x_offset < other.width && y >= y_offset && y
                - y_offset < other.height {
                other.get_pixel(x - x_offset, y - y_offset)
            } else {
                self.get_pixel(x, y)
            };
            pixels.push(p);
            proof {
                assert(target.take(i + 1) =~= target.take(i as int).push(target[i as int]));
            }
            i = i + 1;
        }
        self.pixels = pixels;
        proof {
            assert(target.take(count as int) =~= target);
            assert(self@ =~= overlay_model(old(self)@, other@, x_offset as int, y_offset as int));
            assert forall|x: int, y: int|
                old(self)@.in_bounds(x, y) && !covered(
                    other@,
                    x_offset as int,
                    y_offset as int,
                    x,
                    y,
                ) implies self@.pixel_at(x, y) == old(self)@.pixel_at(x, y) by {
                lemma_grid_pixel_at(
                    old(self)@.width,
                    old(self)@.height,
                    overlay_at(old(self)@, other@, x_offset as int, y_offset as int),
                    x,
                    y,
                );
            }
        }
    }

    /// Draws `other` over this frame like `draw_over`, except that an
    /// overlay pixel whose every channel differs from `chroma_key` by at
    /// most `tolerance` is treated as transparent and leaves the pixel
    /// beneath it unchanged.
    pub fn draw_with_chroma_key(
        &mut self,
        other: &Frame,
        x_offset: usize,
        y_offset: usize,
        chroma_key: Pixel,
        tolerance: u8,
    )
        requires
            old(self)@.wf(),
            other@.wf(),
        ensures
            final(self)@ == chroma_overlay_model(
                old(self)@,
                other@,
                x_offset as int,
                y_offset as int,
                chroma_key,
                tolerance,
            ),
            final(self)@.wf(),
            final(self)@.width == old(self)@.width,
            final(self)@.height == old(self)@.height,
            forall|x: int, y: int|
                old(self)@.in_bounds(x, y) && !covered(other@, x_offset as int, y_offset as int, x, y)
                    ==> final(self)@.pixel_at(x, y) == old(self)@.pixel_at(x, y),
    {
        let count: usize = self.pixels.len();
        proof {
            assert(count == self@.width * self@.height);
        }
        let w: usize = self.width;
        let h: usize = self.height;
        let ghost target = grid(
            self@.width,
            self@.height,
            chroma_overlay_at(
                old(self)@,
                other@,
                x_offset as int,
                y_offset as int,
                chroma_key,
                tolerance,
            ),
        );
        let mut pixels: Vec<Pixel> = Vec::new();
        let mut i: usize = 0;
        while i < count
            invariant
                i <= count,
                count == w * h,
                w == self@.width,
                h == self@.height,
                *self == *old(self),
                self@.wf(),
                other@.wf(),
                target == grid(
                    self@.width,
                    self@.height,
                    chroma_overlay_at(
                        self@,
                        other@,
                        x_offset as int,
                        y_offset as int,
                        chroma_key,
                        tolerance,
                    ),
                ),
                pixels@ =~= target.take(i as int),
            decreases count - i,
        {
            proof {
                assert(0 < w) by (nonlinear_arith)
                    requires
                        i < w * h,
                        0 <= i,
                ;
                vstd::arithmetic::div_mod::lemma_multiply_divide_lt(i as int, w as int, h as int);
            }
            let x: usize = i % w;
            let y: usize = i / w;
            let p: Pixel = if x >= x_offset && x - x_offset < other.width && y >= y_offset && y
                - y_offset < other.height {
                let src = other.get_pixel(x - x_offset, y - y_offset);
                if !src.matches_chroma_key(chroma_key, tolerance) {
                    src
                } else {
                    self.get_pixel(x, y)
                }
            } else {
                self.get_pixel(x, y)
            };
            pixels.push(p);
            proof {
                assert(target.take(i + 1) =~= target.take(i as int).push(target[i as int]));
            }
            i = i + 1;
        }
        self.pixels = pixels;
        proof {
            assert(target.take(count as int) =~= target);
            assert(self@ =~= chroma_overlay_model(
                old(self)@,
                other@,
                x_offset as int,
                y_offset as int,
                chroma_key,
                tolerance,
            ));
            assert forall|x: int, y: int|
                old(self)@.in_bounds(x, y) && !covered(
                    other@,
                    x_offset as int,
                    y_offset as int,
                    x,
                    y,
                ) implies self@.pixel_at(x, y) == old(self)@.pixel_at(x, y) by {
                lemma_grid_pixel_at(
                    old(self)@.width,
                    old(self)@.height,
                    chroma_overlay_at(
                        old(self)@,
                        other@,
                        x_offset as int,
                        y_offset as int,
                        chroma_key,
                        tolerance,
                    ),
                    x,
                    y,
                );
            }
        }
    }

    /// Flattens the frame into raw 8-bit RGB samples, three per pixel, in
    /// row-major pixel order.
    pub fn to_rgb_samples(&self) -> (s: Vec<u8>)
        ensures
            s@.len() == 3 * self@.pixels.len(),
            forall|i: int|
                0 <= i < self@.pixels.len() ==> s@[3 * i] == self@.pixels[i].r && s@[3 * i + 1]
                    == self@.pixels[i].g && s@[3 * i + 2] == self@.pixels[i].b,
    {
        let n: usize = self.pixels.len();
        let mut s: Vec<u8> = Vec::new();
        let mut i: usize = 0;
        while i < n
            invariant
                i <= n,
                n == self@.pixels.len(),
                s@.len() == 3 * i,
                forall|j: int|
                    0 <= j < i ==> s@[3 * j] == self@.pixels[j].r && s@[3 * j + 1]
                        == self@.pixels[j].g && s@[3 * j + 2] == self@.pixels[j].b,
            decreases n - i,
        {
            let p = self.pixels[i];
            s.push(p.r);
            s.push(p.g);
            s.push(p.b);
            i = i + 1;
        }
        s
    }

    /// Builds a frame of the given dimensions from raw 8-bit RGB samples,
    /// three per pixel in row-major pixel order. Returns `None` exactly
    /// when the number of samples is not `3 * width * height`.
    pub fn from_rgb_samples(width: usize, height: usize, samples: &Vec<u8>) -> (f: Option<Frame>)
        ensures
            f is Some <==> samples@.len() == 3 * (width * height),
            f matches Some(frame) ==> {
                &&& frame@.wf()
                &&& frame@.width == width
                &&& frame@.height == height
                &&& forall|i: int|
                    0 <= i < width * height ==> frame@.pixels[i] == (Pixel {
                        r: samples@[3 * i],
                        g: samples@[3 * i + 1],
                        b: samples@[3 * i + 2],
                    })
            },
    {
        let len: usize = samples.len();
        let count: usize = match width.checked_mul(height) {
            Some(c) => c,
            None => {
                proof {
                    assert(samples@.len() < 3 * (width * height)) by (nonlinear_arith)
                        requires
                            width * height > usize::MAX,
                            samples@.len() <= usize::MAX,
                    ;
                }
                return None;
            },
        };
        let total: usize = match count.checked_mul(3) {
            Some(t) => t,
            None => {
                return None;
            },
        };
        if len != total {
            return None;
        }
        let mut pixels: Vec<Pixel> = Vec::new();
        let mut i: usize = 0;
        while i < count
            invariant
                i <= count,
                count == width * height,
                total == 3 * count,
                samples@.len() == total,
                pixels@.len() == i,
                forall|j: int|
                    0 <= j < i ==> pixels@[j] == (Pixel {
                        r: samples@[3 * j],
                        g: samples@[3 * j + 1],
                        b: samples@[3 * j + 2],
                    }),
            decreases count - i,
        {
            let base: usize = 3 * i;
            let p = Pixel { r: samples[base], g: samples[base + 1], b: samples[base + 2] };
            pixels.push(p);
            i = i + 1;
        }
        Some(Frame { pixels, width, height })
    }
}

fn clone_pixels(v: &Vec<Pixel>) -> (r: Vec<Pixel>)
    ensures
        r@ == v@,
{
    let n: usize = v.len();
    let mut r: Vec<Pixel> = Vec::new();
    let mut i: usize = 0;
    while i < n
        invariant
            i <= n,
            n == v@.len(),
            r@ =~= v@.take(i as int),
        decreases n - i,
    {
        r.push(v[i]);
        i = i + 1;
    }
    proof {
        assert(v@.take(n as int) =~= v@);
    }
    r
}

impl Clone for Frame {
    /// Cloning a frame preserves its dimensions and every pixel.
    fn clone(&self) -> (res: Self)
        ensures
            res@ == self@,
    {
        Frame { pixels: clone_pixels(&self.pixels), width: self.width, height: self.height }
    }
}

impl PartialEq for Frame {
    /// Two frames are equal when their dimensions and all their pixels are.
    fn eq(&self, other: &Self) -> (r: bool) {
        if self.width != other.width || self.height != other.height {
            return false;
        }
        let n: usize = self.pixels.len();
        if n != other.pixels.len() {
            return false;
        }
        let mut i: usize = 0;
        while i < n
            invariant
                i <= n,
                n == self.pixels@.len(),
                n == other.pixels@.len(),
                forall|j: int| 0 <= j < i ==> self.pixels@[j] == other.pixels@[j],
            decreases n - i,
        {
            let a = self.pixels[i];
            let b = other.pixels[i];
            if a != b {
                proof {
                    assert(self.pixels@[i as int] != other.pixels@[i as int]);
                }
                return false;
            }
            i = i + 1;
        }
        proof {
            assert(self.pixels@ =~= other.pixels@);
            assert(self@ =~= other@);
        }
        true
    }
}

impl vstd::std_specs::cmp::PartialEqSpecImpl for Frame {
    open spec fn obeys_eq_spec() -> bool {
        true
    }

    open spec fn eq_spec(&self, other: &Self) -> bool {
        self@ == other@
    }
}

/// Tinting a frame with strength 0 leaves it unchanged.
pub proof fn lemma_tint_frame_zero(f: FrameModel, color: Pixel, den: int)
    requires
        0 < den,
    ensures
        tint_model(f, color, 0, den) == f,
{
    let t = tint_model(f, color, 0, den);
    assert forall|i: int| 0 <= i < f.pixels.len() implies t.pixels[i] == f.pixels[i] by {
        crate::pixel::lemma_tint_pixel_zero(f.pixels[i], color, den);
    }
    assert(t =~= f);
}

/// Tinting a frame with strength 1 makes every pixel exactly the target
/// colour.
pub proof fn lemma_tint_frame_full(f: FrameModel, color: Pixel, den: int)
    requires
        0 < den,
    ensures
        tint_model(f, color, den, den).pixels.len() == f.pixels.len(),
        forall|i: int|
            0 <= i < f.pixels.len() ==> tint_model(f, color, den, den).pixels[i] == color,
{
    let t = tint_model(f, color, den, den);
    assert forall|i: int| 0 <= i < f.pixels.len() implies t.pixels[i] == color by {
        crate::pixel::lemma_tint_pixel_full(f.pixels[i], color, den);
    }
}

/// Turning a frame monochrome twice gives the same frame as doing it once.
pub proof fn lemma_monochrome_idempotent(f: FrameModel)
    ensures
        mono_model(mono_model(f)) == mono_model(f),
{
    let m1 = mono_model(f);
    let m2 = mono_model(m1);
    assert forall|i: int| 0 <= i < f.pixels.len() implies m2.pixels[i] == m1.pixels[i] by {
        crate::pixel::lemma_mono_pixel_idempotent(f.pixels[i]);
    }
    assert(m2 =~= m1);
}

/// Drawing an overlay whose every pixel equals the chroma key, with
/// tolerance 0, leaves the base frame unchanged: the overlay is fully
/// transparent.
pub proof fn lemma_chroma_key_fully_transparent(
    base: FrameModel,
    over: FrameModel,
    xo: int,
    yo: int,
    key: Pixel,
)
    requires
        base.wf(),
        over.wf(),
        forall|i: int| 0 <= i < over.pixels.len() ==> over.pixels[i] == key,
    ensures
        chroma_overlay_model(base, over, xo, yo, key, 0) == base,
{
    let m = chroma_overlay_model(base, over, xo, yo, key, 0);
    let w = base.width as int;
    let h = base.height as int;
    assert forall|i: int| 0 <= i < base.pixels.len() implies m.pixels[i] == base.pixels[i] by {
        assert(0 < w) by (nonlinear_arith)
            requires
                0 <= i < w * h,
                0 <= h,
        ;
        vstd::arithmetic::div_mod::lemma_multiply_divide_lt(i, w, h);
        vstd::arithmetic::div_mod::lemma_mod_bound(i, w);
        vstd::arithmetic::div_mod::lemma_fundamental_div_mod(i, w);
        let x = i % w;
        let y = i / w;
        if covered(over, xo, yo, x, y) {
            lemma_row_major_index(over.width as int, over.height as int, x - xo, y - yo);
            assert(over.pixel_at(x - xo, y - yo) == key);
        }
    }
    assert(m =~= base);
}

/// Cropping the centred `cw` by `ch` rectangle of a frame and expanding it
/// back to the original dimensions over a background reproduces the
/// original pixels inside the cropped region; every pixel outside it is the
/// background colour.
pub proof fn lemma_crop_then_expand_centred(f: FrameModel, cw: nat, ch: nat, bg: Pixel)
    requires
        f.wf(),
        cw <= f.width,
        ch <= f.height,
    ensures
        ({
            let cx = (f.width / 2) as int - (cw / 2) as int;
            let cy = (f.height / 2) as int - (ch / 2) as int;
            let e = expand_model(crop_model(f, cx, cy, cw, ch), f.width, f.height, bg);
            &&& e.width == f.width
            &&& e.height == f.height
            &&& forall|x: int, y: int|
                cx <= x < cx + cw && cy <= y < cy + ch ==> e.pixel_at(x, y) == f.pixel_at(x, y)
            &&& forall|x: int, y: int|
                f.in_bounds(x, y) && !(cx <= x < cx + cw && cy <= y < cy + ch) ==> e.pixel_at(x, y)
                    == bg
        }),
{
    let cx = (f.width / 2) as int - (cw / 2) as int;
    let cy = (f.height / 2) as int - (ch / 2) as int;
    let c = crop_model(f, cx, cy, cw, ch);
    let e = expand_model(c, f.width, f.height, bg);
    vstd::arithmetic::div_mod::lemma_div_is_ordered(cw as int, f.width as int, 2);
    vstd::arithmetic::div_mod::lemma_div_is_ordered(ch as int, f.height as int, 2);
    vstd::arithmetic::div_mod::lemma_fundamental_div_mod(f.width as int, 2);
    vstd::arithmetic::div_mod::lemma_fundamental_div_mod(cw as int, 2);
    vstd::arithmetic::div_mod::lemma_fundamental_div_mod(f.height as int, 2);
    vstd::arithmetic::div_mod::lemma_fundamental_div_mod(ch as int, 2);
    vstd::arithmetic::div_mod::lemma_mod_bound(f.width as int, 2);
    vstd::arithmetic::div_mod::lemma_mod_bound(cw as int, 2);
    vstd::arithmetic::div_mod::lemma_mod_bound(f.height as int, 2);
    vstd::arithmetic::div_mod::lemma_mod_bound(ch as int, 2);
    assert(centre_x(c, f.width) == cx);
    assert(centre_y(c, f.height) == cy);
    assert(0 <= cx && cx + cw <= f.width);
    assert(0 <= cy && cy + ch <= f.height);
    assert forall|x: int, y: int| f.in_bounds(x, y) implies e.pixel_at(x, y) == (if cx <= x < cx
        + cw && cy <= y < cy + ch {
        f.pixel_at(x, y)
    } else {
        bg
    }) by {
        lemma_grid_pixel_at(f.width, f.height, expand_at(c, f.width, f.height, bg), x, y);
        if cx <= x < cx + cw && cy <= y < cy + ch {
            lemma_grid_pixel_at(cw, ch, crop_at(f, cx, cy), x - cx, y - cy);
        }
    }
}

} // verus!
