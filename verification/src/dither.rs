//! Floyd–Steinberg error-diffusion dithering.
//!
//! The ditherer walks a flat row-major pixel buffer once, in increasing index
//! order.  At each position it snaps the pixel to its nearest palette entry,
//! computes the per-channel quantization error with saturating subtraction,
//! and diffuses the error to up to four forward neighbors — below (5/16),
//! right (7/16), below-right (1/16) and below-left (3/16) — each gated by a
//! boundary test so no error ever leaves the grid.

use vstd::prelude::*;

use crate::color::Color;
use crate::color::sat_add;
use crate::color::sat_sub;
use crate::color::sat_add_channel;
use crate::palette::nearest_color;
use crate::palette::find_nearest_color;
use crate::palette::lemma_nearest_in_palette;
use crate::palette::lemma_nearest_exact;
use vstd::arithmetic::div_mod::lemma_fundamental_div_mod_converse;
use vstd::arithmetic::div_mod::lemma_mod_adds;
use vstd::arithmetic::div_mod::lemma_mod_self_0;

verus! {

/// One channel of the error scaled by a sixteenth weight, rounded to the
/// nearest integer: round(e * num / 16).
pub open spec fn scaled_error_channel(e: u8, num: int) -> u8 {
    ((e * num + 8) / 16) as u8
}

/// The quantization error scaled by the diffusion weight num/16.
pub open spec fn scaled_error(e: Color, num: int) -> Color {
    Color {
        r: scaled_error_channel(e.r, num),
        g: scaled_error_channel(e.g, num),
        b: scaled_error_channel(e.b, num),
    }
}

/// Whether index `i` lies in the leftmost column.
pub open spec fn at_left_edge(i: int, width: int) -> bool {
    i % width == 0
}

/// Whether index `i` lies in the rightmost column.
pub open spec fn at_right_edge(i: int, width: int) -> bool {
    (i + 1) % width == 0
}

/// Whether index `i` lies in the bottom row.
pub open spec fn at_bottom_row(i: int, width: int, height: int) -> bool {
    i + width >= width * height
}

/// The buffer with the scaled error added, saturating, at one index.
pub open spec fn add_error_at(buf: Seq<Color>, idx: int, e: Color, num: int) -> Seq<Color> {
    buf.update(idx, sat_add(buf[idx], scaled_error(e, num)))
}

/// One step of the raster scan at index `i`: snap the pixel to its nearest
/// palette entry and diffuse the quantization error to the forward
/// neighbors that exist.
pub open spec fn dither_step(
    buf: Seq<Color>,
    width: int,
    height: int,
    pal: Seq<Color>,
    i: int,
) -> Seq<Color> {
    let chosen = nearest_color(buf[i], pal);
    let e = sat_sub(buf[i], chosen);
    let b0 = buf.update(i, chosen);
    let b1 = if !at_bottom_row(i, width, height) {
        add_error_at(b0, i + width, e, 5)
    } else {
        b0
    };
    let b2 = if !at_right_edge(i, width) {
        add_error_at(b1, i + 1, e, 7)
    } else {
        b1
    };
    let b3 = if !at_right_edge(i, width) && !at_bottom_row(i, width, height) {
        add_error_at(b2, i + width + 1, e, 1)
    } else {
        b2
    };
    let b4 = if !at_left_edge(i, width) && !at_bottom_row(i, width, height) {
        add_error_at(b3, i + width - 1, e, 3)
    } else {
        b3
    };
    b4
}

/// The buffer after the first `n` steps of the raster scan.
pub open spec fn dither_prefix(
    buf: Seq<Color>,
    width: int,
    height: int,
    pal: Seq<Color>,
    n: int,
) -> Seq<Color>
    decreases n,
{
    if n <= 0 {
        buf
    } else {
        dither_step(dither_prefix(buf, width, height, pal, n - 1), width, height, pal, n - 1)
    }
}

/// The fully dithered buffer: every index processed once, in raster order.
pub open spec fn dithered(buf: Seq<Color>, width: int, height: int, pal: Seq<Color>) -> Seq<
    Color,
> {
    dither_prefix(buf, width, height, pal, buf.len() as int)
}

/// Boundary correctness: every forward neighbor that a step diffuses to
/// lies inside the buffer, so no error is ever diffused off an edge — in
/// particular not off either horizontal end of a single-row image.
pub proof fn lemma_neighbor_bounds(i: int, width: int, height: int)
    requires
        width >= 1,
        height >= 1,
        0 <= i < width * height,
    ensures
        !at_bottom_row(i, width, height) ==> i + width < width * height,
        !at_right_edge(i, width) ==> i + 1 < width * height,
        !at_right_edge(i, width) && !at_bottom_row(i, width, height) ==> i + width + 1 < width
            * height,
        !at_left_edge(i, width) ==> i >= 1,
        !at_left_edge(i, width) && !at_bottom_row(i, width, height) ==> 0 <= i + width - 1 < width
            * height,
{
    let n = width * height;
    lemma_mod_self_0(width);
    assert(n % width == 0) by {
        lemma_fundamental_div_mod_converse(n, width, height, 0);
    }
    if !at_right_edge(i, width) {
        // i + 1 cannot be the multiple-of-width n, so from i + 1 <= n follows i + 1 < n.
        assert(i + 1 != n);
        if !at_bottom_row(i, width, height) {
            // (i + width + 1) % width == (i + 1) % width != 0 == n % width.
            lemma_mod_adds(i + 1, width, width);
            lemma_mod_self_0(width);
            assert((i + 1 + width) % width == (i + 1) % width);
            assert(i + width + 1 != n);
        }
    }
    if !at_left_edge(i, width) {
        assert(0int % width == 0) by {
            lemma_fundamental_div_mod_converse(0, width, 0, 0);
        }
        assert(i != 0);
    }
}

/// What one step does: the current pixel is snapped to its nearest palette
/// entry, earlier pixels are untouched, and the length is preserved.
proof fn lemma_dither_step_frame(
    buf: Seq<Color>,
    width: int,
    height: int,
    pal: Seq<Color>,
    i: int,
)
    requires
        width >= 1,
        height >= 1,
        buf.len() == width * height,
        pal.len() >= 1,
        0 <= i < buf.len(),
    ensures
        dither_step(buf, width, height, pal, i).len() == buf.len(),
        dither_step(buf, width, height, pal, i)[i] == nearest_color(buf[i], pal),
        forall|j: int|
            0 <= j < i ==> #[trigger] dither_step(buf, width, height, pal, i)[j] == buf[j],
{
    lemma_neighbor_bounds(i, width, height);
    if !at_left_edge(i, width) && !at_bottom_row(i, width, height) {
        // the below-left target i + width - 1 exceeds i exactly when width > 1;
        // a single column makes every index a left edge, so this branch has width >= 2
        assert(i % width == i - width * (i / width)) by {
            vstd::arithmetic::div_mod::lemma_fundamental_div_mod(i, width);
        }
        if width == 1 {
            assert(at_left_edge(i, width)) by {
                lemma_fundamental_div_mod_converse(i, 1, i, 0);
            }
        }
        assert(width >= 2);
    }
}

/// After the first `n` steps the length is unchanged and every processed
/// pixel is a palette member.
proof fn lemma_dither_prefix_props(
    buf: Seq<Color>,
    width: int,
    height: int,
    pal: Seq<Color>,
    n: int,
)
    requires
        width >= 1,
        height >= 1,
        buf.len() == width * height,
        pal.len() >= 1,
        0 <= n <= buf.len(),
    ensures
        dither_prefix(buf, width, height, pal, n).len() == buf.len(),
        forall|j: int|
            0 <= j < n ==> pal.contains(#[trigger] dither_prefix(buf, width, height, pal, n)[j]),
    decreases n,
{
    if n > 0 {
        lemma_dither_prefix_props(buf, width, height, pal, n - 1);
        let prev = dither_prefix(buf, width, height, pal, n - 1);
        lemma_dither_step_frame(prev, width, height, pal, n - 1);
        lemma_nearest_in_palette(prev[n - 1], pal);
        let cur = dither_prefix(buf, width, height, pal, n);
        assert forall|j: int| 0 <= j < n implies pal.contains(#[trigger] cur[j]) by {
            if j < n - 1 {
                assert(cur[j] == prev[j]);
            } else {
                assert(cur[j] == nearest_color(prev[n - 1], pal));
            }
        }
    }
}

/// The dithered buffer has the same length as the input, and every one of
/// its pixels is an exact member of the palette.
pub proof fn lemma_dithered_props(buf: Seq<Color>, width: int, height: int, pal: Seq<Color>)
    requires
        width >= 1,
        height >= 1,
        buf.len() == width * height,
        pal.len() >= 1,
    ensures
        dithered(buf, width, height, pal).len() == buf.len(),
        forall|j: int|
            0 <= j < buf.len() ==> pal.contains(
                #[trigger] dithered(buf, width, height, pal)[j],
            ),
{
    lemma_dither_prefix_props(buf, width, height, pal, buf.len() as int);
}

/// A step at a pixel that already equals a palette entry changes nothing:
/// the pixel is its own nearest entry and the diffused error is zero.
proof fn lemma_dither_step_identity(
    buf: Seq<Color>,
    width: int,
    height: int,
    pal: Seq<Color>,
    i: int,
)
    requires
        width >= 1,
        height >= 1,
        buf.len() == width * height,
        pal.len() >= 1,
        0 <= i < buf.len(),
        pal.contains(buf[i]),
    ensures
        dither_step(buf, width, height, pal, i) == buf,
{
    lemma_neighbor_bounds(i, width, height);
    lemma_nearest_exact(buf[i], pal);
    let chosen = nearest_color(buf[i], pal);
    let e = sat_sub(buf[i], chosen);
    assert(e == (Color { r: 0u8, g: 0u8, b: 0u8 }));
    assert(scaled_error(e, 5) == (Color { r: 0u8, g: 0u8, b: 0u8 }));
    assert(scaled_error(e, 7) == (Color { r: 0u8, g: 0u8, b: 0u8 }));
    assert(scaled_error(e, 1) == (Color { r: 0u8, g: 0u8, b: 0u8 }));
    assert(scaled_error(e, 3) == (Color { r: 0u8, g: 0u8, b: 0u8 }));
    let b0 = buf.update(i, chosen);
    assert(b0 =~= buf);
    assert forall|c: Color| #[trigger] sat_add(c, Color { r: 0u8, g: 0u8, b: 0u8 }) == c by {
        assert(sat_add_channel(c.r, 0u8) == c.r);
        assert(sat_add_channel(c.g, 0u8) == c.g);
        assert(sat_add_channel(c.b, 0u8) == c.b);
    }
    if !at_bottom_row(i, width, height) {
        assert(add_error_at(buf, i + width, e, 5) =~= buf);
    }
    if !at_right_edge(i, width) {
        assert(add_error_at(buf, i + 1, e, 7) =~= buf);
    }
    if !at_right_edge(i, width) && !at_bottom_row(i, width, height) {
        assert(add_error_at(buf, i + width + 1, e, 1) =~= buf);
    }
    if !at_left_edge(i, width) && !at_bottom_row(i, width, height) {
        assert(add_error_at(buf, i + width - 1, e, 3) =~= buf);
    }
}

/// Dithering is idempotent on quantized images: a buffer whose every pixel
/// already equals some palette entry is reproduced unchanged, because every
/// quantization error is zero throughout the scan.
pub proof fn lemma_dither_idempotent(buf: Seq<Color>, width: int, height: int, pal: Seq<Color>)
    requires
        width >= 1,
        height >= 1,
        buf.len() == width * height,
        pal.len() >= 1,
        forall|j: int| 0 <= j < buf.len() ==> pal.contains(#[trigger] buf[j]),
    ensures
        dithered(buf, width, height, pal) == buf,
{
    lemma_dither_prefix_identity(buf, width, height, pal, buf.len() as int);
}

proof fn lemma_dither_prefix_identity(
    buf: Seq<Color>,
    width: int,
    height: int,
    pal: Seq<Color>,
    n: int,
)
    requires
        width >= 1,
        height >= 1,
        buf.len() == width * height,
        pal.len() >= 1,
        0 <= n <= buf.len(),
        forall|j: int| 0 <= j < buf.len() ==> pal.contains(#[trigger] buf[j]),
    ensures
        dither_prefix(buf, width, height, pal, n) == buf,
    decreases n,
{
    if n > 0 {
        lemma_dither_prefix_identity(buf, width, height, pal, n - 1);
        lemma_dither_step_identity(buf, width, height, pal, n - 1);
    }
}

/// Scale one error channel by the sixteenth weight `num`, rounding to the
/// nearest integer.
fn scale_channel(e: u8, num: u8) -> (out: u8)
    requires
        num <= 7,
    ensures
        out == scaled_error_channel(e, num as int),
{
    proof {
        assert(e * num <= 255 * 7) by (nonlinear_arith)
            requires
                e <= 255 && num <= 7,
        ;
    }
    let p: u16 = (e as u16) * (num as u16);
    let out16: u16 = (p + 8) / 16;
    assert(out16 <= 112);
    out16 as u8
}

impl Color {
    /// The quantization error scaled by the diffusion weight num/16.
    fn scaled(self, num: u8) -> (out: Color)
        requires
            num <= 7,
        ensures
            out == scaled_error(self, num as int),
    {
        Color {
            r: scale_channel(self.r, num),
            g: scale_channel(self.g, num),
            b: scale_channel(self.b, num),
        }
    }
}

/// Process the single pixel at index `i`: snap it to the nearest palette
/// entry and diffuse the quantization error to the forward neighbors that
/// exist.  Exposed so a caller can publish the buffer between steps as a
/// progressive preview; the whole scan is `dither_image`.
pub fn dither_step_at(
    buf: &mut Vec<Color>,
    width: usize,
    height: usize,
    pal: &Vec<Color>,
    i: usize,
)
    requires
        width >= 1,
        height >= 1,
        old(buf).len() == width * height,
        pal.len() >= 1,
        i < old(buf).len(),
    ensures
        final(buf)@ == dither_step(old(buf)@, width as int, height as int, pal@, i as int),
        final(buf).len() == old(buf).len(),
{
    proof {
        lemma_neighbor_bounds(i as int, width as int, height as int);
    }
    let at_left = i % width == 0;
    let at_right = (i + 1) % width == 0;
    let at_bottom = buf.len() - i <= width;
    let original = buf[i];
    let chosen = find_nearest_color(original, pal);
    let err = original.saturating_sub(chosen);
    buf[i] = chosen;
    if !at_bottom {
        let t = i + width;
        let v = buf[t];
        buf[t] = v.saturating_add(err.scaled(5));
    }
    if !at_right {
        let t = i + 1;
        let v = buf[t];
        buf[t] = v.saturating_add(err.scaled(7));
    }
    if !at_right && !at_bottom {
        let t = i + width + 1;
        let v = buf[t];
        buf[t] = v.saturating_add(err.scaled(1));
    }
    if !at_left && !at_bottom {
        let t = i + width - 1;
        let v = buf[t];
        buf[t] = v.saturating_add(err.scaled(3));
    }
}

/// Dither the whole buffer in place against the palette, in raster order.
/// The result has the same length, and every pixel of it is an exact member
/// of the palette.
pub fn dither_image(buf: &mut Vec<Color>, width: usize, height: usize, pal: &Vec<Color>)
    requires
        width >= 1,
        height >= 1,
        old(buf).len() == width * height,
        pal.len() >= 1,
    ensures
        final(buf)@ == dithered(old(buf)@, width as int, height as int, pal@),
        final(buf).len() == old(buf).len(),
        forall|j: int| 0 <= j < final(buf)@.len() ==> pal@.contains(#[trigger] final(buf)@[j]),
{
    let ghost orig = buf@;
    let n = buf.len();
    let mut i: usize = 0;
    while i < n
        invariant
            0 <= i <= n,
            n == width * height,
            width >= 1,
            height >= 1,
            pal@.len() >= 1,
            orig.len() == n,
            buf@.len() == n,
            buf@ == dither_prefix(orig, width as int, height as int, pal@, i as int),
        decreases n - i,
    {
        dither_step_at(buf, width, height, pal, i);
        proof {
            lemma_dither_prefix_props(orig, width as int, height as int, pal@, i as int + 1);
        }
        i = i + 1;
    }
    proof {
        lemma_dithered_props(orig, width as int, height as int, pal@);
    }
}

} // verus!
