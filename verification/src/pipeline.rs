//! The pipeline: pick the palette, dither the buffer, and the progress
//! interface a presentation layer polls.
//!
//! The palette comes from a palette text when one is supplied (with the
//! two-color fallback when it names no color), and from k-means clustering
//! of the image otherwise.  Raw byte conversions for image ingestion and
//! serialization live here as well, so callers can hand the pipeline a flat
//! RGB byte buffer and get one back.

use vstd::prelude::*;

use crate::cluster::derive_palette;
use crate::cluster::is_cluster_mean;
use crate::cluster::mean_color;
use crate::color::Color;
use crate::dither::dither_image;
use crate::dither::dithered;
use crate::palette::palette_of_text;
use crate::palette::parse_palette;

verus! {

/// Where the pipeline stands, for a presentation layer polling snapshots.
#[derive(Clone, Copy, PartialEq, Eq, Structural, Debug)]
pub enum Status {
    /// Processing has not produced a snapshot yet.
    Waiting,
    /// A snapshot of the partially dithered buffer is available.
    InProgress,
    /// The buffer will not change any more.
    Done,
}

/// One published snapshot of the pipeline's progress: a copy of the pixel
/// buffer, its dimensions, the status tag and the active palette.
pub struct Snapshot {
    pub pixels: Vec<Color>,
    pub width: usize,
    pub height: usize,
    pub status: Status,
    pub palette: Vec<Color>,
}

impl Snapshot {
    /// A snapshot published before processing starts.
    pub fn waiting() -> (out: Snapshot)
        ensures
            out.status == Status::Waiting,
            out.pixels@.len() == 1,
            out.width == 1,
            out.height == 1,
    {
        let mut pixels: Vec<Color> = Vec::new();
        pixels.push(Color { r: 3, g: 3, b: 3 });
        let mut palette: Vec<Color> = Vec::new();
        palette.push(Color { r: 3, g: 3, b: 3 });
        Snapshot { pixels, width: 1, height: 1, status: Status::Waiting, palette }
    }
}

/// Pick the palette for a run: the parsed palette text when one was
/// supplied, the k-means palette of the image otherwise.  Either way the
/// palette is non-empty.
pub fn select_palette(palette_text: Option<&Vec<u8>>, pixels: &Vec<Color>, k: u8) -> (pal: Vec<
    Color,
>)
    requires
        pixels.len() >= 1,
        k >= 1,
    ensures
        pal.len() >= 1,
        palette_text matches Some(text) ==> pal@ == palette_of_text(text@),
        palette_text is None ==> pal.len() == k as int,
        palette_text is None ==> forall|ci: int|
            0 <= ci < pal@.len() ==> is_cluster_mean(#[trigger] pal@[ci], pixels@),
        (palette_text is None && k == 1) ==> pal@ == seq![mean_color(pixels@)],
{
    match palette_text {
        Some(text) => parse_palette(text),
        None => derive_palette(pixels, k),
    }
}

/// Run the whole pipeline on a buffer in place: select the palette, then
/// dither the buffer against it in raster order.  Returns the palette that
/// was used; every output pixel is an exact member of it.
pub fn run_pipeline(
    buf: &mut Vec<Color>,
    width: usize,
    height: usize,
    palette_text: Option<&Vec<u8>>,
    k: u8,
) -> (pal: Vec<Color>)
    requires
        width >= 1,
        height >= 1,
        old(buf).len() == width * height,
        k >= 1,
    ensures
        pal.len() >= 1,
        palette_text matches Some(text) ==> pal@ == palette_of_text(text@),
        palette_text is None ==> pal.len() == k as int,
        final(buf)@ == dithered(old(buf)@, width as int, height as int, pal@),
        final(buf).len() == old(buf).len(),
        forall|j: int|
            0 <= j < final(buf)@.len() ==> pal@.contains(#[trigger] final(buf)@[j]),
{
    proof {
        assert(width * height >= 1) by (nonlinear_arith)
            requires
                width >= 1 && height >= 1,
        ;
    }
    let pal = select_palette(palette_text, buf, k);
    dither_image(buf, width, height, &pal);
    pal
}

/// Group a flat RGB byte buffer, three bytes per pixel, into colors.
pub fn colors_from_raw(raw: &Vec<u8>) -> (out: Vec<Color>)
    requires
        raw.len() % 3 == 0,
    ensures
        out@.len() * 3 == raw@.len(),
        forall|i: int|
            0 <= i < out@.len() ==> #[trigger] out@[i] == (Color {
                r: raw@[3 * i],
                g: raw@[3 * i + 1],
                b: raw@[3 * i + 2],
            }),
{
    let n = raw.len() / 3;
    proof {
        vstd::arithmetic::div_mod::lemma_fundamental_div_mod(raw@.len() as int, 3);
        assert(raw@.len() == 3 * (n as int));
    }
    let mut out: Vec<Color> = Vec::new();
    let mut i: usize = 0;
    while i < n
        invariant
            0 <= i <= n,
            raw@.len() == 3 * (n as int),
            raw@.len() <= usize::MAX,
            out@.len() == i as int,
            forall|j: int|
                0 <= j < out@.len() ==> #[trigger] out@[j] == (Color {
                    r: raw@[3 * j],
                    g: raw@[3 * j + 1],
                    b: raw@[3 * j + 2],
                }),
        decreases n - i,
    {
        let c = Color { r: raw[3 * i], g: raw[3 * i + 1], b: raw[3 * i + 2] };
        out.push(c);
        i = i + 1;
    }
    out
}

/// Flatten colors back into an RGB byte buffer, three bytes per pixel.
pub fn raw_from_colors(pixels: &Vec<Color>) -> (raw: Vec<u8>)
    ensures
        raw@.len() == 3 * pixels@.len(),
        forall|i: int|
            0 <= i < pixels@.len() ==> raw@[3 * i] == (#[trigger] pixels@[i]).r && raw@[3 * i
                + 1] == pixels@[i].g && raw@[3 * i + 2] == pixels@[i].b,
{
    let mut raw: Vec<u8> = Vec::new();
    let mut i: usize = 0;
    while i < pixels.len()
        invariant
            0 <= i <= pixels@.len(),
            raw@.len() == 3 * i as int,
            forall|j: int|
                0 <= j < i ==> raw@[3 * j] == (#[trigger] pixels@[j]).r && raw@[3 * j + 1]
                    == pixels@[j].g && raw@[3 * j + 2] == pixels@[j].b,
        decreases pixels@.len() - i,
    {
        let c = pixels[i];
        raw.push(c.r);
        raw.push(c.g);
        raw.push(c.b);
        i = i + 1;
    }
    raw
}

/// Flatten colors into an RGBA byte buffer, four bytes per pixel, with the
/// alpha channel fixed fully opaque, as a texture upload wants it.
pub fn raw_rgba_from_colors(pixels: &Vec<Color>) -> (raw: Vec<u8>)
    ensures
        raw@.len() == 4 * pixels@.len(),
        forall|i: int|
            0 <= i < pixels@.len() ==> raw@[4 * i] == (#[trigger] pixels@[i]).r && raw@[4 * i
                + 1] == pixels@[i].g && raw@[4 * i + 2] == pixels@[i].b && raw@[4 * i + 3]
                == 255,
{
    let mut raw: Vec<u8> = Vec::new();
    let mut i: usize = 0;
    while i < pixels.len()
        invariant
            0 <= i <= pixels@.len(),
            raw@.len() == 4 * i as int,
            forall|j: int|
                0 <= j < i ==> raw@[4 * j] == (#[trigger] pixels@[j]).r && raw@[4 * j + 1]
                    == pixels@[j].g && raw@[4 * j + 2] == pixels@[j].b && raw@[4 * j + 3]
                    == 255,
        decreases pixels@.len() - i,
    {
        let c = pixels[i];
        raw.push(c.r);
        raw.push(c.g);
        raw.push(c.b);
        raw.push(255u8);
        i = i + 1;
    }
    raw
}

} // verus!
