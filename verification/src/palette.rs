//! Palette matching and palette-file parsing.
//!
//! A palette is a non-empty ordered sequence of colors.  `find_nearest_color`
//! scans it exhaustively and returns the entry at the smallest weighted
//! distance, the earliest index winning ties.  `parse_palette` reads the
//! plain-text palette format: one color per line, exactly six hex digits;
//! every other line is silently skipped, and a text that yields no color at
//! all falls back to a two-color default palette.

use vstd::prelude::*;

use crate::color::Color;
use crate::color::color_distance_sq;
use crate::color::distance_sq;
use crate::color::lemma_distance_zero_iff_eq;

verus! {

/// The index of the entry nearest to `c` among the first `n` palette
/// entries, the earliest index winning ties.
pub open spec fn nearest_index_prefix(c: Color, pal: Seq<Color>, n: int) -> int
    decreases n,
{
    if n <= 1 {
        0
    } else {
        let prev = nearest_index_prefix(c, pal, n - 1);
        if distance_sq(c, pal[n - 1]) < distance_sq(c, pal[prev]) {
            n - 1
        } else {
            prev
        }
    }
}

/// The index of the palette entry nearest to `c`.
pub open spec fn nearest_index(c: Color, pal: Seq<Color>) -> int {
    nearest_index_prefix(c, pal, pal.len() as int)
}

/// The palette entry nearest to `c`.
pub open spec fn nearest_color(c: Color, pal: Seq<Color>) -> Color {
    pal[nearest_index(c, pal)]
}

proof fn lemma_nearest_index_prefix_bounds(c: Color, pal: Seq<Color>, n: int)
    requires
        n >= 1,
    ensures
        0 <= nearest_index_prefix(c, pal, n) < n,
    decreases n,
{
    if n > 1 {
        lemma_nearest_index_prefix_bounds(c, pal, n - 1);
    }
}

proof fn lemma_nearest_index_prefix_min(c: Color, pal: Seq<Color>, n: int)
    requires
        n >= 1,
    ensures
        forall|j: int|
            0 <= j < n ==> distance_sq(c, pal[nearest_index_prefix(c, pal, n)]) <= distance_sq(
                c,
                #[trigger] pal[j],
            ),
    decreases n,
{
    if n > 1 {
        lemma_nearest_index_prefix_min(c, pal, n - 1);
    }
}

/// The nearest palette entry is a member of the palette.
pub proof fn lemma_nearest_in_palette(c: Color, pal: Seq<Color>)
    requires
        pal.len() >= 1,
    ensures
        pal.contains(nearest_color(c, pal)),
{
    lemma_nearest_index_prefix_bounds(c, pal, pal.len() as int);
    assert(pal[nearest_index(c, pal)] == nearest_color(c, pal));
}

/// A color that is itself in the palette is its own nearest entry.
pub proof fn lemma_nearest_exact(c: Color, pal: Seq<Color>)
    requires
        pal.contains(c),
    ensures
        nearest_color(c, pal) == c,
{
    let w = choose|w: int| 0 <= w < pal.len() && pal[w] == c;
    let ni = nearest_index(c, pal);
    lemma_nearest_index_prefix_bounds(c, pal, pal.len() as int);
    lemma_nearest_index_prefix_min(c, pal, pal.len() as int);
    lemma_distance_zero_iff_eq(c, pal[w]);
    lemma_distance_zero_iff_eq(c, pal[ni]);
}

/// Scan the entries for the index nearest to `c`; the earliest index at the
/// minimum distance wins, so the result is deterministic.
pub fn find_nearest_index(c: Color, pal: &Vec<Color>) -> (idx: usize)
    requires
        pal.len() >= 1,
    ensures
        idx as int == nearest_index(c, pal@),
        idx < pal.len(),
{
    let mut best: usize = 0;
    let mut best_d: u32 = color_distance_sq(c, pal[0]);
    let mut i: usize = 1;
    while i < pal.len()
        invariant
            1 <= i <= pal@.len(),
            best == nearest_index_prefix(c, pal@, i as int),
            0 <= best < i,
            best_d == distance_sq(c, pal@[best as int]),
        decreases pal@.len() - i,
    {
        let d = color_distance_sq(c, pal[i]);
        if d < best_d {
            best = i;
            best_d = d;
        }
        i = i + 1;
    }
    best
}

/// The palette entry nearest to `c`, by an exhaustive scan.
pub fn find_nearest_color(c: Color, pal: &Vec<Color>) -> (out: Color)
    requires
        pal.len() >= 1,
    ensures
        out == nearest_color(c, pal@),
{
    let idx = find_nearest_index(c, pal);
    pal[idx]
}

/// Whether a byte is an ASCII hexadecimal digit.
pub open spec fn is_hex_digit(ch: u8) -> bool {
    (48 <= ch <= 57) || (65 <= ch <= 70) || (97 <= ch <= 102)
}

/// The value of an ASCII hexadecimal digit.
pub open spec fn hex_value(ch: u8) -> u8 {
    if 48 <= ch <= 57 {
        (ch - 48) as u8
    } else if 65 <= ch <= 70 {
        (ch - 55) as u8
    } else {
        (ch - 87) as u8
    }
}

/// A line names a color exactly when it consists of six hex digits.
pub open spec fn line_is_color(line: Seq<u8>) -> bool {
    line.len() == 6 && (forall|i: int| 0 <= i < 6 ==> is_hex_digit(#[trigger] line[i]))
}

/// The byte named by two hex digits.
pub open spec fn byte_of_hex(hi: u8, lo: u8) -> u8 {
    (hex_value(hi) * 16 + hex_value(lo)) as u8
}

/// The color named by a line of six hex digits, two digits per channel.
pub open spec fn color_of_line(line: Seq<u8>) -> Color {
    Color {
        r: byte_of_hex(line[0], line[1]),
        g: byte_of_hex(line[2], line[3]),
        b: byte_of_hex(line[4], line[5]),
    }
}

/// A line with one trailing carriage return removed, as a newline split of
/// text with CRLF line endings produces.
pub open spec fn strip_cr(line: Seq<u8>) -> Seq<u8> {
    if line.len() > 0 && line[line.len() - 1] == 13 {
        line.drop_last()
    } else {
        line
    }
}

/// The colors named by the rest of the text, given the bytes `cur` of the
/// current line read so far.  Lines are closed by a newline byte or by the
/// end of the text; lines that do not consist of six hex digits contribute
/// nothing.
pub open spec fn colors_of_rest(text: Seq<u8>, cur: Seq<u8>) -> Seq<Color>
    decreases text.len(),
{
    if text.len() == 0 {
        if line_is_color(cur) {
            seq![color_of_line(cur)]
        } else {
            Seq::<Color>::empty()
        }
    } else if text[0] == 10 {
        let line = strip_cr(cur);
        let head = if line_is_color(line) {
            seq![color_of_line(line)]
        } else {
            Seq::<Color>::empty()
        };
        head + colors_of_rest(text.drop_first(), Seq::<u8>::empty())
    } else {
        colors_of_rest(text.drop_first(), cur.push(text[0]))
    }
}

/// The colors a palette text names, line by line.
pub open spec fn parsed_colors(text: Seq<u8>) -> Seq<Color> {
    colors_of_rest(text, Seq::<u8>::empty())
}

/// The near-black/white fallback used when a palette text names no color.
pub open spec fn default_palette() -> Seq<Color> {
    seq![Color { r: 3, g: 3, b: 3 }, Color { r: 255, g: 255, b: 255 }]
}

/// The palette a text yields: its parsed colors, or the default fallback
/// when the text names none.
pub open spec fn palette_of_text(text: Seq<u8>) -> Seq<Color> {
    if parsed_colors(text).len() == 0 {
        default_palette()
    } else {
        parsed_colors(text)
    }
}

/// The value of one hex digit byte.
fn hex_digit_value(ch: u8) -> (v: u8)
    requires
        is_hex_digit(ch),
    ensures
        v == hex_value(ch),
        v <= 15,
{
    if 48 <= ch && ch <= 57 {
        ch - 48
    } else if 65 <= ch && ch <= 70 {
        ch - 55
    } else {
        ch - 87
    }
}

/// Parse one line: the named color if the line is six hex digits, else none.
fn line_to_color(line: &Vec<u8>) -> (out: Option<Color>)
    ensures
        out.is_some() <==> line_is_color(line@),
        line_is_color(line@) ==> out == Some(color_of_line(line@)),
{
    if line.len() != 6 {
        return None;
    }
    let mut i: usize = 0;
    while i < 6
        invariant
            line@.len() == 6,
            0 <= i <= 6,
            forall|j: int| 0 <= j < i ==> is_hex_digit(#[trigger] line@[j]),
        decreases 6 - i,
    {
        let ch = line[i];
        let hex = (48 <= ch && ch <= 57) || (65 <= ch && ch <= 70) || (97 <= ch && ch <= 102);
        if !hex {
            return None;
        }
        i = i + 1;
    }
    let r = hex_digit_value(line[0]) * 16 + hex_digit_value(line[1]);
    let g = hex_digit_value(line[2]) * 16 + hex_digit_value(line[3]);
    let b = hex_digit_value(line[4]) * 16 + hex_digit_value(line[5]);
    Some(Color { r, g, b })
}

/// Parse the colors a palette text names: one color per line, six hex
/// digits each, with a trailing carriage return tolerated before a newline.
/// Lines of any other shape are skipped, so the result may be empty.
pub fn parse_colors(text: &Vec<u8>) -> (pal: Vec<Color>)
    ensures
        pal@ == parsed_colors(text@),
{
    let mut pal: Vec<Color> = Vec::new();
    let mut cur: Vec<u8> = Vec::new();
    let mut i: usize = 0;
    proof {
        assert(text@.skip(0) =~= text@);
        assert(Seq::<Color>::empty() + colors_of_rest(text@, Seq::<u8>::empty())
            =~= colors_of_rest(text@, Seq::<u8>::empty()));
    }
    while i < text.len()
        invariant
            0 <= i <= text@.len(),
            parsed_colors(text@) == pal@ + colors_of_rest(text@.skip(i as int), cur@),
        decreases text@.len() - i,
    {
        let ghost pre_text = text@.skip(i as int);
        let ghost pre_cur = cur@;
        let ch = text[i];
        proof {
            assert(pre_text[0] == text@[i as int]);
            assert(pre_text.drop_first() =~= text@.skip(i as int + 1));
        }
        if ch == 10 {
            if cur.len() > 0 && cur[cur.len() - 1] == 13 {
                cur.pop();
            }
            proof {
                assert(cur@ =~= strip_cr(pre_cur));
            }
            match line_to_color(&cur) {
                Some(c) => { pal.push(c); },
                None => {},
            }
            cur.clear();
            proof {
                assert(colors_of_rest(pre_text, pre_cur) == (if line_is_color(strip_cr(pre_cur)) {
                    seq![color_of_line(strip_cr(pre_cur))]
                } else {
                    Seq::<Color>::empty()
                }) + colors_of_rest(text@.skip(i as int + 1), Seq::<u8>::empty()));
                assert(pal@ + colors_of_rest(text@.skip(i as int + 1), cur@) =~= parsed_colors(
                    text@,
                ));
            }
        } else {
            cur.push(ch);
            proof {
                assert(colors_of_rest(pre_text, pre_cur) == colors_of_rest(
                    text@.skip(i as int + 1),
                    pre_cur.push(ch),
                ));
            }
        }
        i = i + 1;
    }
    proof {
        assert(text@.skip(i as int) =~= Seq::<u8>::empty());
    }
    match line_to_color(&cur) {
        Some(c) => { pal.push(c); },
        None => {},
    }
    proof {
        assert(pal@ =~= parsed_colors(text@));
    }
    pal
}

/// The palette a text yields: its parsed colors, or the default two-color
/// fallback when the text names no color, so the result is never empty.
pub fn parse_palette(text: &Vec<u8>) -> (pal: Vec<Color>)
    ensures
        pal@ == palette_of_text(text@),
        pal.len() >= 1,
{
    let mut pal = parse_colors(text);
    if pal.len() == 0 {
        pal.push(Color { r: 3, g: 3, b: 3 });
        pal.push(Color { r: 255, g: 255, b: 255 });
        proof {
            assert(pal@ =~= default_palette());
        }
    }
    pal
}

} // verus!
