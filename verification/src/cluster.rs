//! k-means color clustering: derive a palette from the image itself.
//!
//! Each cluster starts from a pixel sampled uniformly at random.  Every
//! round assigns each pixel to its nearest centroid (earliest index winning
//! ties, as in palette matching) and then moves each centroid to the
//! channel-wise ceiling mean of its assigned pixels; a cluster that received
//! no pixel is seeded with one white pixel instead.  Rounds repeat until
//! every centroid moves less than a fixed threshold, or until a fixed round
//! cap, which bounds the scan when the centroids oscillate.

use vstd::prelude::*;

use rand::RngExt;

use crate::color::Color;
use crate::color::distance_sq;
use crate::color::color_distance_sq;
use crate::palette::nearest_index;
use crate::palette::find_nearest_index;

verus! {

/// The centroid movement, in scaled squared distance, under which a round
/// counts as converged: a distance of 4.0, squared and scaled by 10_000.
pub const CONVERGENCE_LIMIT_SQ: u32 = 160000;

/// The cap on clustering rounds, so the scan ends even if the centroids
/// keep oscillating above the convergence limit.
pub const MAX_CLUSTER_ROUNDS: usize = 64;

/// The neutral color that seeds a cluster left empty by an assignment pass.
pub open spec fn white() -> Color {
    Color { r: 255, g: 255, b: 255 }
}

/// The sum of the red channels of a sequence of colors.
pub open spec fn sum_red(s: Seq<Color>) -> int
    decreases s.len(),
{
    if s.len() == 0 {
        0
    } else {
        sum_red(s.drop_last()) + s.last().r
    }
}

/// The sum of the green channels of a sequence of colors.
pub open spec fn sum_green(s: Seq<Color>) -> int
    decreases s.len(),
{
    if s.len() == 0 {
        0
    } else {
        sum_green(s.drop_last()) + s.last().g
    }
}

/// The sum of the blue channels of a sequence of colors.
pub open spec fn sum_blue(s: Seq<Color>) -> int
    decreases s.len(),
{
    if s.len() == 0 {
        0
    } else {
        sum_blue(s.drop_last()) + s.last().b
    }
}

/// Ceiling division for non-negative dividends and positive divisors.
pub open spec fn div_up(a: int, b: int) -> int {
    (a + b - 1) / b
}

/// The channel-wise ceiling mean of a non-empty sequence of colors.
pub open spec fn mean_color(s: Seq<Color>) -> Color {
    Color {
        r: div_up(sum_red(s), s.len() as int) as u8,
        g: div_up(sum_green(s), s.len() as int) as u8,
        b: div_up(sum_blue(s), s.len() as int) as u8,
    }
}

/// The pixels, in buffer order, whose nearest centroid is the one at `ci`.
pub open spec fn assigned_to(pixels: Seq<Color>, cents: Seq<Color>, ci: int) -> Seq<Color>
    decreases pixels.len(),
{
    if pixels.len() == 0 {
        Seq::<Color>::empty()
    } else {
        let rest = assigned_to(pixels.drop_last(), cents, ci);
        if nearest_index(pixels.last(), cents) == ci {
            rest.push(pixels.last())
        } else {
            rest
        }
    }
}

/// Where one round moves the centroid at `ci`: the ceiling mean of its
/// assigned pixels, or white when no pixel was assigned to it.
pub open spec fn round_centroid(pixels: Seq<Color>, cents: Seq<Color>, ci: int) -> Color {
    let s = assigned_to(pixels, cents, ci);
    if s.len() == 0 {
        white()
    } else {
        mean_color(s)
    }
}

/// The color is the ceiling mean of a non-empty selection of image pixels,
/// each either a pixel of the image or the white seed of an empty cluster.
pub open spec fn is_cluster_mean(c: Color, pixels: Seq<Color>) -> bool {
    exists|s: Seq<Color>|
        s.len() >= 1 && (forall|j: int|
            0 <= j < s.len() ==> pixels.contains(#[trigger] s[j]) || s[j] == white()) && c
            == mean_color(s)
}

/// Appending one color adds its channels to the sums.
proof fn lemma_sum_push(s: Seq<Color>, c: Color)
    ensures
        sum_red(s.push(c)) == sum_red(s) + c.r,
        sum_green(s.push(c)) == sum_green(s) + c.g,
        sum_blue(s.push(c)) == sum_blue(s) + c.b,
{
    assert(s.push(c).drop_last() =~= s);
    assert(s.push(c).last() == c);
}

/// Channel sums lie between 0 and 255 times the pixel count.
proof fn lemma_sum_bounds(s: Seq<Color>)
    ensures
        0 <= sum_red(s) <= 255 * s.len(),
        0 <= sum_green(s) <= 255 * s.len(),
        0 <= sum_blue(s) <= 255 * s.len(),
    decreases s.len(),
{
    if s.len() > 0 {
        lemma_sum_bounds(s.drop_last());
    }
}

/// Every assigned pixel is a pixel of the image.
proof fn lemma_assigned_members(pixels: Seq<Color>, cents: Seq<Color>, ci: int)
    ensures
        forall|j: int|
            0 <= j < assigned_to(pixels, cents, ci).len() ==> pixels.contains(
                #[trigger] assigned_to(pixels, cents, ci)[j],
            ),
    decreases pixels.len(),
{
    if pixels.len() > 0 {
        let rest = pixels.drop_last();
        lemma_assigned_members(rest, cents, ci);
        assert forall|j: int|
            0 <= j < assigned_to(pixels, cents, ci).len() implies pixels.contains(
            #[trigger] assigned_to(pixels, cents, ci)[j],
        ) by {
            let a = assigned_to(pixels, cents, ci);
            if j < assigned_to(rest, cents, ci).len() {
                assert(a[j] == assigned_to(rest, cents, ci)[j]);
                let w = choose|w: int| 0 <= w < rest.len() && rest[w] == a[j];
                assert(pixels[w] == a[j]);
            } else {
                assert(a[j] == pixels.last());
                assert(pixels[pixels.len() - 1] == a[j]);
            }
        }
    }
}

/// With a single centroid, every pixel is assigned to it.
proof fn lemma_assigned_single(pixels: Seq<Color>, cents: Seq<Color>)
    requires
        cents.len() == 1,
    ensures
        assigned_to(pixels, cents, 0) == pixels,
    decreases pixels.len(),
{
    if pixels.len() > 0 {
        lemma_assigned_single(pixels.drop_last(), cents);
        assert(assigned_to(pixels, cents, 0) =~= pixels);
    }
}

/// Where a round puts a centroid is always a cluster mean over the image.
proof fn lemma_round_centroid_is_cluster_mean(pixels: Seq<Color>, cents: Seq<Color>, ci: int)
    ensures
        is_cluster_mean(round_centroid(pixels, cents, ci), pixels),
{
    let s = assigned_to(pixels, cents, ci);
    if s.len() == 0 {
        let w = seq![white()];
        assert(w =~= Seq::<Color>::empty().push(white()));
        lemma_sum_push(Seq::<Color>::empty(), white());
        assert(sum_red(w) == 255 && sum_green(w) == 255 && sum_blue(w) == 255);
        assert(div_up(255, 1) == 255);
        assert(mean_color(w) == white());
        assert(w.len() >= 1 && (forall|j: int|
            0 <= j < w.len() ==> pixels.contains(#[trigger] w[j]) || w[j] == white())
            && round_centroid(pixels, cents, ci) == mean_color(w));
    } else {
        lemma_assigned_members(pixels, cents, ci);
        assert(s.len() >= 1 && (forall|j: int|
            0 <= j < s.len() ==> pixels.contains(#[trigger] s[j]) || s[j] == white())
            && round_centroid(pixels, cents, ci) == mean_color(s));
    }
}

/// Relies on rand's `RngExt::random_range` over the half-open range `0..n`:
/// the sample is drawn uniformly from the range, hence strictly below `n`;
/// with `n >= 1` the range is non-empty, so the call does not panic.
#[verifier::external_body]
fn random_index(n: usize) -> (idx: usize)
    requires
        n >= 1,
    ensures
        idx < n,
{
    rand::rng().random_range(0..n)
}

/// Compute where this round moves the centroid at `ci`: sum the channels of
/// the pixels assigned to it and take the ceiling mean, or fall back to
/// white when the cluster received no pixel.
fn cluster_centroid(pixels: &Vec<Color>, cents: &Vec<Color>, ci: usize) -> (out: Color)
    requires
        pixels.len() >= 1,
        cents.len() >= 1,
    ensures
        out == round_centroid(pixels@, cents@, ci as int),
{
    let mut sr: u128 = 0;
    let mut sg: u128 = 0;
    let mut sb: u128 = 0;
    let mut cnt: usize = 0;
    let mut p: usize = 0;
    proof {
        assert(pixels@.take(0) =~= Seq::<Color>::empty());
    }
    while p < pixels.len()
        invariant
            0 <= p <= pixels@.len(),
            cents@.len() >= 1,
            cnt as int == assigned_to(pixels@.take(p as int), cents@, ci as int).len(),
            cnt <= p,
            sr as int == sum_red(assigned_to(pixels@.take(p as int), cents@, ci as int)),
            sg as int == sum_green(assigned_to(pixels@.take(p as int), cents@, ci as int)),
            sb as int == sum_blue(assigned_to(pixels@.take(p as int), cents@, ci as int)),
            sr <= 255 * cnt,
            sg <= 255 * cnt,
            sb <= 255 * cnt,
        decreases pixels@.len() - p,
    {
        let ghost pre = pixels@.take(p as int);
        let px = pixels[p];
        let bi = find_nearest_index(px, cents);
        proof {
            assert(pixels@.take(p as int + 1).drop_last() =~= pre);
            assert(pixels@.take(p as int + 1).last() == px);
        }
        if bi == ci {
            proof {
                lemma_sum_push(assigned_to(pre, cents@, ci as int), px);
            }
            sr = sr + px.r as u128;
            sg = sg + px.g as u128;
            sb = sb + px.b as u128;
            cnt = cnt + 1;
        }
        p = p + 1;
    }
    proof {
        assert(pixels@.take(pixels@.len() as int) =~= pixels@);
    }
    if cnt == 0 {
        Color { r: 255, g: 255, b: 255 }
    } else {
        let cu: u128 = cnt as u128;
        proof {
            let s = sr as int;
            let g = sg as int;
            let b = sb as int;
            let c = cnt as int;
            assert(0 <= (s + c - 1) / c <= 255 && 0 <= (g + c - 1) / c <= 255 && 0 <= (b + c - 1)
                / c <= 255) by (nonlinear_arith)
                requires
                    c >= 1 && 0 <= s <= 255 * c && 0 <= g <= 255 * c && 0 <= b <= 255 * c,
            ;
        }
        let r8 = ((sr + cu - 1) / cu) as u8;
        let g8 = ((sg + cu - 1) / cu) as u8;
        let b8 = ((sb + cu - 1) / cu) as u8;
        Color { r: r8, g: g8, b: b8 }
    }
}

/// One full round: every centroid moved to its new cluster mean.
fn update_round(pixels: &Vec<Color>, cents: &Vec<Color>) -> (out: Vec<Color>)
    requires
        pixels.len() >= 1,
        cents.len() >= 1,
    ensures
        out.len() == cents.len(),
        forall|ci: int|
            0 <= ci < out@.len() ==> #[trigger] out@[ci] == round_centroid(
                pixels@,
                cents@,
                ci,
            ),
{
    let mut out: Vec<Color> = Vec::new();
    let mut ci: usize = 0;
    while ci < cents.len()
        invariant
            0 <= ci <= cents@.len(),
            cents@.len() >= 1,
            pixels@.len() >= 1,
            out@.len() == ci as int,
            forall|j: int|
                0 <= j < ci ==> #[trigger] out@[j] == round_centroid(pixels@, cents@, j),
        decreases cents@.len() - ci,
    {
        let c = cluster_centroid(pixels, cents, ci);
        out.push(c);
        ci = ci + 1;
    }
    out
}

/// Whether every centroid moved less than the convergence limit.
fn all_converged(new_cents: &Vec<Color>, prev: &Vec<Color>) -> (res: bool)
    requires
        new_cents.len() == prev.len(),
    ensures
        res <==> forall|i: int|
            0 <= i < new_cents@.len() ==> distance_sq(#[trigger] new_cents@[i], prev@[i])
                < CONVERGENCE_LIMIT_SQ,
{
    let mut i: usize = 0;
    let mut res = true;
    while i < new_cents.len()
        invariant
            0 <= i <= new_cents@.len(),
            new_cents@.len() == prev@.len(),
            res <==> forall|j: int|
                0 <= j < i ==> distance_sq(#[trigger] new_cents@[j], prev@[j])
                    < CONVERGENCE_LIMIT_SQ,
        decreases new_cents@.len() - i,
    {
        let d = color_distance_sq(new_cents[i], prev[i]);
        if d >= CONVERGENCE_LIMIT_SQ {
            res = false;
        }
        i = i + 1;
    }
    res
}

/// Derive a `k`-color palette from the image by k-means clustering.  The
/// result is a full update round over some configuration of `k` centroids,
/// so every returned color is a cluster mean over the image; with `k == 1`
/// it is exactly the channel-wise ceiling mean of all pixels, reached on
/// the first round.
pub fn derive_palette(pixels: &Vec<Color>, k: u8) -> (pal: Vec<Color>)
    requires
        pixels.len() >= 1,
        k >= 1,
    ensures
        pal.len() == k as int,
        exists|prev: Seq<Color>|
            prev.len() == k as int && (forall|ci: int|
                0 <= ci < pal@.len() ==> #[trigger] pal@[ci] == round_centroid(
                    pixels@,
                    prev,
                    ci,
                )),
        forall|ci: int| 0 <= ci < pal@.len() ==> is_cluster_mean(#[trigger] pal@[ci], pixels@),
        k == 1 ==> pal@ == seq![mean_color(pixels@)],
{
    let kk: usize = k as usize;
    let mut cents: Vec<Color> = Vec::new();
    while cents.len() < kk
        invariant
            cents@.len() <= kk as int,
            pixels@.len() >= 1,
        decreases kk - cents.len(),
    {
        let idx = random_index(pixels.len());
        let c = pixels[idx];
        cents.push(c);
    }
    let mut round: usize = 0;
    let mut converged = false;
    while round < MAX_CLUSTER_ROUNDS && !converged
        invariant
            cents@.len() == kk as int,
            kk == k as usize,
            kk >= 1,
            pixels@.len() >= 1,
            round == 0 ==> !converged,
            round >= 1 ==> exists|prev: Seq<Color>|
                prev.len() == kk as int && (forall|ci: int|
                    0 <= ci < cents@.len() ==> #[trigger] cents@[ci] == round_centroid(
                        pixels@,
                        prev,
                        ci,
                    )),
            round >= 1 ==> forall|ci: int|
                0 <= ci < cents@.len() ==> is_cluster_mean(#[trigger] cents@[ci], pixels@),
            round >= 1 && kk == 1 ==> cents@ == seq![mean_color(pixels@)],
        decreases MAX_CLUSTER_ROUNDS - round,
    {
        let ghost prev_cents = cents@;
        let new_cents = update_round(pixels, &cents);
        converged = all_converged(&new_cents, &cents);
        cents = new_cents;
        proof {
            assert(prev_cents.len() == kk as int && (forall|ci: int|
                0 <= ci < cents@.len() ==> #[trigger] cents@[ci] == round_centroid(
                    pixels@,
                    prev_cents,
                    ci,
                )));
            assert forall|ci: int| 0 <= ci < cents@.len() implies is_cluster_mean(
                #[trigger] cents@[ci],
                pixels@,
            ) by {
                lemma_round_centroid_is_cluster_mean(pixels@, prev_cents, ci);
            }
            if kk == 1 {
                lemma_assigned_single(pixels@, prev_cents);
                assert(cents@[0] == mean_color(pixels@));
                assert(cents@ =~= seq![mean_color(pixels@)]);
            }
        }
        round = round + 1;
    }
    cents
}

} // verus!
