//! Guarded luminance LUT recolor pass.
//!
//! Maps a page bitmap's neutral tones onto a theme's `page_fg`/`page_bg`
//! (dark text → fg, paper → bg) while leaving saturated pixels — figures,
//! images — untouched. Pure integer math in one pass over the pixels.

use vstd::prelude::*;

use crate::color::Color;

verus! {

/// Full-range integer Rec.601 luma: the coefficients sum to 256, so white
/// maps to exactly 255.
pub open spec fn luma_spec(r: u8, g: u8, b: u8) -> int {
    (77 * r + 151 * g + 28 * b) / 256
}

/// Number of whole RGBA pixels in a buffer.
pub open spec fn pixel_count(s: Seq<u8>) -> int {
    s.len() as int / 4
}

/// Number of histogram samples: every 4th pixel, starting with the first.
pub open spec fn sample_count(s: Seq<u8>) -> int {
    (pixel_count(s) + 3) / 4
}

/// Luma of sample `j`, which is pixel `4 * j`.
pub open spec fn sample_luma(s: Seq<u8>, j: int) -> int {
    luma_spec(s[16 * j], s[16 * j + 1], s[16 * j + 2])
}

/// How many of the first `j` samples have luma `v`.
pub open spec fn luma_tally(s: Seq<u8>, j: int, v: int) -> int
    decreases j,
{
    if j <= 0 {
        0
    } else {
        luma_tally(s, j - 1, v) + if sample_luma(s, j - 1) == v {
            1int
        } else {
            0int
        }
    }
}

/// Luma histogram of the sampled pixels.
pub open spec fn luma_histogram(s: Seq<u8>) -> Seq<int> {
    Seq::new(256, |v: int| luma_tally(s, sample_count(s), v))
}

/// Sum of `h[0..=v]`.
pub open spec fn running_total(h: Seq<int>, v: int) -> int
    decreases v + 1,
{
    if v < 0 {
        0
    } else {
        running_total(h, v - 1) + h[v]
    }
}

/// First luma at or after `v` whose running total reaches `pct` percent of
/// `total` samples (255 when none before it does).
pub open spec fn first_reaching(h: Seq<int>, total: int, pct: int, v: int) -> int
    decreases 255 - v,
{
    if v >= 255 {
        255
    } else if running_total(h, v) * 100 >= total * pct {
        v
    } else {
        first_reaching(h, total, pct, v + 1)
    }
}

/// The luma range `(lo, hi)` stretched onto fg..bg: roughly the 2nd and 95th
/// percentiles of the sampled lumas, widened to the full range for pages
/// that are already dark-on-light and for degenerate (empty) ranges.
pub open spec fn stretch_bounds(s: Seq<u8>) -> (int, int) {
    let h = luma_histogram(s);
    let total = sample_count(s);
    let f2 = first_reaching(h, total, 2, 0);
    let hi = first_reaching(h, total, 95, 0);
    let lo = if f2 == 0 {
        if hi >= 1 {
            1int
        } else {
            0int
        }
    } else {
        f2
    };
    if hi >= 235 && lo <= 20 {
        (0, 255)
    } else if hi <= lo {
        (0, 255)
    } else {
        (lo, hi)
    }
}

/// `v` clamped into `[lo, hi]`.
pub open spec fn clamp_int(v: int, lo: int, hi: int) -> int {
    if v < lo {
        lo
    } else if v > hi {
        hi
    } else {
        v
    }
}

/// Position of luma `v` on the 0..=255 scale after stretching `[lo, hi]`.
pub open spec fn stretch(lo: int, hi: int, v: int) -> int {
    if hi > lo {
        clamp_int(((v - lo) * 255) / (hi - lo), 0, 255)
    } else {
        255
    }
}

/// One LUT entry: stretched luma 0 → `f`, 255 → `b`, rounded half up.
pub open spec fn lut_value(lo: int, hi: int, f: u8, b: u8, v: int) -> int {
    f + (stretch(lo, hi, v) * (b - f) + 127) / 255
}

/// Spread between the largest and smallest color channel.
pub open spec fn spread(r: u8, g: u8, b: u8) -> int {
    let mx = if r >= g && r >= b {
        r
    } else if g >= b {
        g
    } else {
        b
    };
    let mn = if r <= g && r <= b {
        r
    } else if g <= b {
        g
    } else {
        b
    };
    mx - mn
}

/// A channel after the pass: neutral pixels (spread ≤ 48) take the mapped
/// value, saturated ones (spread ≥ 96) keep the original, and the band in
/// between blends linearly from mapped to original.
pub open spec fn blended(orig: u8, mapped: int, sp: int) -> int {
    if sp <= 48 {
        mapped
    } else if sp >= 96 {
        orig as int
    } else {
        (mapped * (96 - sp) + orig * (sp - 48) + 24) / 48
    }
}

/// The byte at index `i` after recoloring `s` onto `bg`/`fg`.
pub open spec fn recolored_byte(s: Seq<u8>, bg: Color, fg: Color, i: int) -> int {
    if i >= 4 * pixel_count(s) || i % 4 == 3 {
        s[i] as int
    } else {
        let p = i / 4;
        let r = s[4 * p];
        let g = s[4 * p + 1];
        let b = s[4 * p + 2];
        let (lo, hi) = stretch_bounds(s);
        let l = luma_spec(r, g, b);
        let c = i % 4;
        let f = if c == 0 {
            fg.red
        } else if c == 1 {
            fg.green
        } else {
            fg.blue
        };
        let k = if c == 0 {
            bg.red
        } else if c == 1 {
            bg.green
        } else {
            bg.blue
        };
        blended(s[i], lut_value(lo, hi, f, k, l), spread(r, g, b))
    }
}

/// Integer Rec.601 luma of one pixel.
pub fn luma(r: u8, g: u8, b: u8) -> (l: u8)
    ensures
        l == luma_spec(r, g, b),
{
    ((77 * r as u32 + 151 * g as u32 + 28 * b as u32) / 256) as u8
}

proof fn lemma_tally_step(s: Seq<u8>, j: int, v: int)
    requires
        j >= 0,
    ensures
        luma_tally(s, j + 1, v) == luma_tally(s, j, v) + if sample_luma(s, j) == v {
            1int
        } else {
            0int
        },
{
}

proof fn lemma_tally_bounds(s: Seq<u8>, j: int, v: int)
    requires
        j >= 0,
    ensures
        0 <= luma_tally(s, j, v) <= j,
    decreases j,
{
    if j > 0 {
        lemma_tally_bounds(s, j - 1, v);
    }
}

/// The tallies of the first `j` samples over lumas `0..=v` add up to the
/// samples whose luma is at most `v`; over all 256 lumas, to `j`.
proof fn lemma_tally_total(s: Seq<u8>, j: int)
    requires
        j >= 0,
        forall|k: int| 0 <= k < j ==> 0 <= #[trigger] sample_luma(s, k) < 256,
    ensures
        running_total(Seq::new(256, |v: int| luma_tally(s, j, v)), 255) == j,
    decreases j,
{
    let h = Seq::new(256, |v: int| luma_tally(s, j, v));
    if j == 0 {
        lemma_total_zero(h, 255);
    } else {
        lemma_tally_total(s, j - 1);
        let h0 = Seq::new(256, |v: int| luma_tally(s, j - 1, v));
        let l = sample_luma(s, j - 1);
        assert(h =~= h0.update(l, h0[l] + 1));
        lemma_total_bump(h0, l, 255);
    }
}

proof fn lemma_total_zero(h: Seq<int>, v: int)
    requires
        v < h.len(),
        forall|u: int| 0 <= u < h.len() ==> h[u] == 0,
    ensures
        running_total(h, v) == 0,
    decreases v + 1,
{
    if v >= 0 {
        lemma_total_zero(h, v - 1);
    }
}

proof fn lemma_total_bump(h: Seq<int>, l: int, v: int)
    requires
        0 <= l < h.len(),
        v < h.len(),
    ensures
        running_total(h.update(l, h[l] + 1), v) == running_total(h, v) + if l <= v {
            1int
        } else {
            0int
        },
    decreases v + 1,
{
    if v >= 0 {
        lemma_total_bump(h, l, v - 1);
    }
}

proof fn lemma_total_monotone(h: Seq<int>, u: int, v: int)
    requires
        u <= v < h.len(),
        forall|k: int| 0 <= k < h.len() ==> h[k] >= 0,
    ensures
        running_total(h, u) <= running_total(h, v),
    decreases v - u,
{
    if u < v {
        lemma_total_monotone(h, u, v - 1);
    }
}

/// `n / 255` rounded toward negative infinity.
fn floor_div_255(n: i64) -> (q: i64)
    requires
        -1_000_000 <= n <= 1_000_000,
    ensures
        q == n / 255,
{
    if n >= 0 {
        n / 255
    } else {
        let m = (-n) as u64;
        let t = ((m + 254) / 255) as i64;
        proof {
            let qq = n / 255;
            assert(qq * 255 <= n < qq * 255 + 255);
            assert(t == (m + 254) / 255);
            assert(t * 255 <= m + 254 < t * 255 + 255);
            assert(-t == qq) by (nonlinear_arith)
                requires
                    qq * 255 <= n < qq * 255 + 255,
                    t * 255 <= -n + 254 < t * 255 + 255,
            ;
        }
        -t
    }
}

fn stretch_of(lo: i64, hi: i64, v: i64) -> (s: i64)
    requires
        0 <= lo <= 255,
        0 <= hi <= 255,
        0 <= v <= 255,
    ensures
        s == stretch(lo as int, hi as int, v as int),
        0 <= s <= 255,
{
    if hi > lo {
        let n = (v - lo) * 255;
        let q = if n >= 0 {
            n / (hi - lo)
        } else {
            -1
        };
        proof {
            if n < 0 {
                let d = (hi - lo) as int;
                let nn = n as int;
                assert(nn / d < 0) by (nonlinear_arith)
                    requires
                        nn < 0,
                        d > 0,
                ;
            }
        }
        if q < 0 {
            0
        } else if q > 255 {
            255
        } else {
            q
        }
    } else {
        255
    }
}

fn lut_channel(lo: usize, hi: usize, f: u8, b: u8) -> (lut: Vec<u8>)
    requires
        lo <= 255,
        hi <= 255,
    ensures
        lut@.len() == 256,
        forall|v: int| 0 <= v < 256 ==> lut@[v] == lut_value(lo as int, hi as int, f, b, v),
{
    let mut lut: Vec<u8> = Vec::new();
    let mut v: usize = 0;
    while v < 256
        invariant
            v <= 256,
            lo <= 255,
            hi <= 255,
            lut@.len() == v,
            forall|u: int| 0 <= u < v ==> lut@[u] == lut_value(lo as int, hi as int, f, b, u),
        decreases 256 - v,
    {
        let st = stretch_of(lo as i64, hi as i64, v as i64);
        let delta = b as i64 - f as i64;
        proof {
            assert(-255 * 255 <= st * delta <= 255 * 255) by (nonlinear_arith)
                requires
                    0 <= st <= 255,
                    -255 <= delta <= 255,
            ;
        }
        let n = st * delta + 127;
        let q = floor_div_255(n);
        proof {
            // The entry stays between the two endpoint colors.
            assert(q * 255 <= n < q * 255 + 255);
            if delta >= 0 {
                assert(0 <= st * delta <= 255 * delta) by (nonlinear_arith)
                    requires
                        0 <= st <= 255,
                        delta >= 0,
                ;
            } else {
                assert(255 * delta <= st * delta <= 0) by (nonlinear_arith)
                    requires
                        0 <= st <= 255,
                        delta < 0,
                ;
            }
        }
        let out = f as i64 + q;
        lut.push(out as u8);
        v = v + 1;
    }
    lut
}

/// Recolor an RGBA8 buffer in place.
///
/// `rgba` is packed `[r, g, b, a]` quadruples; alpha bytes are never touched.
/// A trailing partial pixel (fewer than 4 bytes) is ignored.
pub fn recolor(rgba: &mut [u8], page_bg: Color, page_fg: Color)
    ensures
        final(rgba)@.len() == old(rgba)@.len(),
        forall|i: int|
            0 <= i < old(rgba)@.len() ==> final(rgba)@[i] == recolored_byte(
                old(rgba)@,
                page_bg,
                page_fg,
                i,
            ),
{
    let ghost s = rgba@;
    let pixels = rgba.len() / 4;

    // Luma histogram over every 4th pixel.
    let mut hist: Vec<u64> = vec![0u64; 256];
    let mut j: usize = 0;
    let mut samples: u64 = 0;
    while 4 * j < pixels
        invariant
            s == rgba@,
            pixels == pixel_count(s),
            s.len() <= usize::MAX,
            hist@.len() == 256,
            j <= sample_count(s),
            4 * j <= pixels + 3,
            samples == j,
            forall|v: int| 0 <= v < 256 ==> hist@[v] == luma_tally(s, j as int, v),
        decreases sample_count(s) - j,
    {
        let o = 16 * j;
        let l = luma(rgba[o], rgba[o + 1], rgba[o + 2]) as usize;
        proof {
            assert(l == sample_luma(s, j as int));
            lemma_tally_bounds(s, j as int, l as int);
        }
        hist.set(l, hist[l] + 1);
        proof {
            assert forall|v: int| 0 <= v < 256 implies hist@[v] == luma_tally(
                s,
                j + 1,
                v,
            ) by {
                lemma_tally_step(s, j as int, v);
            }
        }
        j = j + 1;
        samples = samples + 1;
    }
    let ghost h = luma_histogram(s);
    proof {
        assert(j == sample_count(s));
        assert forall|k: int| 0 <= k < j implies 0 <= #[trigger] sample_luma(s, k) < 256 by {
        }
        lemma_tally_total(s, j as int);
        assert(h =~= Seq::new(256, |v: int| luma_tally(s, j as int, v)));
        assert forall|v: int| 0 <= v < 256 implies h[v] >= 0 by {
            lemma_tally_bounds(s, j as int, v);
        }
    }

    // Percentiles of the sampled population: p2 ≈ paper floor, p95 ≈ ink
    // ceiling. A bin of 0 is never mistaken for a found percentile because
    // the thresholds require actual cumulative mass.
    let ghost t = samples as int;
    let ghost f2 = first_reaching(h, t, 2, 0);
    let ghost f95 = first_reaching(h, t, 95, 0);
    proof {
        lemma_first_reaching(h, t, 2, 0);
        lemma_first_reaching(h, t, 95, 0);
        // The full population reaches every threshold at luma 255.
        assert(running_total(h, 255) * 100 >= t * 95);
        if f95 < f2 {
            lemma_total_monotone(h, f95, f2);
        }
        assert(f2 <= f95);
    }
    let mut lo: usize = 0;
    let mut hi: usize = 255;
    let mut cum: u64 = 0;
    let mut v: usize = 0;
    loop
        invariant_except_break
            v <= 255,
            hist@.len() == 256,
            h.len() == 256,
            forall|u: int| 0 <= u < 256 ==> hist@[u] == h[u],
            forall|u: int| 0 <= u < 256 ==> h[u] >= 0,
            samples == t,
            t <= usize::MAX,
            running_total(h, 255) == t,
            f2 == first_reaching(h, t, 2, 0),
            f95 == first_reaching(h, t, 95, 0),
            f2 <= f95 <= 255,
            forall|u: int| 0 <= u < f2 ==> !(running_total(h, u) * 100 >= t * 2),
            forall|u: int| 0 <= u < f95 ==> !(running_total(h, u) * 100 >= t * 95),
            f2 < 255 ==> running_total(h, f2) * 100 >= t * 2,
            f95 < 255 ==> running_total(h, f95) * 100 >= t * 95,
            v <= f95,
            cum == running_total(h, v - 1),
            lo == lo_upto(f2, v as int),
        ensures
            hi == f95,
            lo == lo_upto(f2, f95 + 1),
        decreases 255 - v,
    {
        proof {
            lemma_total_monotone(h, v as int, 255);
        }
        cum = cum + hist[v] as u64;
        assert(cum == running_total(h, v as int));
        if lo == 0 && cum as u128 * 100 >= samples as u128 * 2 {
            proof {
                if f2 > v {
                    assert(false);
                }
            }
            lo = v;
        } else {
            proof {
                if lo == 0 && f2 <= v && !(f2 == 0 && v <= 1) {
                    assert(false);
                }
                if f2 <= v && !(cum as u128 * 100 >= samples as u128 * 2) {
                    if f2 < 255 {
                        lemma_total_monotone(h, f2, v as int);
                    }
                }
            }
        }
        if cum as u128 * 100 >= samples as u128 * 95 {
            hi = v;
            break;
        }
        assert(v < f95);
        v = v + 1;
    }
    // Already dark-text-on-light-paper: stretch nothing, use the full range.
    if hi >= 235 && lo <= 20 {
        lo = 0;
        hi = 255;
    }
    // Sparse ink: an empty stretch range would map every neutral pixel to
    // `page_bg`, erasing what little content the page has; map the full
    // range instead.
    if hi <= lo {
        lo = 0;
        hi = 255;
    }
    assert((lo as int, hi as int) == stretch_bounds(s));

    let lut_r = lut_channel(lo, hi, page_fg.red, page_bg.red);
    let lut_g = lut_channel(lo, hi, page_fg.green, page_bg.green);
    let lut_b = lut_channel(lo, hi, page_fg.blue, page_bg.blue);

    let mut p: usize = 0;
    while p < pixels
        invariant
            p <= pixels,
            pixels == pixel_count(s),
            s.len() <= usize::MAX,
            rgba@.len() == s.len(),
            (lo as int, hi as int) == stretch_bounds(s),
            lut_r@.len() == 256,
            lut_g@.len() == 256,
            lut_b@.len() == 256,
            forall|u: int|
                0 <= u < 256 ==> lut_r@[u] == lut_value(
                    lo as int,
                    hi as int,
                    page_fg.red,
                    page_bg.red,
                    u,
                ),
            forall|u: int|
                0 <= u < 256 ==> lut_g@[u] == lut_value(
                    lo as int,
                    hi as int,
                    page_fg.green,
                    page_bg.green,
                    u,
                ),
            forall|u: int|
                0 <= u < 256 ==> lut_b@[u] == lut_value(
                    lo as int,
                    hi as int,
                    page_fg.blue,
                    page_bg.blue,
                    u,
                ),
            forall|i: int|
                0 <= i < 4 * p ==> rgba@[i] == recolored_byte(s, page_bg, page_fg, i),
            forall|i: int| 4 * p <= i < s.len() ==> rgba@[i] == s[i],
        decreases pixels - p,
    {
        let o = 4 * p;
        let r = rgba[o];
        let g = rgba[o + 1];
        let b = rgba[o + 2];
        let mx = if r >= g && r >= b {
            r
        } else if g >= b {
            g
        } else {
            b
        };
        let mn = if r <= g && r <= b {
            r
        } else if g <= b {
            g
        } else {
            b
        };
        let sp = mx - mn;
        let ghost before = rgba@;
        if sp < 96 {
            let l = luma(r, g, b) as usize;
            if sp <= 48 {
                rgba[o] = lut_r[l];
                rgba[o + 1] = lut_g[l];
                rgba[o + 2] = lut_b[l];
            } else {
                rgba[o] = blend(r, lut_r[l], sp);
                rgba[o + 1] = blend(g, lut_g[l], sp);
                rgba[o + 2] = blend(b, lut_b[l], sp);
            }
        }
        proof {
            assert forall|i: int| 0 <= i < 4 * (p + 1) implies rgba@[i] == recolored_byte(
                s,
                page_bg,
                page_fg,
                i,
            ) by {
                if i >= 4 * p {
                    assert(i / 4 == p);
                    assert(i % 4 == i - 4 * p);
                }
            }
        }
        p = p + 1;
    }
    proof {
        assert forall|i: int| 0 <= i < s.len() implies rgba@[i] == recolored_byte(
            s,
            page_bg,
            page_fg,
            i,
        ) by {
            if i >= 4 * pixels {
                assert(i >= 4 * pixel_count(s));
            }
        }
    }
}

/// `lo` after the percentile scan has looked at lumas `0..v`, given the
/// first luma `f2` that reaches the 2nd percentile.
pub open spec fn lo_upto(f2: int, v: int) -> int {
    if f2 >= v {
        0
    } else if f2 == 0 {
        if v >= 2 {
            1
        } else {
            0
        }
    } else {
        f2
    }
}

proof fn lemma_first_reaching(h: Seq<int>, total: int, pct: int, w: int)
    requires
        0 <= w <= 255,
    ensures
        w <= first_reaching(h, total, pct, w) <= 255,
        forall|u: int|
            w <= u < first_reaching(h, total, pct, w) ==> !(running_total(h, u) * 100 >= total
                * pct),
        first_reaching(h, total, pct, w) < 255 ==> running_total(
            h,
            first_reaching(h, total, pct, w),
        ) * 100 >= total * pct,
    decreases 255 - w,
{
    if w < 255 && !(running_total(h, w) * 100 >= total * pct) {
        lemma_first_reaching(h, total, pct, w + 1);
    }
}

/// `(mapped * (96 - sp) + orig * (sp - 48) + 24) / 48` for a spread in the
/// blend band.
fn blend(orig: u8, mapped: u8, sp: u8) -> (out: u8)
    requires
        48 < sp < 96,
    ensures
        out == blended(orig, mapped as int, sp as int),
{
    proof {
        assert(mapped * (96 - sp) <= 255 * (96 - sp)) by (nonlinear_arith)
            requires
                mapped <= 255,
                sp < 96,
        ;
        assert(orig * (sp - 48) <= 255 * (sp - 48)) by (nonlinear_arith)
            requires
                orig <= 255,
                sp > 48,
        ;
    }
    let a = mapped as u32 * (96 - sp as u32);
    let c = orig as u32 * (sp as u32 - 48);
    ((a + c + 24) / 48) as u8
}

/// Alpha bytes and a trailing partial pixel are never touched.
pub proof fn law_recolor_keeps_alpha_and_tail(s: Seq<u8>, bg: Color, fg: Color, i: int)
    requires
        0 <= i < s.len(),
        i % 4 == 3 || i >= 4 * pixel_count(s),
    ensures
        recolored_byte(s, bg, fg, i) == s[i] as int,
{
}

/// Saturated pixels (channel spread of 96 or more) keep their colors.
pub proof fn law_saturated_pixels_untouched(s: Seq<u8>, bg: Color, fg: Color, i: int)
    requires
        0 <= i < 4 * pixel_count(s),
        i % 4 != 3,
        spread(s[4 * (i / 4)], s[4 * (i / 4) + 1], s[4 * (i / 4) + 2]) >= 96,
    ensures
        recolored_byte(s, bg, fg, i) == s[i] as int,
{
}

/// The tone map sends the darkest stretched tone to the foreground color
/// and the lightest to the background color.
pub proof fn law_tone_map_endpoints(lo: int, hi: int, f: u8, b: u8)
    requires
        0 <= lo < hi <= 255,
    ensures
        lut_value(lo, hi, f, b, lo) == f as int,
        lut_value(lo, hi, f, b, hi) == b as int,
{
    assert(((hi - lo) * 255) / (hi - lo) == 255) by (nonlinear_arith)
        requires
            hi - lo > 0,
    ;
    assert((255 * (b - f) + 127) / 255 == b - f) by (nonlinear_arith);
    assert(((lo - lo) * 255) / (hi - lo) == 0) by (nonlinear_arith)
        requires
            hi - lo > 0,
    ;
    assert(stretch(lo, hi, lo) == 0);
    assert((0 * (b - f) + 127) / 255 == 0) by (nonlinear_arith);
}

/// Brighter input never maps to a darker stretched tone: the stretch is
/// monotone in luma.
pub proof fn law_stretch_is_monotone(lo: int, hi: int, v1: int, v2: int)
    requires
        v1 <= v2,
    ensures
        stretch(lo, hi, v1) <= stretch(lo, hi, v2),
{
    if hi > lo {
        let d = hi - lo;
        assert(((v1 - lo) * 255) / d <= ((v2 - lo) * 255) / d) by (nonlinear_arith)
            requires
                v1 <= v2,
                d > 0,
        ;
    }
}

/// The stretch range comes from the sampled percentiles. `p2` and `p95`
/// are the lowest lumas whose running share of the samples reaches 2% and
/// 95% (luma 255 when none before it does). A page whose 95th percentile is
/// below 235 (not already dark text on light paper) and above its 2nd
/// percentile is stretched from `p2` (at least 1) to `p95`, so the paper
/// tone at `p95` lands exactly on the page background and the tone at the
/// lower bound on the foreground. The full range is used only for pages
/// already dark-on-light (`p95 >= 235` with a 2nd percentile of at most 20)
/// or with an empty range.
pub proof fn law_stretch_follows_percentiles(s: Seq<u8>, f: u8, b: u8)
    ensures
        ({
            let h = luma_histogram(s);
            let t = sample_count(s);
            let p2 = first_reaching(h, t, 2, 0);
            let p95 = first_reaching(h, t, 95, 0);
            let (lo, hi) = stretch_bounds(s);
            &&& 0 <= p2 <= 255 && 0 <= p95 <= 255
            &&& forall|u: int| 0 <= u < p95 ==> !(running_total(h, u) * 100 >= t * 95)
            &&& p95 < 255 ==> running_total(h, p95) * 100 >= t * 95
            &&& forall|u: int| 0 <= u < p2 ==> !(running_total(h, u) * 100 >= t * 2)
            &&& p2 < 255 ==> running_total(h, p2) * 100 >= t * 2
            &&& (p95 < 235 && p2 < p95 && p95 >= 2) ==> (hi == p95 && lo == (if p2 == 0 {
                1
            } else {
                p2
            }))
            &&& (p95 >= 235 && p2 <= 20) ==> (lo, hi) == (0int, 255int)
            &&& (lo, hi) != (0int, 255int) ==> hi == p95 && lo < hi && lut_value(lo, hi, f, b, p95)
                == b as int && lut_value(lo, hi, f, b, lo) == f as int
        }),
{
    let h = luma_histogram(s);
    let t = sample_count(s);
    lemma_first_reaching(h, t, 2, 0);
    lemma_first_reaching(h, t, 95, 0);
    let (lo, hi) = stretch_bounds(s);
    if (lo, hi) != (0int, 255int) {
        law_tone_map_endpoints(lo, hi, f, b);
    }
}

} // verus!
