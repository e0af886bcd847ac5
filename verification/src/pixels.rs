//! Pixel work of the frame watermark on RGBA buffers (four bytes per pixel, rows one after
//! another): the tinted logo, the moment asset, emboldened text and the colours sampled from
//! the photo.
use vstd::prelude::*;
use vstd::arithmetic::div_mod::{
    lemma_fundamental_div_mod, lemma_mod_multiples_vanish, lemma_mod_pos_bound, lemma_mod_self_0,
    lemma_small_mod,
};

verus! {

/// The four bytes of pixel `i`.
pub open spec fn rgba(p: Seq<u8>, i: int) -> (u8, u8, u8, u8) {
    (p[4 * i], p[4 * i + 1], p[4 * i + 2], p[4 * i + 3])
}

/// The brightest channel of a pixel.
pub open spec fn max3(r: u8, g: u8, b: u8) -> u8 {
    if r >= g && r >= b {
        r
    } else if g >= b {
        g
    } else {
        b
    }
}

/// A pixel of the moment asset: drawn in the foreground colour, as opaque as it is bright
/// (its alpha scaled by its brightest channel).
pub open spec fn moment_pixel(q: (u8, u8, u8, u8), fg: [u8; 3]) -> (u8, u8, u8, u8) {
    (fg[0], fg[1], fg[2], ((q.3 as int * max3(q.0, q.1, q.2) as int) / 255) as u8)
}

/// Turns the moment asset into a mask drawn in the foreground colour.
pub fn prepare_moment_pixels(pixels: &mut Vec<u8>, foreground: [u8; 3])
    requires
        old(pixels)@.len() % 4 == 0,
    ensures
        final(pixels)@.len() == old(pixels)@.len(),
        forall|i: int|
            0 <= i < old(pixels)@.len() / 4 ==> #[trigger] rgba(final(pixels)@, i) == moment_pixel(
                rgba(old(pixels)@, i),
                foreground,
            ),
{
    let n = pixels.len() / 4;
    let ghost orig = pixels@;
    let mut i: usize = 0;
    let len = pixels.len();
    assert(4 * n == len);
    while i < n
        invariant
            n == orig.len() / 4,
            4 * n == orig.len(),
            4 * n <= usize::MAX,
            orig.len() % 4 == 0,
            pixels@.len() == orig.len(),
            i <= n,
            forall|k: int| 0 <= k < i ==> #[trigger] rgba(pixels@, k) == moment_pixel(rgba(orig, k), foreground),
            forall|k: int| i <= k < n ==> #[trigger] rgba(pixels@, k) == rgba(orig, k),
        decreases n - i,
    {
        let ghost before = pixels@;
        assert(rgba(before, i as int) == rgba(orig, i as int));
        let r = pixels[4 * i];
        let g = pixels[4 * i + 1];
        let b = pixels[4 * i + 2];
        let a = pixels[4 * i + 3];
        let luminance = if r >= g && r >= b {
            r
        } else if g >= b {
            g
        } else {
            b
        };
        assert((a as int) * (luminance as int) <= 65025) by (nonlinear_arith)
            requires
                a <= 255,
                luminance <= 255,
        ;
        let alpha = ((a as u16) * (luminance as u16) / 255) as u8;
        pixels.set(4 * i, foreground[0]);
        pixels.set(4 * i + 1, foreground[1]);
        pixels.set(4 * i + 2, foreground[2]);
        pixels.set(4 * i + 3, alpha);
        assert forall|k: int| 0 <= k < n && k != i implies #[trigger] rgba(pixels@, k) == rgba(before, k) by {
            assert(4 * k + 3 < 4 * i || 4 * k > 4 * i + 3);
        }
        i = i + 1;
    }
}

/// Whether a pixel is part of the red dot of the logo: visible, red above 110 and above one
/// and a half times green and blue.
pub open spec fn is_logo_red(q: (u8, u8, u8, u8)) -> bool {
    q.3 > 0 && q.0 > 110 && (q.0 as int) > (q.1 as int * 3) / 2 && (q.0 as int) > (q.2 as int * 3) / 2
}

/// The smallest box (left, top, right, bottom) holding the red pixels among the first `k`
/// pixels of a picture `w` pixels wide.
pub open spec fn red_bounds(p: Seq<u8>, w: int, k: int) -> Option<(int, int, int, int)>
    decreases k,
{
    if k <= 0 {
        None
    } else {
        let prev = red_bounds(p, w, k - 1);
        let i = k - 1;
        if is_logo_red(rgba(p, i)) {
            let x = i % w;
            let y = i / w;
            match prev {
                None => Some((x, y, x, y)),
                Some((l, t, r, b)) => Some((
                    if x < l { x } else { l },
                    if y < t { y } else { t },
                    if x > r { x } else { r },
                    if y > b { y } else { b },
                )),
            }
        } else {
            prev
        }
    }
}

/// The red box grown by two pixels on each side, kept inside the picture.
pub open spec fn grown_bounds(b: (int, int, int, int), w: int, h: int) -> (int, int, int, int) {
    (
        if b.0 >= 2 { b.0 - 2 } else { 0 },
        if b.1 >= 2 { b.1 - 2 } else { 0 },
        if b.2 + 2 <= w - 1 { b.2 + 2 } else { w - 1 },
        if b.3 + 2 <= h - 1 { b.3 + 2 } else { h - 1 },
    )
}

/// A logo pixel after tinting: transparent pixels and the pixels inside the grown red box
/// keep their colour; the others take the foreground colour and keep their alpha.
pub open spec fn tinted_pixel(q: (u8, u8, u8, u8), i: int, w: int, h: int, red: Option<(int, int, int, int)>, fg: [u8; 3]) -> (u8, u8, u8, u8) {
    let inside = match red {
        Some(b) => {
            let g = grown_bounds(b, w, h);
            g.0 <= i % w <= g.2 && g.1 <= i / w <= g.3
        },
        None => false,
    };
    if q.3 == 0 || inside {
        q
    } else {
        (fg[0], fg[1], fg[2], q.3)
    }
}

/// Tints the frame logo in the foreground colour, leaving its red dot (and a two-pixel margin
/// round it) as it is.
pub fn tint_logo_pixels(pixels: &mut Vec<u8>, width: u32, height: u32, foreground: [u8; 3])
    requires
        old(pixels)@.len() == 4 * (width as int * height as int),
    ensures
        final(pixels)@.len() == old(pixels)@.len(),
        forall|i: int|
            0 <= i < width as int * height as int ==> #[trigger] rgba(final(pixels)@, i) == tinted_pixel(
                rgba(old(pixels)@, i),
                i,
                width as int,
                height as int,
                red_bounds(old(pixels)@, width as int, width as int * height as int),
                foreground,
            ),
{
    let ghost orig = pixels@;
    let ghost wi = width as int;
    let ghost hi = height as int;
    let n = pixels.len() / 4;
    assert(n == wi * hi);
    if n == 0 {
        return;
    }
    assert(width > 0) by {
        if width == 0 {
            assert(wi * hi == 0) by (nonlinear_arith)
                requires
                    wi == 0,
            ;
        }
    }
    let w = width as usize;
    let mut found = false;
    let mut left: usize = 0;
    let mut top: usize = 0;
    let mut right: usize = 0;
    let mut bottom: usize = 0;
    let mut i: usize = 0;
    while i < n
        invariant
            n == wi * hi,
            w == wi,
            w > 0,
            pixels@ == orig,
            orig.len() == 4 * n,
            4 * n <= usize::MAX,
            i <= n,
            found <==> red_bounds(orig, wi, i as int) is Some,
            found ==> red_bounds(orig, wi, i as int) == Some((left as int, top as int, right as int, bottom as int)),
            found ==> right < w,
        decreases n - i,
    {
        let r = pixels[4 * i];
        let g = pixels[4 * i + 1];
        let b = pixels[4 * i + 2];
        let a = pixels[4 * i + 3];
        let red = a > 0 && r > 110 && (r as u16) > (g as u16) * 3 / 2 && (r as u16) > (b as u16) * 3 / 2;
        let x = i % w;
        let y = i / w;
        proof {
            assert(rgba(orig, i as int) == (r, g, b, a));
            assert(red == is_logo_red(rgba(orig, i as int)));
        }
        if red {
            if !found {
                left = x;
                top = y;
                right = x;
                bottom = y;
                found = true;
            } else {
                if x < left {
                    left = x;
                }
                if y < top {
                    top = y;
                }
                if x > right {
                    right = x;
                }
                if y > bottom {
                    bottom = y;
                }
            }
        }
        i = i + 1;
    }
    let ghost bounds = red_bounds(orig, wi, n as int);
    let (gl, gt, gr, gb) = if found {
        let gl = if left >= 2 { left - 2 } else { 0 };
        let gt = if top >= 2 { top - 2 } else { 0 };
        let gr = if w >= 3 && right <= w - 3 { right + 2 } else { w - 1 };
        let hh = height as usize;
        assert(hh >= 1) by {
            if hh == 0 {
                assert(wi * hi == 0) by (nonlinear_arith)
                    requires
                        hi == 0,
                ;
            }
        }
        let gb = if hh >= 3 && bottom <= hh - 3 { bottom + 2 } else { hh - 1 };
        (gl, gt, gr, gb)
    } else {
        (0, 0, 0, 0)
    };
    proof {
        if found {
            assert(grown_bounds(bounds->0, wi, hi) == (gl as int, gt as int, gr as int, gb as int));
        }
    }
    let mut k: usize = 0;
    while k < n
        invariant
            n == wi * hi,
            w == wi,
            w > 0,
            orig.len() == 4 * n,
            4 * n <= usize::MAX,
            pixels@.len() == orig.len(),
            k <= n,
            bounds == red_bounds(orig, wi, n as int),
            found <==> bounds is Some,
            found ==> grown_bounds(bounds->0, wi, hi) == (gl as int, gt as int, gr as int, gb as int),
            forall|j: int| 0 <= j < k ==> #[trigger] rgba(pixels@, j) == tinted_pixel(rgba(orig, j), j, wi, hi, bounds, foreground),
            forall|j: int| k <= j < n ==> #[trigger] rgba(pixels@, j) == rgba(orig, j),
        decreases n - k,
    {
        let ghost before = pixels@;
        assert(rgba(before, k as int) == rgba(orig, k as int));
        let a = pixels[4 * k + 3];
        let x = k % w;
        let y = k / w;
        let inside = found && gl <= x && x <= gr && gt <= y && y <= gb;
        if a != 0 && !inside {
            pixels.set(4 * k, foreground[0]);
            pixels.set(4 * k + 1, foreground[1]);
            pixels.set(4 * k + 2, foreground[2]);
            assert forall|j: int| 0 <= j < n && j != k implies #[trigger] rgba(pixels@, j) == rgba(before, j) by {
                assert(4 * j + 3 < 4 * k || 4 * j > 4 * k + 3);
            }
        }
        k = k + 1;
    }
}

/// The alpha a visible text pixel lends its neighbours: 112/255 of its own.
pub open spec fn lent_alpha(src: Seq<u8>, s: int) -> int {
    (src[4 * s + 3] as int * 112) / 255
}

/// The larger of two values.
pub open spec fn larger(a: int, b: int) -> int {
    if a >= b {
        a
    } else {
        b
    }
}

/// The most alpha lent to pixel `t` of a picture `w` pixels wide and `n` pixels in all by its
/// left, right, upper and lower neighbours among the first `k` pixels; -1 when none lends.
pub open spec fn lent_to(src: Seq<u8>, w: int, n: int, t: int, k: int) -> int {
    larger(
        larger(
            if t % w + 1 < w && t + 1 < k { lent_alpha(src, t + 1) } else { -1 },
            if t % w >= 1 && t - 1 < k { lent_alpha(src, t - 1) } else { -1 },
        ),
        larger(
            if t + w < n && t + w < k { lent_alpha(src, t + w) } else { -1 },
            if t >= w && t - w < k { lent_alpha(src, t - w) } else { -1 },
        ),
    )
}

/// Pixel `t` once the first `k` pixels have lent their alpha: drawn in `color` with the lent
/// alpha when that exceeds its own, unchanged otherwise.
pub open spec fn bold_pixel(src: Seq<u8>, w: int, n: int, t: int, k: int, color: [u8; 3]) -> (u8, u8, u8, u8) {
    let c = lent_to(src, w, n, t, k);
    if c > src[4 * t + 3] as int {
        (color[0], color[1], color[2], c as u8)
    } else {
        rgba(src, t)
    }
}

/// Whether pixel `t` is a neighbour that pixel `k` lends to.
pub open spec fn lends_to(w: int, n: int, k: int, t: int) -> bool {
    ||| (t == k - 1 && k % w >= 1)
    ||| (t == k + 1 && k % w + 1 < w)
    ||| (t == k - w && k >= w)
    ||| (t == k + w && k + w < n)
}

proof fn lemma_mod_next(k: int, w: int)
    requires
        w > 0,
        k >= 0,
    ensures
        (k + 1) % w == (if k % w + 1 < w { k % w + 1 } else { 0 }),
{
    lemma_fundamental_div_mod(k, w);
    lemma_mod_pos_bound(k, w);
    lemma_mod_multiples_vanish(k / w, k % w + 1, w);
    assert(w * (k / w) + (k % w + 1) == k + 1);
    if k % w + 1 < w {
        lemma_small_mod((k % w + 1) as nat, w as nat);
    } else {
        lemma_mod_self_0(w);
    }
}

/// What lending by pixel `k` changes: the pixels it lends to also count its alpha, the others
/// keep what they had.
proof fn lemma_lent_step(src: Seq<u8>, w: int, n: int, k: int, t: int)
    requires
        w > 0,
        0 <= k < n,
        0 <= t < n,
    ensures
        lent_to(src, w, n, t, k + 1) == (if lends_to(w, n, k, t) {
            larger(lent_to(src, w, n, t, k), lent_alpha(src, k))
        } else {
            lent_to(src, w, n, t, k)
        }),
{
    lemma_mod_pos_bound(t, w);
    lemma_mod_pos_bound(k, w);
    if t + 1 == k {
        lemma_mod_next(t, w);
    }
    if t == k + 1 {
        lemma_mod_next(k, w);
    }
}

/// A pixel after keeping the larger alpha: drawn in `color` with `alpha` when `alpha` exceeds
/// its alpha.
pub open spec fn raised(q: (u8, u8, u8, u8), alpha: u8, color: [u8; 3]) -> (u8, u8, u8, u8) {
    if alpha > q.3 {
        (color[0], color[1], color[2], alpha)
    } else {
        q
    }
}

/// Keeps the larger alpha at pixel `t`: drawn in `color` with `alpha` when `alpha` exceeds
/// its alpha, unchanged otherwise; no other pixel changes.
fn raise_alpha(pixels: &mut Vec<u8>, t: usize, alpha: u8, color: [u8; 3])
    requires
        4 * t + 3 < old(pixels)@.len(),
    ensures
        final(pixels)@.len() == old(pixels)@.len(),
        rgba(final(pixels)@, t as int) == raised(rgba(old(pixels)@, t as int), alpha, color),
        forall|j: int| 0 <= j < old(pixels)@.len() / 4 && j != t ==> #[trigger] rgba(final(pixels)@, j) == rgba(old(pixels)@, j),
{
    let len = pixels.len();
    if alpha > pixels[4 * t + 3] {
        let ghost before = pixels@;
        pixels.set(4 * t, color[0]);
        pixels.set(4 * t + 1, color[1]);
        pixels.set(4 * t + 2, color[2]);
        pixels.set(4 * t + 3, alpha);
        assert forall|j: int| 0 <= j < before.len() / 4 && j != t implies #[trigger] rgba(pixels@, j) == rgba(before, j) by {
            assert(4 * j + 3 < 4 * t || 4 * j > 4 * t + 3);
        }
    }
}

/// Thickens rasterised text: every visible pixel lends 112/255 of its alpha to its four
/// neighbours, which take the text colour where the lent alpha exceeds their own.
#[verifier::spinoff_prover]
#[verifier::rlimit(40)]
pub fn embolden_pixels(pixels: &mut Vec<u8>, width: u32, height: u32, color: [u8; 3])
    requires
        old(pixels)@.len() == 4 * (width as int * height as int),
    ensures
        final(pixels)@.len() == old(pixels)@.len(),
        forall|t: int|
            0 <= t < width as int * height as int ==> #[trigger] rgba(final(pixels)@, t) == bold_pixel(
                old(pixels)@,
                width as int,
                width as int * height as int,
                t,
                width as int * height as int,
                color,
            ),
{
    let ghost src = pixels@;
    let ghost wi = width as int;
    let len = pixels.len();
    let n = len / 4;
    let ghost ni = n as int;
    assert(ni == wi * (height as int));
    if n == 0 {
        return;
    }
    assert(width > 0) by {
        if width == 0 {
            assert(wi * (height as int) == 0) by (nonlinear_arith)
                requires
                    wi == 0,
            ;
        }
    }
    let source = crate::ucd2::copy_range(pixels.as_slice(), 0, len);
    assert(source@ =~= src);
    let w = width as usize;
    let mut k: usize = 0;
    assert forall|t: int| 0 <= t < ni implies #[trigger] rgba(pixels@, t) == bold_pixel(src, wi, ni, t, 0, color) by {
        lemma_small_mod(0, wi as nat);
        assert(lent_to(src, wi, ni, t, 0) == -1);
    }
    proof {
        lemma_mod_multiples_vanish(height as int, 0, wi);
        lemma_small_mod(0, wi as nat);
        assert(ni % wi == 0);
    }
    while k < n
        invariant
            ni == n,
            ni % wi == 0,
            4 * n == len,
            len == src.len(),
            source@ == src,
            w == wi,
            w > 0,
            pixels@.len() == src.len(),
            k <= n,
            forall|t: int| 0 <= t < ni ==> #[trigger] rgba(pixels@, t) == bold_pixel(src, wi, ni, t, k as int, color),
        decreases n - k,
    {
        let a = source[4 * k + 3];
        let alpha = ((a as u16) * 112 / 255) as u8;
        assert(alpha as int == lent_alpha(src, k as int));
        let x = k % w;
        proof {
            lemma_small_mod(0, wi as nat);
            lemma_mod_next(k as int, wi);
            lemma_mod_pos_bound(k as int, wi);
            if x + 1 < w {
                assert(k + 1 != n);
            }
        }
        let ghost before = pixels@;
        if a != 0 {
            if x >= 1 {
                raise_alpha(pixels, k - 1, alpha, color);
            }
            let ghost p1 = pixels@;
            if x + 1 < w {
                raise_alpha(pixels, k + 1, alpha, color);
            }
            let ghost p2 = pixels@;
            if k >= w {
                raise_alpha(pixels, k - w, alpha, color);
            }
            let ghost p3 = pixels@;
            if w < n - k {
                raise_alpha(pixels, k + w, alpha, color);
            }
            proof {
                assert forall|t: int| 0 <= t < ni implies #[trigger] rgba(pixels@, t) == (if lends_to(wi, ni, k as int, t) {
                    raised(rgba(before, t), alpha, color)
                } else {
                    rgba(before, t)
                }) by {
                    if t == k - 1 && x >= 1 {
                        assert(rgba(p1, t) == raised(rgba(before, t), alpha, color));
                        assert(rgba(p2, t) == rgba(p1, t));
                        assert(rgba(p3, t) == rgba(p2, t));
                    } else if t == k + 1 && x + 1 < w {
                        assert(rgba(p1, t) == rgba(before, t));
                        assert(rgba(p2, t) == raised(rgba(p1, t), alpha, color));
                        assert(rgba(p3, t) == rgba(p2, t));
                    } else if t == k - w && k >= w {
                        assert(rgba(p1, t) == rgba(before, t));
                        assert(rgba(p2, t) == rgba(p1, t));
                        assert(rgba(p3, t) == raised(rgba(p2, t), alpha, color));
                    } else {
                        assert(rgba(p1, t) == rgba(before, t));
                        assert(rgba(p2, t) == rgba(p1, t));
                        assert(rgba(p3, t) == rgba(p2, t));
                    }
                }
            }
        }
        proof {
            assert forall|t: int| 0 <= t < ni implies #[trigger] rgba(pixels@, t) == bold_pixel(src, wi, ni, t, k + 1, color) by {
                lemma_lent_step(src, wi, ni, k as int, t);
                assert(rgba(before, t) == bold_pixel(src, wi, ni, t, k as int, color));
            }
        }
        k = k + 1;
    }
}

/// The step between sampled pixels along a side of `d` pixels: a sixty-fourth of it, at
/// least one.
pub open spec fn sample_step(d: int) -> int {
    if d / 64 >= 1 {
        d / 64
    } else {
        1
    }
}

/// The sum of channel `ch` over the pixels of row `y` sampled from column `x` on, every `sx`
/// columns.
pub open spec fn row_samples(p: Seq<u8>, w: int, y: int, sx: int, x: int, ch: int) -> int
    decreases (if x < w { w - x } else { 0 }),
{
    if sx < 1 || x >= w {
        0
    } else {
        p[4 * (y * w + x) + ch] as int + row_samples(p, w, y, sx, x + sx, ch)
    }
}

/// The number of pixels of a row sampled from column `x` on, every `sx` columns.
pub open spec fn row_sample_count(w: int, sx: int, x: int) -> int
    decreases (if x < w { w - x } else { 0 }),
{
    if sx < 1 || x >= w {
        0
    } else {
        1 + row_sample_count(w, sx, x + sx)
    }
}

/// Whether row `y` lies in the upper half of a picture `h` rows high.
pub open spec fn is_upper_row(y: int, h: int) -> bool {
    2 * y < h
}

/// The sum of channel `ch` over the sampled pixels of the rows `y`, `y + sy`, … that lie in
/// the upper half (`upper`) or in the lower half.
pub open spec fn half_samples(p: Seq<u8>, w: int, h: int, sx: int, sy: int, y: int, ch: int, upper: bool) -> int
    decreases (if y < h { h - y } else { 0 }),
{
    if sy < 1 || y >= h {
        0
    } else {
        (if is_upper_row(y, h) == upper { row_samples(p, w, y, sx, 0, ch) } else { 0 }) + half_samples(
            p,
            w,
            h,
            sx,
            sy,
            y + sy,
            ch,
            upper,
        )
    }
}

/// The number of sampled pixels in the rows `y`, `y + sy`, … of the chosen half.
pub open spec fn half_count(w: int, h: int, sx: int, sy: int, y: int, upper: bool) -> int
    decreases (if y < h { h - y } else { 0 }),
{
    if sy < 1 || y >= h {
        0
    } else {
        (if is_upper_row(y, h) == upper { row_sample_count(w, sx, 0) } else { 0 }) + half_count(w, h, sx, sy, y + sy, upper)
    }
}

/// The average colour of the sampled pixels of one half of the photo (a count of zero counts
/// as one), each channel cut to eight bits.
pub open spec fn half_average(p: Seq<u8>, w: int, h: int, upper: bool) -> Seq<u8> {
    let sx = sample_step(w);
    let sy = sample_step(h);
    let c = half_count(w, h, sx, sy, 0, upper);
    let d = if c == 0 { 1 } else { c };
    seq![
        ((half_samples(p, w, h, sx, sy, 0, 0, upper) / d) % 256) as u8,
        ((half_samples(p, w, h, sx, sy, 0, 1, upper) / d) % 256) as u8,
        ((half_samples(p, w, h, sx, sy, 0, 2, upper) / d) % 256) as u8,
    ]
}

/// A side is covered by at most 128 steps of its sampling step.
proof fn lemma_step_covers(d: int)
    requires
        d >= 0,
    ensures
        sample_step(d) >= 1,
        d <= 128 * sample_step(d),
{
    lemma_fundamental_div_mod(d, 64);
    lemma_mod_pos_bound(d, 64);
}

/// Sums the sampled pixels of row `y`: the three channel sums and the number of pixels.
fn sample_row(pixels: &[u8], w: usize, h: usize, y: usize, sx: usize) -> (r: (u64, u64, u64, u64))
    requires
        pixels@.len() == 4 * (w as int * h as int),
        y < h,
        sx >= 1,
        w <= 128 * sx,
    ensures
        r.0 == row_samples(pixels@, w as int, y as int, sx as int, 0, 0),
        r.1 == row_samples(pixels@, w as int, y as int, sx as int, 0, 1),
        r.2 == row_samples(pixels@, w as int, y as int, sx as int, 0, 2),
        r.3 == row_sample_count(w as int, sx as int, 0),
        r.3 <= 128,
        r.0 <= 255 * r.3 && r.1 <= 255 * r.3 && r.2 <= 255 * r.3,
{
    let ghost p = pixels@;
    let ghost wi = w as int;
    let ghost yi = y as int;
    let ghost si = sx as int;
    let len = pixels.len();
    let mut s0: u64 = 0;
    let mut s1: u64 = 0;
    let mut s2: u64 = 0;
    let mut count: u64 = 0;
    let mut x: usize = 0;
    while x < w
        invariant
            p == pixels@,
            p.len() == 4 * (wi * (h as int)),
            len == p.len(),
            wi == w,
            yi == y,
            si == sx,
            y < h,
            sx >= 1,
            w <= 128 * sx,
            x as int == count * si,
            count <= 128,
            s0 + row_samples(p, wi, yi, si, x as int, 0) == row_samples(p, wi, yi, si, 0, 0),
            s1 + row_samples(p, wi, yi, si, x as int, 1) == row_samples(p, wi, yi, si, 0, 1),
            s2 + row_samples(p, wi, yi, si, x as int, 2) == row_samples(p, wi, yi, si, 0, 2),
            count + row_sample_count(wi, si, x as int) == row_sample_count(wi, si, 0),
            s0 <= 255 * count && s1 <= 255 * count && s2 <= 255 * count,
        decreases w - x,
    {
        assert(count < 128) by (nonlinear_arith)
            requires
                x as int == count * si,
                x < w,
                w <= 128 * si,
                si >= 1,
        ;
        assert(0 <= yi * wi && yi * wi + x < wi * (h as int)) by (nonlinear_arith)
            requires
                0 <= yi < h,
                0 <= x < wi,
        ;
        let i = y * w + x;
        s0 = s0 + pixels[4 * i] as u64;
        s1 = s1 + pixels[4 * i + 1] as u64;
        s2 = s2 + pixels[4 * i + 2] as u64;
        count = count + 1;
        assert((count as int) * si == (count - 1) * si + si) by (nonlinear_arith);
        if sx > w - x {
            x = w;
            assert(row_sample_count(wi, si, (i - yi * wi) + si) == 0);
            assert(row_samples(p, wi, yi, si, (i - yi * wi) + si, 0) == 0);
            assert(row_samples(p, wi, yi, si, (i - yi * wi) + si, 1) == 0);
            assert(row_samples(p, wi, yi, si, (i - yi * wi) + si, 2) == 0);
            assert(row_sample_count(wi, si, w as int) == 0);
            return (s0, s1, s2, count);
        }
        x = x + sx;
    }
    assert(row_sample_count(wi, si, x as int) == 0);
    (s0, s1, s2, count)
}

/// The average colours of the upper and the lower half of a photo, from about 64×64 evenly
/// spaced samples: the colours the photo-derived frame backgrounds start from.
pub fn sample_photo_colors(pixels: &[u8], width: u32, height: u32) -> (r: ([u8; 3], [u8; 3]))
    requires
        pixels@.len() == 4 * (width as int * height as int),
    ensures
        r.0@ == half_average(pixels@, width as int, height as int, true),
        r.1@ == half_average(pixels@, width as int, height as int, false),
{
    let ghost p = pixels@;
    let w = width as usize;
    let h = height as usize;
    let ghost wi = w as int;
    let ghost hi = h as int;
    let sx = if w / 64 >= 1 { w / 64 } else { 1 };
    let sy = if h / 64 >= 1 { h / 64 } else { 1 };
    proof {
        lemma_step_covers(wi);
        lemma_step_covers(hi);
    }
    let ghost si = sx as int;
    let ghost ti = sy as int;
    let mut top: [u64; 3] = [0, 0, 0];
    let mut bottom: [u64; 3] = [0, 0, 0];
    let mut t0: u64 = 0;
    let mut t1: u64 = 0;
    let mut t2: u64 = 0;
    let mut tc: u64 = 0;
    let mut b0: u64 = 0;
    let mut b1: u64 = 0;
    let mut b2: u64 = 0;
    let mut bc: u64 = 0;
    let mut y: usize = 0;
    let ghost rows: int = 0;
    while y < h
        invariant
            p == pixels@,
            p.len() == 4 * (wi * hi),
            wi == w,
            hi == h,
            si == sx,
            ti == sy,
            si == sample_step(wi),
            ti == sample_step(hi),
            sx >= 1,
            sy >= 1,
            w <= 128 * sx,
            h <= 128 * sy,
            y as int == rows * ti || y == h,
            y <= h,
            h <= 0xffff_ffff,
            0 <= rows <= 128,
            tc + bc <= 128 * rows,
            t0 <= 255 * tc && t1 <= 255 * tc && t2 <= 255 * tc,
            b0 <= 255 * bc && b1 <= 255 * bc && b2 <= 255 * bc,
            t0 + half_samples(p, wi, hi, si, ti, y as int, 0, true) == half_samples(p, wi, hi, si, ti, 0, 0, true),
            t1 + half_samples(p, wi, hi, si, ti, y as int, 1, true) == half_samples(p, wi, hi, si, ti, 0, 1, true),
            t2 + half_samples(p, wi, hi, si, ti, y as int, 2, true) == half_samples(p, wi, hi, si, ti, 0, 2, true),
            tc + half_count(wi, hi, si, ti, y as int, true) == half_count(wi, hi, si, ti, 0, true),
            b0 + half_samples(p, wi, hi, si, ti, y as int, 0, false) == half_samples(p, wi, hi, si, ti, 0, 0, false),
            b1 + half_samples(p, wi, hi, si, ti, y as int, 1, false) == half_samples(p, wi, hi, si, ti, 0, 1, false),
            b2 + half_samples(p, wi, hi, si, ti, y as int, 2, false) == half_samples(p, wi, hi, si, ti, 0, 2, false),
            bc + half_count(wi, hi, si, ti, y as int, false) == half_count(wi, hi, si, ti, 0, false),
        decreases h - y,
    {
        assert(y as int == rows * ti);
        assert(rows < 128) by (nonlinear_arith)
            requires
                y as int == rows * ti,
                y < h,
                h <= 128 * ti,
                ti >= 1,
        ;
        let (r0, r1, r2, rc) = sample_row(pixels, w, h, y, sx);
        let upper = (y as u64) * 2 < (h as u64);
        if upper {
            t0 = t0 + r0;
            t1 = t1 + r1;
            t2 = t2 + r2;
            tc = tc + rc;
        } else {
            b0 = b0 + r0;
            b1 = b1 + r1;
            b2 = b2 + r2;
            bc = bc + rc;
        }
        proof {
            rows = rows + 1;
            assert(rows * ti == (rows - 1) * ti + ti) by (nonlinear_arith);
        }
        if sy > h - y {
            assert(half_count(wi, hi, si, ti, y + ti, true) == 0);
            assert(half_count(wi, hi, si, ti, y + ti, false) == 0);
            assert(half_samples(p, wi, hi, si, ti, y + ti, 0, true) == 0);
            assert(half_samples(p, wi, hi, si, ti, y + ti, 1, true) == 0);
            assert(half_samples(p, wi, hi, si, ti, y + ti, 2, true) == 0);
            assert(half_samples(p, wi, hi, si, ti, y + ti, 0, false) == 0);
            assert(half_samples(p, wi, hi, si, ti, y + ti, 1, false) == 0);
            assert(half_samples(p, wi, hi, si, ti, y + ti, 2, false) == 0);
            y = h;
        } else {
            y = y + sy;
        }
    }
    top = [t0, t1, t2];
    bottom = [b0, b1, b2];
    let upper_colour = crate::watermark::average_rgb(top, tc);
    let lower_colour = crate::watermark::average_rgb(bottom, bc);
    assert(upper_colour@ =~= half_average(p, wi, hi, true));
    assert(lower_colour@ =~= half_average(p, wi, hi, false));
    (upper_colour, lower_colour)
}

} // verus!
