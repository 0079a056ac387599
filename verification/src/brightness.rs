use vstd::prelude::*;

verus! {

/// The weighted sum `299*r^2 + 587*g^2 + 114*b^2`. Its square root, scaled
/// down by `sqrt(1000)`, is the perceptual brightness of an RGB color.
pub open spec fn weighted_square_sum(r: u8, g: u8, b: u8) -> int {
    299 * (r as int) * (r as int) + 587 * (g as int) * (g as int) + 114 * (b as int) * (b as int)
}

/// The nearest integer to `sqrt(s / 1000)`, found by scanning upward from `n`:
/// the smallest `m >= n` with `4*s < 1000*(2m+1)^2`, capped at 255. Rounding
/// is half-up: `m` is nearest when `(m - 1/2)^2 <= s/1000 < (m + 1/2)^2`.
pub open spec fn rounded_scaled_sqrt_from(s: int, n: nat) -> nat
    decreases 255 - n,
{
    if n >= 255 {
        255
    } else if 4 * s < 1000 * (2 * n + 1) * (2 * n + 1) {
        n
    } else {
        rounded_scaled_sqrt_from(s, n + 1)
    }
}

/// Perceptual brightness of an RGB color:
/// `round(sqrt(0.299*r^2 + 0.587*g^2 + 0.114*b^2))`.
pub open spec fn brightness_spec(r: u8, g: u8, b: u8) -> nat {
    rounded_scaled_sqrt_from(weighted_square_sum(r, g, b), 0)
}

/// The scan of [`rounded_scaled_sqrt_from`] never leaves `[n, 255]`.
proof fn lemma_scan_bounds(s: int, n: nat)
    requires
        n <= 255,
    ensures
        n <= rounded_scaled_sqrt_from(s, n) <= 255,
    decreases 255 - n,
{
    if n < 255 && !(4 * s < 1000 * (2 * n + 1) * (2 * n + 1)) {
        lemma_scan_bounds(s, n + 1);
    }
}

/// The brightness of any color fits in a byte.
pub proof fn lemma_brightness_spec_bounded(r: u8, g: u8, b: u8)
    ensures
        brightness_spec(r, g, b) <= 255,
{
    lemma_scan_bounds(weighted_square_sum(r, g, b), 0);
}

proof fn lemma_weighted_square_sum_bounds(r: u8, g: u8, b: u8)
    ensures
        0 <= weighted_square_sum(r, g, b) <= 65025000,
        299 * (r as int) * (r as int) <= 19442475,
        587 * (g as int) * (g as int) <= 38169675,
        114 * (b as int) * (b as int) <= 7412850,
{
    assert(0 <= 299 * (r as int) * (r as int) <= 299 * 255 * 255) by (nonlinear_arith)
        requires 0 <= r as int <= 255;
    assert(0 <= 587 * (g as int) * (g as int) <= 587 * 255 * 255) by (nonlinear_arith)
        requires 0 <= g as int <= 255;
    assert(0 <= 114 * (b as int) * (b as int) <= 114 * 255 * 255) by (nonlinear_arith)
        requires 0 <= b as int <= 255;
}

/// Perceptual brightness of an RGB color, the integer rounding of
/// `sqrt(0.299*r^2 + 0.587*g^2 + 0.114*b^2)`: green contributes most to
/// perceived luminance, blue least.
pub fn human_perceived_brightness(r: u8, g: u8, b: u8) -> (v: u8)
    ensures
        v as nat == brightness_spec(r, g, b),
{
    proof {
        lemma_weighted_square_sum_bounds(r, g, b);
    }
    let s: u32 = 299 * (r as u32) * (r as u32) + 587 * (g as u32) * (g as u32)
        + 114 * (b as u32) * (b as u32);
    let mut n: u32 = 0;
    while n < 255 && 4 * s >= 1000 * (2 * n + 1) * (2 * n + 1)
        invariant
            n <= 255,
            s <= 65025000,
            1000 * (2 * (n as int) + 1) * (2 * (n as int) + 1) <= 261121000,
            s as int == weighted_square_sum(r, g, b),
            brightness_spec(r, g, b) == rounded_scaled_sqrt_from(s as int, n as nat),
        decreases 255 - n,
    {
        n = n + 1;
        proof {
            assert(1000 * (2 * (n as int) + 1) * (2 * (n as int) + 1) <= 261121000)
                by (nonlinear_arith)
                requires 0 <= n as int <= 255;
        }
    }
    n as u8
}

/// A pluggable strategy mapping one RGBA pixel to a non-negative integer
/// intensity ("key") value, e.g. brightness or hue.
pub trait PixelKey {
    /// The mathematical key function.
    spec fn key_spec(p: (u8, u8, u8, u8)) -> nat;

    /// An upper bound on every key value this strategy can produce.
    spec fn key_bound() -> nat;

    /// The bound really holds of every pixel.
    proof fn key_spec_bounded(p: (u8, u8, u8, u8))
        ensures
            Self::key_spec(p) <= Self::key_bound(),
    ;

    /// Computes the key of one pixel.
    fn key(&self, p: (u8, u8, u8, u8)) -> (r: usize)
        ensures
            r as nat == Self::key_spec(p),
            r as nat <= Self::key_bound(),
    ;
}

/// The default key: perceptual brightness faded by alpha. A pixel with alpha
/// below 128 counts as fully dark (transparent regions contribute nothing);
/// otherwise its brightness is scaled by `alpha/255` and truncated.
pub struct BrightnessKey {}

impl PixelKey for BrightnessKey {
    open spec fn key_spec(p: (u8, u8, u8, u8)) -> nat {
        if p.3 < 128 {
            0
        } else {
            (brightness_spec(p.0, p.1, p.2) * p.3 as nat) / 255
        }
    }

    open spec fn key_bound() -> nat {
        255
    }

    proof fn key_spec_bounded(p: (u8, u8, u8, u8)) {
        lemma_brightness_key_bounded(p);
    }

    fn key(&self, p: (u8, u8, u8, u8)) -> (r: usize) {
        if p.3 < 128 {
            0
        } else {
            let hb = human_perceived_brightness(p.0, p.1, p.2);
            proof {
                lemma_brightness_spec_bounded(p.0, p.1, p.2);
                assert(hb as int * p.3 as int <= 255 * 255) by (nonlinear_arith)
                    requires 0 <= hb as int <= 255, 0 <= p.3 as int <= 255;
            }
            (hb as usize * p.3 as usize) / 255
        }
    }
}

/// Transparency zeroing: a pixel with alpha below 128 contributes intensity 0,
/// whatever its color channels hold.
pub proof fn lemma_transparent_pixel_is_zero(p: (u8, u8, u8, u8))
    requires
        p.3 < 128,
    ensures
        BrightnessKey::key_spec(p) == 0,
{
}

/// Intensity bound: the default brightness key never exceeds 255.
pub proof fn lemma_brightness_key_bounded(p: (u8, u8, u8, u8))
    ensures
        BrightnessKey::key_spec(p) <= 255,
{
    lemma_brightness_spec_bounded(p.0, p.1, p.2);
    let hb = brightness_spec(p.0, p.1, p.2);
    assert(hb * p.3 as nat <= 255 * 255) by (nonlinear_arith)
        requires 0 <= hb <= 255, 0 <= p.3 as nat <= 255;
}

} // verus!
