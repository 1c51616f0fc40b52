//! Core color value types and the two converters: chromaticity (plus gamut
//! and brightness) to 8-bit RGB, and 8-bit RGB to integer HSV.

use vstd::prelude::*;
use crate::gamma::{gamma_correction, gamma_out, lemma_gamma_out_le, CHAN_MAX};
use vstd::arithmetic::div_mod::lemma_div_is_ordered;
use crate::gamut::{gamut_den, used_point, point_in_gamut, rat_of, RatPoint};

verus! {

/// Number of fixed-point units per 1.0 of chromaticity: a coordinate value of
/// `6750` stands for `0.675`.
pub const COORD_SCALE: i64 = 10000;

/// Why a single conversion call cannot produce a color.
#[derive(Debug, Copy, Clone, PartialEq, Eq, Structural)]
pub enum ColorError {
    /// The gamut triangle has zero area (collinear or coincident vertices),
    /// so reachability and projection are undefined.
    DegenerateGamut,
    /// The chromaticity actually used for conversion has `y == 0`, which
    /// would divide by zero when deriving CIE XYZ.
    InvalidChromaticity,
}

/// A CIE 1931 xy chromaticity coordinate, in `COORD_SCALE` fixed point.
#[derive(Debug, Copy, Clone, PartialEq, Eq, Structural)]
pub struct ColorCoordinate {
    pub x: i64,
    pub y: i64,
}

impl ColorCoordinate {
    /// Both axes lie in the nominal `[0, 1]` band of chromaticity space.
    pub open spec fn wf(self) -> bool {
        0 <= self.x <= COORD_SCALE && 0 <= self.y <= COORD_SCALE
    }

    pub fn new(x: i64, y: i64) -> (c: ColorCoordinate)
        ensures
            c == (ColorCoordinate { x, y }),
    {
        ColorCoordinate { x, y }
    }
}

/// A device's reachable-color triangle: its red, green and blue primaries in
/// chromaticity space.
#[derive(Debug, Copy, Clone, PartialEq, Eq, Structural)]
pub struct ColorGamut2 {
    pub red: ColorCoordinate,
    pub green: ColorCoordinate,
    pub blue: ColorCoordinate,
}

impl ColorGamut2 {
    pub open spec fn wf(self) -> bool {
        self.red.wf() && self.green.wf() && self.blue.wf()
    }

    pub fn new(red: ColorCoordinate, green: ColorCoordinate, blue: ColorCoordinate) -> (g:
        ColorGamut2)
        ensures
            g == (ColorGamut2 { red, green, blue }),
    {
        ColorGamut2 { red, green, blue }
    }
}

/// An 8-bit RGB triple; each channel is already in `[0, 255]` by type.
#[derive(Debug, Copy, Clone, PartialEq, Eq, Structural)]
pub struct RGBColor {
    pub red: u8,
    pub green: u8,
    pub blue: u8,
}

/// A hue/saturation/value triple as the downstream fixture's effect engine
/// takes it: integer degrees and integer percentages.
#[derive(Debug, Copy, Clone, PartialEq, Eq, Hash, Structural)]
pub struct HSVColor {
    pub hue: u32,
    pub saturation: u8,
    pub brightness: u8,
}

impl HSVColor {
    /// The declared ranges: hue in `[0, 359]`, saturation and brightness in
    /// `[0, 100]`.
    pub open spec fn wf(self) -> bool {
        self.hue <= 359 && self.saturation <= 100 && self.brightness <= 100
    }
}

// ---------------------------------------------------------------------------
// Chromaticity to RGB
// ---------------------------------------------------------------------------

/// Numerator of the linear red channel of the Wide-RGB-D65 transform, over
/// the common denominator `conv_den`: the CIE values are `Y = b/255`,
/// `X = Y*x/y`, `Z = Y*(1-x-y)/y`, and the matrix coefficients are scaled by
/// a million.
pub open spec fn lin_r_num(q: RatPoint, b: int) -> int {
    1656492 * (b * q.nx) - 354851 * (b * q.ny) - 255038 * (b * (10000 * q.den - q.nx - q.ny))
}

/// Numerator of the linear green channel; see `lin_r_num`.
pub open spec fn lin_g_num(q: RatPoint, b: int) -> int {
    -707196 * (b * q.nx) + 1655397 * (b * q.ny) + 36152 * (b * (10000 * q.den - q.nx - q.ny))
}

/// Numerator of the linear blue channel; see `lin_r_num`.
pub open spec fn lin_b_num(q: RatPoint, b: int) -> int {
    51713 * (b * q.nx) - 121364 * (b * q.ny) + 1011530 * (b * (10000 * q.den - q.nx - q.ny))
}

/// The common denominator of the three linear channels: `255 * 10^6 * ny`
/// (255 from the brightness scale, a million from the matrix coefficients;
/// the `10^4` coordinate scale cancels between `x` and `y`).
pub open spec fn conv_den(q: RatPoint) -> int {
    255000000 * q.ny
}

/// A linear channel brought to `CHAN_SCALE` fixed point: negative values
/// keep their sign only through the zero of the gamma step, so they floor to
/// zero here, and values above `CHAN_MAX` saturate there.
pub open spec fn chan_fixed(num: int, den: int) -> int {
    if num <= 0 {
        0
    } else if 256 * num / den > CHAN_MAX {
        CHAN_MAX as int
    } else {
        256 * num / den
    }
}

/// Largest of three values (the first of equals wins).
pub open spec fn max3(r: int, g: int, b: int) -> int {
    if r >= g && r >= b {
        r
    } else if g >= b {
        g
    } else {
        b
    }
}

/// Smallest of three values (the first of equals wins).
pub open spec fn min3(r: int, g: int, b: int) -> int {
    if r <= g && r <= b {
        r
    } else if g <= b {
        g
    } else {
        b
    }
}

/// Quantize three gamma-corrected channels to bytes.  If the maximum exceeds
/// 1.0 (that is, `CHAN_SCALE`), all three channels are divided by that same
/// maximum — the overflow rescale — otherwise by `CHAN_SCALE`; either way the
/// result is the floor of `255 * channel`.
pub open spec fn rgb_quantize(r: int, g: int, b: int) -> (int, int, int) {
    let m0 = max3(r, g, b);
    let m = if m0 > 256 {
        m0
    } else {
        256
    };
    (255 * r / m, 255 * g / m, 255 * b / m)
}

/// The full pipeline from a (possibly projected) rational chromaticity and a
/// brightness to the three RGB bytes.
pub open spec fn rgb_of(q: RatPoint, b: int) -> (int, int, int) {
    let den = conv_den(q);
    let cr = chan_fixed(lin_r_num(q, b), den);
    let cg = chan_fixed(lin_g_num(q, b), den);
    let cb = chan_fixed(lin_b_num(q, b), den);
    rgb_quantize(gamma_out(cr), gamma_out(cg), gamma_out(cb))
}

/// Returns the largest of the values (there must be at least one).
pub fn max(values: Vec<i64>) -> (m: i64)
    requires
        values@.len() > 0,
    ensures
        values@.contains(m),
        forall|i: int| 0 <= i < values@.len() ==> values@[i] <= m,
{
    let mut m = values[0];
    let mut idx: usize = 1;
    while idx < values.len()
        invariant
            1 <= idx <= values@.len(),
            exists|j: int| 0 <= j < idx && values@[j] == m,
            forall|i: int| 0 <= i < idx ==> values@[i] <= m,
        decreases values@.len() - idx,
    {
        if values[idx] > m {
            m = values[idx];
        }
        idx += 1;
    }
    m
}

/// Returns the smallest of the values (there must be at least one).
pub fn min(values: Vec<i64>) -> (m: i64)
    requires
        values@.len() > 0,
    ensures
        values@.contains(m),
        forall|i: int| 0 <= i < values@.len() ==> m <= values@[i],
{
    let mut m = values[0];
    let mut idx: usize = 1;
    while idx < values.len()
        invariant
            1 <= idx <= values@.len(),
            exists|j: int| 0 <= j < idx && values@[j] == m,
            forall|i: int| 0 <= i < idx ==> m <= values@[i],
        decreases values@.len() - idx,
    {
        if values[idx] < m {
            m = values[idx];
        }
        idx += 1;
    }
    m
}

/// One application of the Wide-RGB-D65 matrix to the XYZ numerators.
fn wide_rgb_rows(xn: i128, yn: i128, zn: i128) -> (r: (i128, i128, i128))
    requires
        0 <= xn <= 510000000000000,
        0 <= yn <= 510000000000000,
        -1020000000000000 <= zn <= 510000000000000,
    ensures
        r.0 == 1656492 * xn - 354851 * yn - 255038 * zn,
        r.1 == -707196 * xn + 1655397 * yn + 36152 * zn,
        r.2 == 51713 * xn - 121364 * yn + 1011530 * zn,
        -2000000000000000000000 <= r.0 <= 2000000000000000000000,
        -2000000000000000000000 <= r.1 <= 2000000000000000000000,
        -2000000000000000000000 <= r.2 <= 2000000000000000000000,
{
    let rn = 1656492 * xn - 354851 * yn - 255038 * zn;
    let gn = (-707196) * xn + 1655397 * yn + 36152 * zn;
    let bn = 51713 * xn - 121364 * yn + 1011530 * zn;
    (rn, gn, bn)
}

proof fn lemma_div_le(a: int, b: int, m: int)
    by (nonlinear_arith)
    requires
        0 <= a,
        a <= b * m,
        1 <= m,
    ensures
        0 <= a / m <= b,
{
}

/// Brings one linear channel numerator to fixed point, with the saturation
/// cap.
fn chan_fixed_exec(num: i128, den: i128) -> (c: i64)
    requires
        1 <= den <= 600000000000000000000,
        -2000000000000000000000 <= num <= 2000000000000000000000,
    ensures
        c == chan_fixed(num as int, den as int),
        0 <= c <= CHAN_MAX,
{
    if num <= 0 {
        return 0;
    }
    let q = ((256 * num) as u128) / (den as u128);
    proof {
        assert((256 * (num as int)) / (den as int) == (((256 * num) as u128) as int) / (((den
            as u128)) as int));
    }
    if q > 16000 {
        16000
    } else {
        proof {
            assert(q <= 16000);
        }
        q as i64
    }
}

impl RGBColor {
    /// Convert a chromaticity coordinate, the lamp's gamut and a brightness
    /// (0..=255 for full scale) to an 8-bit RGB triple.
    ///
    /// A point outside the gamut is first projected onto the gamut boundary;
    /// the projected point is exact, so the coordinate actually converted is
    /// always reachable.  The triple is pinned exactly: it equals `rgb_of`
    /// of the used point, and the two error cases hold if and only if the
    /// gamut is degenerate, respectively the used chromaticity has `y == 0`.
    pub fn from_coordinate(color: ColorCoordinate, gamut: ColorGamut2, brightness: u8) -> (r:
        Result<RGBColor, ColorError>)
        requires
            color.wf(),
            gamut.wf(),
        ensures
            r == Result::<RGBColor, ColorError>::Err(ColorError::DegenerateGamut) <==> gamut_den(
                gamut,
            ) == 0,
            r == Result::<RGBColor, ColorError>::Err(ColorError::InvalidChromaticity) <==> (
            gamut_den(gamut) != 0 && used_point(color, gamut).ny == 0),
            r is Ok <==> (gamut_den(gamut) != 0 && used_point(color, gamut).ny != 0),
            r matches Ok(c) ==> {
                let rgb = rgb_of(used_point(color, gamut), brightness as int);
                c.red == rgb.0 && c.green == rgb.1 && c.blue == rgb.2
            },
    {
        let reachable = match crate::gamut::check_point_in_lamps_reach(color, gamut) {
            Ok(b) => b,
            Err(e) => {
                return Err(e);
            },
        };
        let xy_point = if reachable {
            RatPoint { nx: color.x, ny: color.y, den: 1 }
        } else {
            crate::gamut::get_closest_point_to_point(gamut, color)
        };
        proof {
            assert(xy_point == used_point(color, gamut));
            assert(xy_point.wf());
        }
        if xy_point.ny == 0 {
            return Err(ColorError::InvalidChromaticity);
        }
        let b = brightness as i128;
        let nx = xy_point.nx as i128;
        let ny = xy_point.ny as i128;
        let dq = xy_point.den as i128;
        proof {
            assert(nx <= 2000000000000 && ny <= 2000000000000 && dq <= 200000000);
            assert(b * nx <= 510000000000000) by (nonlinear_arith)
                requires
                    0 <= b <= 255,
                    0 <= nx <= 2000000000000,
            ;
            assert(b * ny <= 510000000000000) by (nonlinear_arith)
                requires
                    0 <= b <= 255,
                    0 <= ny <= 2000000000000,
            ;
            assert(0 <= b * nx && 0 <= b * ny) by (nonlinear_arith)
                requires
                    0 <= b,
                    0 <= nx,
                    0 <= ny,
            ;
        }
        let xn = b * nx;
        let yn = b * ny;
        let zr = 10000 * dq - nx - ny;
        proof {
            assert(-4000000000000 <= zr <= 2000000000000);
            assert(-1020000000000000 <= b * zr <= 510000000000000) by (nonlinear_arith)
                requires
                    0 <= b <= 255,
                    -4000000000000 <= zr <= 2000000000000,
            ;
        }
        let zn = b * zr;
        proof {
            assert(0 <= xn <= 510000000000000);
            assert(0 <= yn <= 510000000000000);
            assert(-1020000000000000 <= zn <= 510000000000000);
        }
        let rows = wide_rgb_rows(xn, yn, zn);
        proof {
            assert(1 <= 255000000 * ny <= 600000000000000000000);
        }
        let den2 = 255000000 * ny;
        let cr = chan_fixed_exec(rows.0, den2);
        let cg = chan_fixed_exec(rows.1, den2);
        let cb = chan_fixed_exec(rows.2, den2);
        let gr = gamma_correction(cr);
        let gg = gamma_correction(cg);
        let gb = gamma_correction(cb);
        let channels = vec![gr, gg, gb];
        proof {
            assert(channels@.len() == 3);
            assert(channels@[0] == gr && channels@[1] == gg && channels@[2] == gb);
        }
        let ghost v = channels@;
        let max_component = max(channels);
        proof {
            let j = choose|j: int| 0 <= j < v.len() && v[j] == max_component;
            assert(v[0] <= max_component && v[1] <= max_component && v[2] <= max_component);
            assert(max_component == max3(gr as int, gg as int, gb as int));
        }
        let m = if max_component > 256 {
            max_component
        } else {
            256
        };
        proof {
            assert(gr <= m && gg <= m && gb <= m && 256 <= m);
            lemma_div_le(255 * (gr as int), 255, m as int);
            lemma_div_le(255 * (gg as int), 255, m as int);
            lemma_div_le(255 * (gb as int), 255, m as int);
            assert(255 * gr <= 255 * (m as int)) by (nonlinear_arith)
                requires
                    0 <= gr <= m,
            ;
            assert(255 * gg <= 255 * (m as int)) by (nonlinear_arith)
                requires
                    0 <= gg <= m,
            ;
            assert(255 * gb <= 255 * (m as int)) by (nonlinear_arith)
                requires
                    0 <= gb <= m,
            ;
        }
        let red = ((255 * (gr as u64)) / (m as u64)) as u8;
        let green = ((255 * (gg as u64)) / (m as u64)) as u8;
        let blue = ((255 * (gb as u64)) / (m as u64)) as u8;
        Ok(RGBColor { red, green, blue })
    }
}

// ---------------------------------------------------------------------------
// RGB to HSV
// ---------------------------------------------------------------------------

/// Truncated hue in degrees of an 8-bit RGB triple, per the classic
/// max/min formulas: the channel equal to the maximum picks the branch (red,
/// then green, then blue on ties), and each branch is an exact rational
/// `60 * (difference of the other two) / (cmax - cmin)` plus an offset,
/// taken modulo 360 and floored.
pub open spec fn hue_of(r: int, g: int, b: int) -> int {
    let cmax = max3(r, g, b);
    let cmin = min3(r, g, b);
    let diff = cmax - cmin;
    if cmax == cmin {
        0
    } else if cmax == r {
        let n0 = 60 * (g - b) + 360 * diff;
        if n0 >= 360 * diff {
            (n0 - 360 * diff) / diff
        } else {
            n0 / diff
        }
    } else if cmax == g {
        (60 * (b - r) + 120 * diff) / diff
    } else {
        (60 * (r - g) + 240 * diff) / diff
    }
}

/// Truncated saturation in percent: `100 * (cmax - cmin) / cmax`, 0 for black.
pub open spec fn sat_of(r: int, g: int, b: int) -> int {
    let cmax = max3(r, g, b);
    let cmin = min3(r, g, b);
    if cmax == 0 {
        0
    } else {
        (cmax - cmin) * 100 / cmax
    }
}

/// Truncated value in percent: `100 * cmax / 255`.
pub open spec fn val_of(r: int, g: int, b: int) -> int {
    max3(r, g, b) * 100 / 255
}

/// The HSV value an RGB color converts to, as a single triple.
pub open spec fn hsv_spec(c: RGBColor) -> HSVColor {
    HSVColor {
        hue: hue_of(c.red as int, c.green as int, c.blue as int) as u32,
        saturation: sat_of(c.red as int, c.green as int, c.blue as int) as u8,
        brightness: val_of(c.red as int, c.green as int, c.blue as int) as u8,
    }
}

proof fn lemma_div_lt(a: int, b: int, m: int)
    by (nonlinear_arith)
    requires
        0 <= a,
        a < b * m,
        1 <= m,
    ensures
        0 <= a / m < b,
{
}

/// The result of `max` over a three-element vector is `max3`, and of `min`
/// is `min3`.
proof fn lemma_vec3_max(v: Seq<i64>, a: i64, b: i64, c: i64, m: i64)
    requires
        v.len() == 3,
        v[0] == a,
        v[1] == b,
        v[2] == c,
        v.contains(m),
        forall|i: int| 0 <= i < v.len() ==> v[i] <= m,
    ensures
        m == max3(a as int, b as int, c as int),
{
    let j = choose|j: int| 0 <= j < v.len() && v[j] == m;
    assert(v[0] <= m && v[1] <= m && v[2] <= m);
}

proof fn lemma_vec3_min(v: Seq<i64>, a: i64, b: i64, c: i64, m: i64)
    requires
        v.len() == 3,
        v[0] == a,
        v[1] == b,
        v[2] == c,
        v.contains(m),
        forall|i: int| 0 <= i < v.len() ==> m <= v[i],
    ensures
        m == min3(a as int, b as int, c as int),
{
    let j = choose|j: int| 0 <= j < v.len() && v[j] == m;
    assert(m <= v[0] && m <= v[1] && m <= v[2]);
}

impl RGBColor {
    /// Derive the hue/saturation/value triple of this color.  The result is
    /// pinned exactly to the truncated-rational formulas, and its fields are
    /// always in range: hue in `[0, 359]`, saturation and value in `[0, 100]`.
    pub fn to_hsv(&self) -> (h: HSVColor)
        ensures
            h.hue == hue_of(self.red as int, self.green as int, self.blue as int),
            h.saturation == sat_of(self.red as int, self.green as int, self.blue as int),
            h.brightness == val_of(self.red as int, self.green as int, self.blue as int),
            h == hsv_spec(*self),
            h.wf(),
    {
        let r = self.red as i64;
        let g = self.green as i64;
        let b = self.blue as i64;
        let channels = vec![r, g, b];
        proof {
            assert(channels@.len() == 3);
            assert(channels@[0] == r && channels@[1] == g && channels@[2] == b);
        }
        let ghost vmax = channels@;
        let cmax = max(channels);
        let channels2 = vec![r, g, b];
        proof {
            assert(channels2@.len() == 3);
            assert(channels2@[0] == r && channels2@[1] == g && channels2@[2] == b);
        }
        let ghost vmin = channels2@;
        let cmin = min(channels2);
        proof {
            lemma_vec3_max(vmax, r, g, b, cmax);
            lemma_vec3_min(vmin, r, g, b, cmin);
        }
        let diff = cmax - cmin;
        let hue: i64 = if cmax == cmin {
            0
        } else if cmax == r {
            let n0 = 60 * (g - b) + 360 * diff;
            let n1 = if n0 >= 360 * diff {
                n0 - 360 * diff
            } else {
                n0
            };
            proof {
                assert(0 <= n1 < 360 * diff);
                lemma_div_lt(n1 as int, 360, diff as int);
            }
            ((n1 as u64) / (diff as u64)) as i64
        } else if cmax == g {
            let n0 = 60 * (b - r) + 120 * diff;
            proof {
                assert(0 <= n0 < 360 * diff);
                lemma_div_lt(n0 as int, 360, diff as int);
            }
            ((n0 as u64) / (diff as u64)) as i64
        } else {
            let n0 = 60 * (r - g) + 240 * diff;
            proof {
                assert(0 <= n0 < 360 * diff);
                lemma_div_lt(n0 as int, 360, diff as int);
            }
            ((n0 as u64) / (diff as u64)) as i64
        };
        let sat: i64 = if cmax == 0 {
            0
        } else {
            proof {
                lemma_div_le((diff * 100) as int, 100, cmax as int);
            }
            (((diff * 100) as u64) / (cmax as u64)) as i64
        };
        proof {
            lemma_div_le((cmax * 100) as int, 100, 255);
        }
        let value: i64 = ((cmax as u64) * 100 / 255) as i64;
        HSVColor { hue: hue as u32, saturation: sat as u8, brightness: value as u8 }
    }
}

// ---------------------------------------------------------------------------
// Stated properties
// ---------------------------------------------------------------------------

/// A chromaticity already inside the gamut is used unchanged: the projector
/// contributes nothing to the conversion, whose result is a pure function of
/// the inputs (`from_coordinate` pins it to `rgb_of`, so two calls with
/// identical inputs return identical bytes).
pub proof fn lemma_in_gamut_point_used_unchanged(p: ColorCoordinate, g: ColorGamut2, b: int)
    requires
        point_in_gamut(p, g),
    ensures
        used_point(p, g) == rat_of(p),
        rgb_of(used_point(p, g), b) == rgb_of(rat_of(p), b),
{
}

/// The overflow rescale preserves the channel ratios: when the pre-rescale
/// maximum `m` exceeds 1.0 (`CHAN_SCALE` in fixed point), every output byte
/// is exactly the floor of `255 * channel / m`, the quantization of the
/// ratio `channel / m` — all three channels divided by the same maximum.
pub proof fn lemma_overflow_rescale_ratio(r: int, g: int, b: int)
    requires
        0 <= r,
        0 <= g,
        0 <= b,
        max3(r, g, b) > 256,
    ensures
        ({
            let m = max3(r, g, b);
            let q = rgb_quantize(r, g, b);
            &&& q.0 * m <= 255 * r < (q.0 + 1) * m
            &&& q.1 * m <= 255 * g < (q.1 + 1) * m
            &&& q.2 * m <= 255 * b < (q.2 + 1) * m
        }),
{
    let m = max3(r, g, b);
    lemma_div_floor_prop(255 * r, m);
    lemma_div_floor_prop(255 * g, m);
    lemma_div_floor_prop(255 * b, m);
}

/// `chan_fixed` is monotone in the channel numerator for a fixed
/// denominator.
proof fn lemma_chan_fixed_le(n1: int, n2: int, d: int)
    requires
        n1 <= n2,
        d >= 1,
    ensures
        chan_fixed(n1, d) <= chan_fixed(n2, d),
{
    if n1 <= 0 {
        if n2 <= 0 {
        } else {
            lemma_div_is_ordered(0, 256 * n2, d);
        }
    } else {
        lemma_div_is_ordered(256 * n1, 256 * n2, d);
    }
}

/// `chan_fixed` never exceeds the saturation cap.
proof fn lemma_chan_fixed_cap(n: int, d: int)
    ensures
        chan_fixed(n, d) <= CHAN_MAX,
{
}

/// The conversion never reorders channels: when the linear red numerator is
/// at least the green one and at least the blue one, the output bytes are
/// red-dominant (and symmetrically for any dominant channel, by renaming).
/// In particular, a primary vertex whose linear channel dominates — as the
/// red primary of a real device gamut does at full brightness — converts to
/// a color dominant in that channel: gamma correction, the saturation cap
/// and the quantization (which divides all three channels by the same
/// maximum) are all monotone.
pub proof fn lemma_dominant_channel_stays_dominant(q: RatPoint, b: int)
    requires
        q.ny >= 1,
        lin_r_num(q, b) >= lin_g_num(q, b),
        lin_r_num(q, b) >= lin_b_num(q, b),
    ensures
        rgb_of(q, b).0 >= rgb_of(q, b).1,
        rgb_of(q, b).0 >= rgb_of(q, b).2,
{
    let den = conv_den(q);
    assert(den >= 1);
    let cr = chan_fixed(lin_r_num(q, b), den);
    let cg = chan_fixed(lin_g_num(q, b), den);
    let cb = chan_fixed(lin_b_num(q, b), den);
    lemma_chan_fixed_le(lin_g_num(q, b), lin_r_num(q, b), den);
    lemma_chan_fixed_le(lin_b_num(q, b), lin_r_num(q, b), den);
    lemma_chan_fixed_cap(lin_r_num(q, b), den);
    lemma_gamma_out_le(cg, cr);
    lemma_gamma_out_le(cb, cr);
    let gr = gamma_out(cr);
    let gg = gamma_out(cg);
    let gb = gamma_out(cb);
    let m0 = max3(gr, gg, gb);
    let m = if m0 > 256 {
        m0
    } else {
        256
    };
    lemma_div_is_ordered(255 * gg, 255 * gr, m);
    lemma_div_is_ordered(255 * gb, 255 * gr, m);
}

proof fn lemma_div_floor_prop(a: int, m: int)
    by (nonlinear_arith)
    requires
        0 <= a,
        1 <= m,
    ensures
        (a / m) * m <= a < (a / m + 1) * m,
{
}

} // verus!
