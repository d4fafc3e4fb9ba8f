//! Color model: four representations, normalized to RGB.
//!
//! A channel is an integer in `0..=CHANNEL_MAX`, standing for the fraction
//! `channel / CHANNEL_MAX` of full intensity.
use vstd::prelude::*;

verus! {

/// Full intensity of a channel.
pub const CHANNEL_MAX: u64 = 10000;

pub open spec fn channel_ok(v: u64) -> bool {
    v <= CHANNEL_MAX
}

#[derive(Clone, Copy, Debug, PartialEq, Eq, Structural)]
pub struct Rgb {
    pub r: u64,
    pub g: u64,
    pub b: u64,
}

#[derive(Clone, Copy, Debug, PartialEq, Eq, Structural)]
pub struct Cmyk {
    pub c: u64,
    pub m: u64,
    pub y: u64,
    pub k: u64,
}

#[derive(Clone, Copy, Debug, PartialEq, Eq, Structural)]
pub enum Color {
    Rgb(Rgb),
    Cmyk(Cmyk),
    Greyscale(u64),
    SpotColor(Cmyk),
}

impl Rgb {
    pub open spec fn wf(self) -> bool {
        channel_ok(self.r) && channel_ok(self.g) && channel_ok(self.b)
    }

    pub fn new(r: u64, g: u64, b: u64) -> (res: Rgb)
        ensures
            res == (Rgb { r, g, b }),
    {
        Rgb { r, g, b }
    }
}

impl Cmyk {
    pub open spec fn wf(self) -> bool {
        channel_ok(self.c) && channel_ok(self.m) && channel_ok(self.y) && channel_ok(self.k)
    }

    pub fn new(c: u64, m: u64, y: u64, k: u64) -> (res: Cmyk)
        ensures
            res == (Cmyk { c, m, y, k }),
    {
        Cmyk { c, m, y, k }
    }
}

impl Color {
    pub open spec fn wf(self) -> bool {
        match self {
            Color::Rgb(rgb) => rgb.wf(),
            Color::Cmyk(cmyk) => cmyk.wf(),
            Color::Greyscale(v) => channel_ok(v),
            Color::SpotColor(cmyk) => cmyk.wf(),
        }
    }
}

/// `(1 - a)(1 - b)` on channels, rounded down.
pub open spec fn subtractive(a: u64, b: u64) -> u64 {
    (((CHANNEL_MAX - a) * (CHANNEL_MAX - b)) / CHANNEL_MAX as int) as u64
}

pub open spec fn cmyk_rgb(c: u64, m: u64, y: u64, k: u64) -> Rgb {
    Rgb { r: subtractive(c, k), g: subtractive(m, k), b: subtractive(y, k) }
}

/// The RGB value of a color.
pub open spec fn rgb_of(color: Color) -> Rgb {
    match color {
        Color::Rgb(rgb) => rgb,
        Color::Cmyk(x) => cmyk_rgb(x.c, x.m, x.y, x.k),
        Color::Greyscale(v) => Rgb { r: v, g: v, b: v },
        Color::SpotColor(x) => cmyk_rgb(x.c, x.m, x.y, x.k),
    }
}

proof fn lemma_subtractive_bounded(a: u64, b: u64)
    requires
        channel_ok(a),
        channel_ok(b),
    ensures
        channel_ok(subtractive(a, b)),
        (CHANNEL_MAX - a) * (CHANNEL_MAX - b) <= CHANNEL_MAX * CHANNEL_MAX,
{
    assert((CHANNEL_MAX - a) * (CHANNEL_MAX - b) <= CHANNEL_MAX * CHANNEL_MAX) by (nonlinear_arith)
        requires
            a <= CHANNEL_MAX,
            b <= CHANNEL_MAX,
    ;
    assert(((CHANNEL_MAX - a) * (CHANNEL_MAX - b)) / CHANNEL_MAX as int <= CHANNEL_MAX) by (nonlinear_arith)
        requires
            (CHANNEL_MAX - a) * (CHANNEL_MAX - b) <= CHANNEL_MAX * CHANNEL_MAX,
            CHANNEL_MAX == 10000,
    ;
}

fn cmyk_to_rgb(c: u64, m: u64, y: u64, k: u64) -> (res: Rgb)
    requires
        channel_ok(c),
        channel_ok(m),
        channel_ok(y),
        channel_ok(k),
    ensures
        res == cmyk_rgb(c, m, y, k),
        res.wf(),
{
    proof {
        lemma_subtractive_bounded(c, k);
        lemma_subtractive_bounded(m, k);
        lemma_subtractive_bounded(y, k);
    }
    Rgb::new(
        (CHANNEL_MAX - c) * (CHANNEL_MAX - k) / CHANNEL_MAX,
        (CHANNEL_MAX - m) * (CHANNEL_MAX - k) / CHANNEL_MAX,
        (CHANNEL_MAX - y) * (CHANNEL_MAX - k) / CHANNEL_MAX,
    )
}

/// Normalizes any color to RGB: CMYK and spot colors by
/// `((1-c)(1-k), (1-m)(1-k), (1-y)(1-k))`, greyscale `v` to `(v, v, v)`.
pub fn to_rgb(color: Color) -> (res: Rgb)
    requires
        color.wf(),
    ensures
        res == rgb_of(color),
        res.wf(),
{
    match color {
        Color::Rgb(rgb) => rgb,
        Color::Cmyk(x) => cmyk_to_rgb(x.c, x.m, x.y, x.k),
        Color::Greyscale(v) => Rgb::new(v, v, v),
        Color::SpotColor(x) => cmyk_to_rgb(x.c, x.m, x.y, x.k),
    }
}

/// A channel on the 0–255 scale: `channel * 255 / CHANNEL_MAX`, rounded down.
pub open spec fn byte_of(v: u64) -> u8 {
    ((v * 255) / CHANNEL_MAX as int) as u8
}

/// The three bytes of an RGB color on the 0–255 scale.
pub fn rgb_bytes(rgb: Rgb) -> (res: (u8, u8, u8))
    requires
        rgb.wf(),
    ensures
        res == (byte_of(rgb.r), byte_of(rgb.g), byte_of(rgb.b)),
{
    (channel_byte(rgb.r), channel_byte(rgb.g), channel_byte(rgb.b))
}

fn channel_byte(v: u64) -> (res: u8)
    requires
        channel_ok(v),
    ensures
        res == byte_of(v),
{
    assert(v * 255 / CHANNEL_MAX as int <= 255) by (nonlinear_arith)
        requires
            v <= CHANNEL_MAX,
            CHANNEL_MAX == 10000,
    ;
    (v * 255 / CHANNEL_MAX) as u8
}

/// The corner cases of color normalization: no ink is white, full ink is
/// black, and a greyscale value is the same value on every RGB channel.
pub proof fn lemma_normalization_corners(v: u64)
    requires
        channel_ok(v),
    ensures
        rgb_of(Color::Cmyk(Cmyk { c: 0, m: 0, y: 0, k: 0 })) == (Rgb {
            r: CHANNEL_MAX,
            g: CHANNEL_MAX,
            b: CHANNEL_MAX,
        }),
        rgb_of(Color::Cmyk(Cmyk { c: CHANNEL_MAX, m: CHANNEL_MAX, y: CHANNEL_MAX, k: CHANNEL_MAX }))
            == (Rgb { r: 0, g: 0, b: 0 }),
        rgb_of(Color::Greyscale(v)) == (Rgb { r: v, g: v, b: v }),
{
    assert(subtractive(CHANNEL_MAX, CHANNEL_MAX) == 0) by (nonlinear_arith);
}

} // verus!
