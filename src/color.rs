use vstd::prelude::*;

verus! {

/// Number of bits each channel keeps in the colour histogram.
pub const QUANTIZE_WORD_WIDTH: u32 = 5;

/// Largest channel value at the histogram's bit width.
pub const QUANTIZE_WORD_MAX: u8 = 31;

/// An sRGB colour with 8-bit channels.
pub type Rgb = (u8, u8, u8);

/// A non-negative fraction `num / den`.
#[derive(Clone, Copy, Debug, PartialEq, Eq, Structural)]
pub struct Ratio {
    pub num: u32,
    pub den: u32,
}

/// A colour in HSL: hue in degrees, saturation and lightness as fractions of one.
#[derive(Clone, Copy, Debug, PartialEq, Eq, Structural)]
pub struct Hsl {
    pub hue: Ratio,
    pub saturation: Ratio,
    pub lightness: Ratio,
}

/// A channel value moved from one bit width to another by a plain shift.
pub open spec fn requantized(value: u8, current_width: u32, target_width: u32) -> u8 {
    if target_width > current_width {
        value << ((target_width - current_width) % 8)
    } else {
        value >> ((current_width - target_width) % 8)
    }
}

/// Moves `value` from `current_width` significant bits to `target_width` bits:
/// a left shift to widen, a right shift to narrow, truncated to eight bits.
pub fn modify_width(value: u8, current_width: u32, target_width: u32) -> (r: u8)
    ensures
        r == requantized(value, current_width, target_width),
{
    if target_width > current_width {
        value.wrapping_shl(target_width - current_width)
    } else {
        value.wrapping_shr(current_width - target_width)
    }
}

pub open spec fn max_channel(c: Rgb) -> int {
    if c.0 >= c.1 && c.0 >= c.2 {
        c.0 as int
    } else if c.1 >= c.2 {
        c.1 as int
    } else {
        c.2 as int
    }
}

pub open spec fn min_channel(c: Rgb) -> int {
    if c.0 <= c.1 && c.0 <= c.2 {
        c.0 as int
    } else if c.1 <= c.2 {
        c.1 as int
    } else {
        c.2 as int
    }
}

/// The spread between the largest and the smallest channel.
pub open spec fn chroma(c: Rgb) -> int {
    max_channel(c) - min_channel(c)
}

/// Hue in degrees, in [0, 360): sixty times the position of the colour on the
/// hexagon, measured from red; zero for a grey.
pub open spec fn hue_of(c: Rgb) -> Ratio {
    let (r, g, b) = (c.0 as int, c.1 as int, c.2 as int);
    let ch = chroma(c);
    if ch == 0 {
        Ratio { num: 0, den: 1 }
    } else if max_channel(c) == r {
        if g >= b {
            Ratio { num: (60 * (g - b)) as u32, den: ch as u32 }
        } else {
            Ratio { num: (360 * ch - 60 * (b - g)) as u32, den: ch as u32 }
        }
    } else if max_channel(c) == g {
        Ratio { num: (120 * ch + 60 * (b - r)) as u32, den: ch as u32 }
    } else {
        Ratio { num: (240 * ch + 60 * (r - g)) as u32, den: ch as u32 }
    }
}

/// Saturation: chroma over `1 - |2 * lightness - 1|`, zero for a grey.
pub open spec fn saturation_of(c: Rgb) -> Ratio {
    let sum = max_channel(c) + min_channel(c);
    let ch = chroma(c);
    if ch == 0 {
        Ratio { num: 0, den: 1 }
    } else if sum >= 255 {
        Ratio { num: ch as u32, den: (510 - sum) as u32 }
    } else {
        Ratio { num: ch as u32, den: sum as u32 }
    }
}

/// Lightness: the mean of the largest and the smallest channel, over 255.
pub open spec fn lightness_of(c: Rgb) -> Ratio {
    Ratio { num: (max_channel(c) + min_channel(c)) as u32, den: 510 }
}

pub open spec fn hsl_of(c: Rgb) -> Hsl {
    Hsl { hue: hue_of(c), saturation: saturation_of(c), lightness: lightness_of(c) }
}

/// A fraction that lies in [0, 1] with a positive denominator.
pub open spec fn is_unit(x: Ratio) -> bool {
    0 < x.den && x.num <= x.den
}

/// Saturation and lightness are proper fractions of one, and the hue lies in [0, 360).
pub proof fn lemma_hsl_bounds(c: Rgb)
    ensures
        is_unit(hsl_of(c).saturation),
        is_unit(hsl_of(c).lightness),
        hsl_of(c).hue.den > 0,
        hsl_of(c).hue.num < 360 * hsl_of(c).hue.den,
{
}

/// Converts an sRGB colour to HSL, exactly.
pub fn rgb_to_hsl(c: Rgb) -> (r: Hsl)
    ensures
        r == hsl_of(c),
{
    let (r, g, b) = c;
    let (r, g, b) = (r as u32, g as u32, b as u32);
    let max = if r >= g && r >= b {
        r
    } else if g >= b {
        g
    } else {
        b
    };
    let min = if r <= g && r <= b {
        r
    } else if g <= b {
        g
    } else {
        b
    };
    let ch = max - min;
    let sum = max + min;
    let lightness = Ratio { num: sum, den: 510 };
    if ch == 0 {
        let zero = Ratio { num: 0, den: 1 };
        return Hsl { hue: zero, saturation: zero, lightness };
    }
    let saturation = if sum >= 255 {
        Ratio { num: ch, den: 510 - sum }
    } else {
        Ratio { num: ch, den: sum }
    };
    let hue = if max == r {
        if g >= b {
            Ratio { num: 60 * (g - b), den: ch }
        } else {
            Ratio { num: 360 * ch - 60 * (b - g), den: ch }
        }
    } else if max == g {
        if b >= r {
            Ratio { num: 120 * ch + 60 * (b - r), den: ch }
        } else {
            Ratio { num: 120 * ch - 60 * (r - b), den: ch }
        }
    } else {
        if r >= g {
            Ratio { num: 240 * ch + 60 * (r - g), den: ch }
        } else {
            Ratio { num: 240 * ch - 60 * (g - r), den: ch }
        }
    };
    Hsl { hue, saturation, lightness }
}

} // verus!
