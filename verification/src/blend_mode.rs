//! Blend modes and their codes.

use vstd::prelude::*;

verus! {

/// How a source is combined with a destination.
#[derive(Debug, Clone, Copy, PartialEq, Eq, Structural)]
pub enum BlendMode {
    /// Nothing.
    Clear,
    /// The source alone.
    Src,
    /// The destination alone.
    Dst,
    /// The source over the destination.
    SrcOver,
    /// The destination over the source.
    DstOver,
    /// The source inside the destination.
    SrcIn,
    /// The destination inside the source.
    DstIn,
    /// The source outside the destination.
    SrcOut,
    /// The destination outside the source.
    DstOut,
    /// The source atop the destination.
    SrcATop,
    /// The destination atop the source.
    DstATop,
    /// Either, but not both.
    Xor,
    /// The sum.
    Plus,
    /// The product of the colors.
    Modulate,
    /// The inverse product of the inverses.
    Screen,
    /// Multiply or screen, by the destination.
    Overlay,
    /// The darker one.
    Darken,
    /// The lighter one.
    Lighten,
    /// Brightens the destination.
    ColorDodge,
    /// Darkens the destination.
    ColorBurn,
    /// Multiply or screen, by the source.
    HardLight,
    /// Darkens or lightens, by the source.
    SoftLight,
    /// The difference.
    Difference,
    /// The difference with lower contrast.
    Exclusion,
    /// The product, with alpha.
    Multiply,
    /// The hue of the source.
    Hue,
    /// The saturation of the source.
    Saturation,
    /// The hue and saturation of the source.
    Color,
    /// The luminosity of the source.
    Luminosity,
}

impl BlendMode {
    /// The code of a mode.
    pub open spec fn code(self) -> u8 {
        match self {
            BlendMode::Clear => 0,
            BlendMode::Src => 1,
            BlendMode::Dst => 2,
            BlendMode::SrcOver => 3,
            BlendMode::DstOver => 4,
            BlendMode::SrcIn => 5,
            BlendMode::DstIn => 6,
            BlendMode::SrcOut => 7,
            BlendMode::DstOut => 8,
            BlendMode::SrcATop => 9,
            BlendMode::DstATop => 10,
            BlendMode::Xor => 11,
            BlendMode::Plus => 12,
            BlendMode::Modulate => 13,
            BlendMode::Screen => 14,
            BlendMode::Overlay => 15,
            BlendMode::Darken => 16,
            BlendMode::Lighten => 17,
            BlendMode::ColorDodge => 18,
            BlendMode::ColorBurn => 19,
            BlendMode::HardLight => 20,
            BlendMode::SoftLight => 21,
            BlendMode::Difference => 22,
            BlendMode::Exclusion => 23,
            BlendMode::Multiply => 24,
            BlendMode::Hue => 25,
            BlendMode::Saturation => 26,
            BlendMode::Color => 27,
            BlendMode::Luminosity => 28,
        }
    }

    /// The mode of a code.
    pub open spec fn of_code(code: u8) -> Option<BlendMode> {
        if code == 0 {
            Some(BlendMode::Clear)
        } else if code == 1 {
            Some(BlendMode::Src)
        } else if code == 2 {
            Some(BlendMode::Dst)
        } else if code == 3 {
            Some(BlendMode::SrcOver)
        } else if code == 4 {
            Some(BlendMode::DstOver)
        } else if code == 5 {
            Some(BlendMode::SrcIn)
        } else if code == 6 {
            Some(BlendMode::DstIn)
        } else if code == 7 {
            Some(BlendMode::SrcOut)
        } else if code == 8 {
            Some(BlendMode::DstOut)
        } else if code == 9 {
            Some(BlendMode::SrcATop)
        } else if code == 10 {
            Some(BlendMode::DstATop)
        } else if code == 11 {
            Some(BlendMode::Xor)
        } else if code == 12 {
            Some(BlendMode::Plus)
        } else if code == 13 {
            Some(BlendMode::Modulate)
        } else if code == 14 {
            Some(BlendMode::Screen)
        } else if code == 15 {
            Some(BlendMode::Overlay)
        } else if code == 16 {
            Some(BlendMode::Darken)
        } else if code == 17 {
            Some(BlendMode::Lighten)
        } else if code == 18 {
            Some(BlendMode::ColorDodge)
        } else if code == 19 {
            Some(BlendMode::ColorBurn)
        } else if code == 20 {
            Some(BlendMode::HardLight)
        } else if code == 21 {
            Some(BlendMode::SoftLight)
        } else if code == 22 {
            Some(BlendMode::Difference)
        } else if code == 23 {
            Some(BlendMode::Exclusion)
        } else if code == 24 {
            Some(BlendMode::Multiply)
        } else if code == 25 {
            Some(BlendMode::Hue)
        } else if code == 26 {
            Some(BlendMode::Saturation)
        } else if code == 27 {
            Some(BlendMode::Color)
        } else if code == 28 {
            Some(BlendMode::Luminosity)
        } else {
            None
        }
    }

    /// The code of a mode.
    pub fn to_u8(&self) -> (c: u8)
        ensures
            c == self.code(),
    {
        match self {
            BlendMode::Clear => 0,
            BlendMode::Src => 1,
            BlendMode::Dst => 2,
            BlendMode::SrcOver => 3,
            BlendMode::DstOver => 4,
            BlendMode::SrcIn => 5,
            BlendMode::DstIn => 6,
            BlendMode::SrcOut => 7,
            BlendMode::DstOut => 8,
            BlendMode::SrcATop => 9,
            BlendMode::DstATop => 10,
            BlendMode::Xor => 11,
            BlendMode::Plus => 12,
            BlendMode::Modulate => 13,
            BlendMode::Screen => 14,
            BlendMode::Overlay => 15,
            BlendMode::Darken => 16,
            BlendMode::Lighten => 17,
            BlendMode::ColorDodge => 18,
            BlendMode::ColorBurn => 19,
            BlendMode::HardLight => 20,
            BlendMode::SoftLight => 21,
            BlendMode::Difference => 22,
            BlendMode::Exclusion => 23,
            BlendMode::Multiply => 24,
            BlendMode::Hue => 25,
            BlendMode::Saturation => 26,
            BlendMode::Color => 27,
            BlendMode::Luminosity => 28,
        }
    }

    /// The mode of a code.
    pub fn from_u8(code: u8) -> (m: Option<BlendMode>)
        ensures
            m == BlendMode::of_code(code),
    {
        match code {
            0 => Some(BlendMode::Clear),
            1 => Some(BlendMode::Src),
            2 => Some(BlendMode::Dst),
            3 => Some(BlendMode::SrcOver),
            4 => Some(BlendMode::DstOver),
            5 => Some(BlendMode::SrcIn),
            6 => Some(BlendMode::DstIn),
            7 => Some(BlendMode::SrcOut),
            8 => Some(BlendMode::DstOut),
            9 => Some(BlendMode::SrcATop),
            10 => Some(BlendMode::DstATop),
            11 => Some(BlendMode::Xor),
            12 => Some(BlendMode::Plus),
            13 => Some(BlendMode::Modulate),
            14 => Some(BlendMode::Screen),
            15 => Some(BlendMode::Overlay),
            16 => Some(BlendMode::Darken),
            17 => Some(BlendMode::Lighten),
            18 => Some(BlendMode::ColorDodge),
            19 => Some(BlendMode::ColorBurn),
            20 => Some(BlendMode::HardLight),
            21 => Some(BlendMode::SoftLight),
            22 => Some(BlendMode::Difference),
            23 => Some(BlendMode::Exclusion),
            24 => Some(BlendMode::Multiply),
            25 => Some(BlendMode::Hue),
            26 => Some(BlendMode::Saturation),
            27 => Some(BlendMode::Color),
            28 => Some(BlendMode::Luminosity),
            _ => None,
        }
    }
}

/// A mode is the mode of its code, and no other code has a mode twice.
pub proof fn blend_codes_round_trip(m: BlendMode, code: u8)
    ensures
        BlendMode::of_code(m.code()) == Some(m),
        BlendMode::of_code(code) matches Some(k) ==> k.code() == code,
{
}

} // verus!
