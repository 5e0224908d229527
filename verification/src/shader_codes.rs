//! Codes of the modes and types that a serialized shader names.

use vstd::prelude::*;

use crate::shader::{AlphaType, ColorType, FilterMode, MipmapMode, NoiseType, TileMode};

verus! {

impl TileMode {
    /// The code of a tile mode.
    pub open spec fn code(self) -> u8 {
        match self {
            TileMode::Clamp => 0,
            TileMode::Repeat => 1,
            TileMode::Mirror => 2,
            TileMode::Decal => 3,
        }
    }

    /// The tile mode with a code.
    pub open spec fn of_code(n: u8) -> Option<TileMode> {
        match n {
            0 => Some(TileMode::Clamp),
            1 => Some(TileMode::Repeat),
            2 => Some(TileMode::Mirror),
            3 => Some(TileMode::Decal),
            _ => None,
        }
    }

    /// The code of a tile mode.
    pub fn to_u8(self) -> (n: u8)
        ensures
            n == self.code(),
    {
        match self {
            TileMode::Clamp => 0,
            TileMode::Repeat => 1,
            TileMode::Mirror => 2,
            TileMode::Decal => 3,
        }
    }

    /// The tile mode with a code.
    pub fn from_u8(n: u8) -> (r: Option<TileMode>)
        ensures
            r == TileMode::of_code(n),
    {
        match n {
            0 => Some(TileMode::Clamp),
            1 => Some(TileMode::Repeat),
            2 => Some(TileMode::Mirror),
            3 => Some(TileMode::Decal),
            _ => None,
        }
    }
}

impl FilterMode {
    /// The code of a filter mode.
    pub open spec fn code(self) -> u8 {
        match self {
            FilterMode::Nearest => 0,
            FilterMode::Linear => 1,
        }
    }

    /// The filter mode with a code.
    pub open spec fn of_code(n: u8) -> Option<FilterMode> {
        match n {
            0 => Some(FilterMode::Nearest),
            1 => Some(FilterMode::Linear),
            _ => None,
        }
    }

    /// The code of a filter mode.
    pub fn to_u8(self) -> (n: u8)
        ensures
            n == self.code(),
    {
        match self {
            FilterMode::Nearest => 0,
            FilterMode::Linear => 1,
        }
    }

    /// The filter mode with a code.
    pub fn from_u8(n: u8) -> (r: Option<FilterMode>)
        ensures
            r == FilterMode::of_code(n),
    {
        match n {
            0 => Some(FilterMode::Nearest),
            1 => Some(FilterMode::Linear),
            _ => None,
        }
    }
}

impl MipmapMode {
    /// The code of a mipmap mode.
    pub open spec fn code(self) -> u8 {
        match self {
            MipmapMode::Off => 0,
            MipmapMode::Nearest => 1,
            MipmapMode::Linear => 2,
        }
    }

    /// The mipmap mode with a code.
    pub open spec fn of_code(n: u8) -> Option<MipmapMode> {
        match n {
            0 => Some(MipmapMode::Off),
            1 => Some(MipmapMode::Nearest),
            2 => Some(MipmapMode::Linear),
            _ => None,
        }
    }

    /// The code of a mipmap mode.
    pub fn to_u8(self) -> (n: u8)
        ensures
            n == self.code(),
    {
        match self {
            MipmapMode::Off => 0,
            MipmapMode::Nearest => 1,
            MipmapMode::Linear => 2,
        }
    }

    /// The mipmap mode with a code.
    pub fn from_u8(n: u8) -> (r: Option<MipmapMode>)
        ensures
            r == MipmapMode::of_code(n),
    {
        match n {
            0 => Some(MipmapMode::Off),
            1 => Some(MipmapMode::Nearest),
            2 => Some(MipmapMode::Linear),
            _ => None,
        }
    }
}

impl NoiseType {
    /// The code of a noise type.
    pub open spec fn code(self) -> u8 {
        match self {
            NoiseType::FractalNoise => 0,
            NoiseType::Turbulence => 1,
        }
    }

    /// The noise type with a code.
    pub open spec fn of_code(n: u8) -> Option<NoiseType> {
        match n {
            0 => Some(NoiseType::FractalNoise),
            1 => Some(NoiseType::Turbulence),
            _ => None,
        }
    }

    /// The code of a noise type.
    pub fn to_u8(self) -> (n: u8)
        ensures
            n == self.code(),
    {
        match self {
            NoiseType::FractalNoise => 0,
            NoiseType::Turbulence => 1,
        }
    }

    /// The noise type with a code.
    pub fn from_u8(n: u8) -> (r: Option<NoiseType>)
        ensures
            r == NoiseType::of_code(n),
    {
        match n {
            0 => Some(NoiseType::FractalNoise),
            1 => Some(NoiseType::Turbulence),
            _ => None,
        }
    }
}

impl ColorType {
    /// The code of a color type.
    pub open spec fn code(self) -> u8 {
        match self {
            ColorType::Unknown => 0,
            ColorType::Alpha8 => 1,
            ColorType::Rgb565 => 2,
            ColorType::Argb4444 => 3,
            ColorType::Rgba8888 => 4,
            ColorType::Rgb888x => 5,
            ColorType::Bgra8888 => 6,
            ColorType::Rgba1010102 => 7,
            ColorType::Bgra1010102 => 8,
            ColorType::Rgb101010x => 9,
            ColorType::Bgr101010x => 10,
            ColorType::Gray8 => 11,
            ColorType::RgbaF16 => 12,
            ColorType::RgbaF16Norm => 13,
            ColorType::RgbaF32 => 14,
            ColorType::R8Unorm => 15,
            ColorType::A16Float => 16,
            ColorType::R16G16Float => 17,
            ColorType::A16Unorm => 18,
            ColorType::R16G16Unorm => 19,
            ColorType::R16G16B16A16Unorm => 20,
            ColorType::Srgba8888 => 21,
            ColorType::R8Unorm2 => 22,
        }
    }

    /// The color type with a code.
    pub open spec fn of_code(n: u8) -> Option<ColorType> {
        match n {
            0 => Some(ColorType::Unknown),
            1 => Some(ColorType::Alpha8),
            2 => Some(ColorType::Rgb565),
            3 => Some(ColorType::Argb4444),
            4 => Some(ColorType::Rgba8888),
            5 => Some(ColorType::Rgb888x),
            6 => Some(ColorType::Bgra8888),
            7 => Some(ColorType::Rgba1010102),
            8 => Some(ColorType::Bgra1010102),
            9 => Some(ColorType::Rgb101010x),
            10 => Some(ColorType::Bgr101010x),
            11 => Some(ColorType::Gray8),
            12 => Some(ColorType::RgbaF16),
            13 => Some(ColorType::RgbaF16Norm),
            14 => Some(ColorType::RgbaF32),
            15 => Some(ColorType::R8Unorm),
            16 => Some(ColorType::A16Float),
            17 => Some(ColorType::R16G16Float),
            18 => Some(ColorType::A16Unorm),
            19 => Some(ColorType::R16G16Unorm),
            20 => Some(ColorType::R16G16B16A16Unorm),
            21 => Some(ColorType::Srgba8888),
            22 => Some(ColorType::R8Unorm2),
            _ => None,
        }
    }

    /// The code of a color type.
    pub fn to_u8(self) -> (n: u8)
        ensures
            n == self.code(),
    {
        match self {
            ColorType::Unknown => 0,
            ColorType::Alpha8 => 1,
            ColorType::Rgb565 => 2,
            ColorType::Argb4444 => 3,
            ColorType::Rgba8888 => 4,
            ColorType::Rgb888x => 5,
            ColorType::Bgra8888 => 6,
            ColorType::Rgba1010102 => 7,
            ColorType::Bgra1010102 => 8,
            ColorType::Rgb101010x => 9,
            ColorType::Bgr101010x => 10,
            ColorType::Gray8 => 11,
            ColorType::RgbaF16 => 12,
            ColorType::RgbaF16Norm => 13,
            ColorType::RgbaF32 => 14,
            ColorType::R8Unorm => 15,
            ColorType::A16Float => 16,
            ColorType::R16G16Float => 17,
            ColorType::A16Unorm => 18,
            ColorType::R16G16Unorm => 19,
            ColorType::R16G16B16A16Unorm => 20,
            ColorType::Srgba8888 => 21,
            ColorType::R8Unorm2 => 22,
        }
    }

    /// The color type with a code.
    pub fn from_u8(n: u8) -> (r: Option<ColorType>)
        ensures
            r == ColorType::of_code(n),
    {
        match n {
            0 => Some(ColorType::Unknown),
            1 => Some(ColorType::Alpha8),
            2 => Some(ColorType::Rgb565),
            3 => Some(ColorType::Argb4444),
            4 => Some(ColorType::Rgba8888),
            5 => Some(ColorType::Rgb888x),
            6 => Some(ColorType::Bgra8888),
            7 => Some(ColorType::Rgba1010102),
            8 => Some(ColorType::Bgra1010102),
            9 => Some(ColorType::Rgb101010x),
            10 => Some(ColorType::Bgr101010x),
            11 => Some(ColorType::Gray8),
            12 => Some(ColorType::RgbaF16),
            13 => Some(ColorType::RgbaF16Norm),
            14 => Some(ColorType::RgbaF32),
            15 => Some(ColorType::R8Unorm),
            16 => Some(ColorType::A16Float),
            17 => Some(ColorType::R16G16Float),
            18 => Some(ColorType::A16Unorm),
            19 => Some(ColorType::R16G16Unorm),
            20 => Some(ColorType::R16G16B16A16Unorm),
            21 => Some(ColorType::Srgba8888),
            22 => Some(ColorType::R8Unorm2),
            _ => None,
        }
    }
}

impl AlphaType {
    /// The code of an alpha type.
    pub open spec fn code(self) -> u8 {
        match self {
            AlphaType::Unknown => 0,
            AlphaType::Opaque => 1,
            AlphaType::Premul => 2,
            AlphaType::Unpremul => 3,
        }
    }

    /// The alpha type with a code.
    pub open spec fn of_code(n: u8) -> Option<AlphaType> {
        match n {
            0 => Some(AlphaType::Unknown),
            1 => Some(AlphaType::Opaque),
            2 => Some(AlphaType::Premul),
            3 => Some(AlphaType::Unpremul),
            _ => None,
        }
    }

    /// The code of an alpha type.
    pub fn to_u8(self) -> (n: u8)
        ensures
            n == self.code(),
    {
        match self {
            AlphaType::Unknown => 0,
            AlphaType::Opaque => 1,
            AlphaType::Premul => 2,
            AlphaType::Unpremul => 3,
        }
    }

    /// The alpha type with a code.
    pub fn from_u8(n: u8) -> (r: Option<AlphaType>)
        ensures
            r == AlphaType::of_code(n),
    {
        match n {
            0 => Some(AlphaType::Unknown),
            1 => Some(AlphaType::Opaque),
            2 => Some(AlphaType::Premul),
            3 => Some(AlphaType::Unpremul),
            _ => None,
        }
    }
}

} // verus!
