//! Colors for the values of a normalized grid: a gray ramp, and terrain in
//! seven bands.

use vstd::prelude::*;
use crate::fixed::{div_spec, Fixed, ONE};

verus! {

/// A color of three channels.
#[derive(Clone, Copy, Debug, PartialEq, Eq, Structural)]
pub struct Rgb {
    pub r: u8,
    pub g: u8,
    pub b: u8,
}

/// The bands of terrain, from the lowest to the highest.
#[derive(Clone, Copy, Debug, PartialEq, Eq, Structural)]
pub enum Band {
    Ocean,
    ShallowWater,
    Plains,
    Forest,
    Mountain,
    TallMountain,
    Snow,
}

/// The units of `n / 100`.
pub open spec fn hundredths(n: int) -> int {
    div_spec(n, 100)
}

/// The band of the value `v`: the first in the table whose limit lies above
/// `v`, and snow where none does.
pub open spec fn band_spec(v: int) -> Band {
    if v < hundredths(50) {
        Band::Ocean
    } else if v < hundredths(55) {
        Band::ShallowWater
    } else if v < hundredths(60) {
        Band::Plains
    } else if v < hundredths(80) {
        Band::Forest
    } else if v < hundredths(85) {
        Band::Mountain
    } else if v < hundredths(90) {
        Band::TallMountain
    } else {
        Band::Snow
    }
}

/// The value `v` has reached the limit of every band before `band`.
spec fn passed(v: int, band: Band) -> bool {
    forall|lower: Band|
        #![trigger lower.rank()]
        lower.rank() < band.rank() ==> (lower.limit_spec() matches Some(n) && v >= hundredths(n))
}

/// The color of the value `v` in terrain colors.
pub open spec fn terracolor_spec(v: int) -> Rgb {
    band_spec(v).color_spec()
}

/// The gray level of the value `v`: 256 levels of equal width from 0 up to
/// 1, with everything below in the first and everything above in the last.
pub open spec fn grayscale_spec(v: int) -> u8 {
    let level = v * 256 / (ONE as int);
    if level < 0 {
        0
    } else if level > 255 {
        255
    } else {
        level as u8
    }
}

impl Band {
    /// The color of the band.
    pub open spec fn color_spec(self) -> Rgb {
        match self {
            Band::Ocean => Rgb { r: 0x20, g: 0x20, b: 0xFF },
            Band::ShallowWater => Rgb { r: 0x40, g: 0x40, b: 0xFF },
            Band::Plains => Rgb { r: 0x40, g: 0xA0, b: 0x40 },
            Band::Forest => Rgb { r: 0x30, g: 0x80, b: 0x30 },
            Band::Mountain => Rgb { r: 0x80, g: 0x80, b: 0x80 },
            Band::TallMountain => Rgb { r: 0x60, g: 0x60, b: 0x60 },
            Band::Snow => Rgb { r: 0xFF, g: 0xFF, b: 0xFF },
        }
    }

    /// The place of the band in the table, counted from 0.
    pub open spec fn rank(self) -> nat {
        match self {
            Band::Ocean => 0,
            Band::ShallowWater => 1,
            Band::Plains => 2,
            Band::Forest => 3,
            Band::Mountain => 4,
            Band::TallMountain => 5,
            Band::Snow => 6,
        }
    }

    /// The limit of the band in hundredths: the band holds no value from the
    /// limit on. Snow has no limit.
    pub open spec fn limit_spec(self) -> Option<int> {
        match self {
            Band::Ocean => Some(50int),
            Band::ShallowWater => Some(55int),
            Band::Plains => Some(60int),
            Band::Forest => Some(80int),
            Band::Mountain => Some(85int),
            Band::TallMountain => Some(90int),
            Band::Snow => None,
        }
    }

    /// The color of the band.
    pub fn color(self) -> (c: Rgb)
        ensures
            c == self.color_spec(),
    {
        match self {
            Band::Ocean => Rgb { r: 0x20, g: 0x20, b: 0xFF },
            Band::ShallowWater => Rgb { r: 0x40, g: 0x40, b: 0xFF },
            Band::Plains => Rgb { r: 0x40, g: 0xA0, b: 0x40 },
            Band::Forest => Rgb { r: 0x30, g: 0x80, b: 0x30 },
            Band::Mountain => Rgb { r: 0x80, g: 0x80, b: 0x80 },
            Band::TallMountain => Rgb { r: 0x60, g: 0x60, b: 0x60 },
            Band::Snow => Rgb { r: 0xFF, g: 0xFF, b: 0xFF },
        }
    }

    /// The limit of the band, and the band that follows it in the table.
    pub fn limit(self) -> (r: Option<(Fixed, Band)>)
        ensures
            match r {
                Some((limit, next)) => {
                    &&& self.limit_spec() matches Some(n) && limit@ == hundredths(n)
                    &&& next.rank() == self.rank() + 1
                },
                None => self == Band::Snow,
            },
    {
        match self {
            Band::Ocean => Some((Fixed::from_ratio(50, 100), Band::ShallowWater)),
            Band::ShallowWater => Some((Fixed::from_ratio(55, 100), Band::Plains)),
            Band::Plains => Some((Fixed::from_ratio(60, 100), Band::Forest)),
            Band::Forest => Some((Fixed::from_ratio(80, 100), Band::Mountain)),
            Band::Mountain => Some((Fixed::from_ratio(85, 100), Band::TallMountain)),
            Band::TallMountain => Some((Fixed::from_ratio(90, 100), Band::Snow)),
            Band::Snow => None,
        }
    }
}

/// The band of the value `v`.
pub fn band_of(v: Fixed) -> (band: Band)
    ensures
        band == band_spec(v@),
{
    let mut band: Band = Band::Ocean;
    loop
        invariant
            passed(v@, band),
        ensures
            band == band_spec(v@),
        decreases 6 - band.rank(),
    {
        match band.limit() {
            Some((limit, next)) => {
                if v.bits < limit.bits {
                    proof {
                        lemma_band_found(v@, band);
                    }
                    break ;
                }
                proof {
                    assert forall|lower: Band|
                        #![trigger lower.rank()]
                        lower.rank() < next.rank() implies (lower.limit_spec() matches Some(n)
                        && v@ >= hundredths(n)) by {
                        if lower.rank() == band.rank() {
                            assert(lower == band);
                        }
                    }
                }
                band = next;
            },
            None => {
                proof {
                    lemma_band_found(v@, band);
                }
                break ;
            },
        }
    }
    band
}

/// A band is the band of `v` where `v` has reached the limit of every band
/// before it and lies below its own.
proof fn lemma_band_found(v: int, band: Band)
    requires
        passed(v, band),
        band.limit_spec() matches Some(n) ==> v < hundredths(n),
    ensures
        band == band_spec(v),
{
    assert(Band::Ocean.rank() == 0);
    assert(Band::ShallowWater.rank() == 1);
    assert(Band::Plains.rank() == 2);
    assert(Band::Forest.rank() == 3);
    assert(Band::Mountain.rank() == 4);
    assert(Band::TallMountain.rank() == 5);
}

/// The color of the value `v` in terrain colors.
pub fn terracolor(v: Fixed) -> (c: Rgb)
    ensures
        c == terracolor_spec(v@),
{
    band_of(v).color()
}

/// The gray level of the value `v`.
pub fn grayscale(v: Fixed) -> (level: u8)
    ensures
        level == grayscale_spec(v@),
{
    if v.bits < 0 {
        assert(v@ * 256 / (ONE as int) < 0);
        0
    } else {
        let level: i128 = v.bits as i128 * 256 / ONE as i128;
        if level > 255 {
            255
        } else {
            level as u8
        }
    }
}

/// The gray level of 0 is 0, that of 1 is 255, and a greater value never
/// has a smaller gray level.
pub proof fn lemma_grayscale_monotonic(a: int, b: int)
    requires
        a <= b,
    ensures
        grayscale_spec(0) == 0,
        grayscale_spec(ONE as int) == 255,
        grayscale_spec(a) <= grayscale_spec(b),
{
}

} // verus!
