//! Pixel-level types: [`Hue`] for the sprite's color palette.
//!
//! Each pixel in a frame is either transparent (`0`) or a packed [`Hue`]
//! value (`1..=HUE_COUNT`): the hue at position `byte - 1` of [`ALL_HUES`].

use vstd::prelude::*;

verus! {

/// A named color step in the palette.
///
/// `S0` through `S9` form a brightness ramp from darkest to brightest
/// body color. Eye variants (`EyePupil`, `EyeIris`, `EyeWhite`,
/// `EyeRing`) keep fixed colors regardless of the active theme. Legs
/// and antennae hue-shift along with the body.
#[derive(Debug, Clone, Copy, PartialEq, Eq, Hash, Structural)]
#[non_exhaustive]
pub enum Hue {
    /// Palette slot: rgb(8, 7, 7)
    S0,
    /// Palette slot: rgb(26, 19, 17)
    S1,
    /// Palette slot: rgb(97, 39, 33)
    S2,
    /// Palette slot: rgb(176, 91, 44)
    S3,
    /// Palette slot: rgb(185, 69, 29)
    S4,
    /// Palette slot: rgb(211, 151, 65)
    S5,
    /// Palette slot: rgb(232, 138, 54)
    S6,
    /// Palette slot: rgb(241, 100, 31)
    S7,
    /// Palette slot: rgb(252, 165, 112)
    S8,
    /// Palette slot: rgb(255, 240, 137)
    S9,
    /// Palette slot: rgb(86, 79, 91)
    EyePupil,
    /// Palette slot: rgb(210, 210, 210)
    EyeIris,
    /// Palette slot: rgb(255, 255, 255)
    EyeWhite,
    /// Palette slot: rgb(26, 19, 17)
    Leg,
    /// Palette slot: rgb(20, 16, 16)
    Antenna,
    /// Palette slot: rgb(14, 12, 12)
    EyeRing,
}

/// Total number of [`Hue`] variants.
pub const HUE_COUNT: usize = 16;

/// All [`Hue`] variants in declaration order, for iteration.
pub const ALL_HUES: [Hue; HUE_COUNT] = [
    Hue::S0,
    Hue::S1,
    Hue::S2,
    Hue::S3,
    Hue::S4,
    Hue::S5,
    Hue::S6,
    Hue::S7,
    Hue::S8,
    Hue::S9,
    Hue::EyePupil,
    Hue::EyeIris,
    Hue::EyeWhite,
    Hue::Leg,
    Hue::Antenna,
    Hue::EyeRing,
];

// Packed pixel aliases for frame data (0 = transparent, n = ALL_HUES[n - 1]).
/// Packed `S0`.
pub const _0: u8 = 1;
/// Packed `S1`.
pub const _1: u8 = 2;
/// Packed `S2`.
pub const _2: u8 = 3;
/// Packed `S3`.
pub const _3: u8 = 4;
/// Packed `S4`.
pub const _4: u8 = 5;
/// Packed `S5`.
pub const _5: u8 = 6;
/// Packed `S6`.
pub const _6: u8 = 7;
/// Packed `S7`.
pub const _7: u8 = 8;
/// Packed `S8`.
pub const _8: u8 = 9;
/// Packed `S9`.
pub const _9: u8 = 10;
/// Packed `EyePupil`.
pub const EP: u8 = 11;
/// Packed `EyeIris`.
pub const EI: u8 = 12;
/// Packed `EyeWhite`.
pub const EW: u8 = 13;
/// Packed `Leg`.
pub const _L: u8 = 14;
/// Packed `Antenna`.
pub const _A: u8 = 15;
/// Packed `EyeRing`.
pub const _E: u8 = 16;
/// Packed value of a transparent (empty) pixel.
pub const NN: u8 = 0;

impl Hue {
    /// Position of this hue in [`ALL_HUES`] (its `repr(u8)` discriminant).
    pub open spec fn spec_index(self) -> int {
        match self {
            Hue::S0 => 0,
            Hue::S1 => 1,
            Hue::S2 => 2,
            Hue::S3 => 3,
            Hue::S4 => 4,
            Hue::S5 => 5,
            Hue::S6 => 6,
            Hue::S7 => 7,
            Hue::S8 => 8,
            Hue::S9 => 9,
            Hue::EyePupil => 10,
            Hue::EyeIris => 11,
            Hue::EyeWhite => 12,
            Hue::Leg => 13,
            Hue::Antenna => 14,
            Hue::EyeRing => 15,
        }
    }

    /// Position of this hue in [`ALL_HUES`]; the index of its slot in a theme's table.
    pub fn index(self) -> (i: usize)
        ensures
            i == self.spec_index(),
            i < HUE_COUNT,
    {
        match self {
            Hue::S0 => 0,
            Hue::S1 => 1,
            Hue::S2 => 2,
            Hue::S3 => 3,
            Hue::S4 => 4,
            Hue::S5 => 5,
            Hue::S6 => 6,
            Hue::S7 => 7,
            Hue::S8 => 8,
            Hue::S9 => 9,
            Hue::EyePupil => 10,
            Hue::EyeIris => 11,
            Hue::EyeWhite => 12,
            Hue::Leg => 13,
            Hue::Antenna => 14,
            Hue::EyeRing => 15,
        }
    }

    /// The canonical RGB triple of this hue.
    pub open spec fn spec_rgb(self) -> (u8, u8, u8) {
        match self {
            Hue::S0 => (8, 7, 7),
            Hue::S1 => (26, 19, 17),
            Hue::S2 => (97, 39, 33),
            Hue::S3 => (176, 91, 44),
            Hue::S4 => (185, 69, 29),
            Hue::S5 => (211, 151, 65),
            Hue::S6 => (232, 138, 54),
            Hue::S7 => (241, 100, 31),
            Hue::S8 => (252, 165, 112),
            Hue::S9 => (255, 240, 137),
            Hue::EyePupil => (86, 79, 91),
            Hue::EyeIris => (210, 210, 210),
            Hue::EyeWhite => (255, 255, 255),
            Hue::Leg => (26, 19, 17),
            Hue::Antenna => (20, 16, 16),
            Hue::EyeRing => (14, 12, 12),
        }
    }

    /// The canonical RGB triple for this hue in the unshifted palette.
    pub fn rgb(self) -> (c: (u8, u8, u8))
        ensures
            c == self.spec_rgb(),
    {
        match self {
            Hue::S0 => (8, 7, 7),
            Hue::S1 => (26, 19, 17),
            Hue::S2 => (97, 39, 33),
            Hue::S3 => (176, 91, 44),
            Hue::S4 => (185, 69, 29),
            Hue::S5 => (211, 151, 65),
            Hue::S6 => (232, 138, 54),
            Hue::S7 => (241, 100, 31),
            Hue::S8 => (252, 165, 112),
            Hue::S9 => (255, 240, 137),
            Hue::EyePupil => (86, 79, 91),
            Hue::EyeIris => (210, 210, 210),
            Hue::EyeWhite => (255, 255, 255),
            Hue::Leg => (26, 19, 17),
            Hue::Antenna => (20, 16, 16),
            Hue::EyeRing => (14, 12, 12),
        }
    }

    /// Whether this hue is an eye element, whose color themes never shift.
    pub open spec fn spec_is_structural(self) -> bool {
        ||| self == Hue::EyePupil
        ||| self == Hue::EyeIris
        ||| self == Hue::EyeWhite
        ||| self == Hue::EyeRing
    }

    /// Returns `true` if this hue represents an eye element whose color
    /// should not be shifted by themes. Legs and antennae DO shift with
    /// the body so the whole sprite recolors consistently.
    pub fn is_structural(self) -> (b: bool)
        ensures
            b == self.spec_is_structural(),
    {
        match self {
            Hue::EyePupil | Hue::EyeIris | Hue::EyeWhite | Hue::EyeRing => true,
            _ => false,
        }
    }

    /// The variant's name, as the hue is displayed.
    pub open spec fn spec_name(self) -> &'static str {
        match self {
            Hue::S0 => "S0",
            Hue::S1 => "S1",
            Hue::S2 => "S2",
            Hue::S3 => "S3",
            Hue::S4 => "S4",
            Hue::S5 => "S5",
            Hue::S6 => "S6",
            Hue::S7 => "S7",
            Hue::S8 => "S8",
            Hue::S9 => "S9",
            Hue::EyePupil => "EyePupil",
            Hue::EyeIris => "EyeIris",
            Hue::EyeWhite => "EyeWhite",
            Hue::Leg => "Leg",
            Hue::Antenna => "Antenna",
            Hue::EyeRing => "EyeRing",
        }
    }

    /// The variant's name, as the hue is displayed (for example `EyeRing`).
    pub fn name(self) -> (s: &'static str)
        ensures
            s@ == self.spec_name()@,
    {
        match self {
            Hue::S0 => "S0",
            Hue::S1 => "S1",
            Hue::S2 => "S2",
            Hue::S3 => "S3",
            Hue::S4 => "S4",
            Hue::S5 => "S5",
            Hue::S6 => "S6",
            Hue::S7 => "S7",
            Hue::S8 => "S8",
            Hue::S9 => "S9",
            Hue::EyePupil => "EyePupil",
            Hue::EyeIris => "EyeIris",
            Hue::EyeWhite => "EyeWhite",
            Hue::Leg => "Leg",
            Hue::Antenna => "Antenna",
            Hue::EyeRing => "EyeRing",
        }
    }
}

/// The hue a packed pixel byte stands for: `None` for `0` and for any byte
/// past `HUE_COUNT`, else the variant at position `byte - 1` of [`ALL_HUES`].
pub open spec fn spec_unpack_pixel(byte: u8) -> Option<Hue> {
    if byte == 0 || byte as int > HUE_COUNT as int {
        None
    } else {
        Some(ALL_HUES[byte as int - 1])
    }
}

/// Decode a packed pixel byte into `Option<Hue>`.
///
/// `0` maps to `None` (transparent). `1..=HUE_COUNT` maps to the corresponding
/// variant in `ALL_HUES`; anything larger is `None` too.
pub fn unpack_pixel(byte: u8) -> (h: Option<Hue>)
    ensures
        h == spec_unpack_pixel(byte),
{
    if byte == 0 || byte as usize > HUE_COUNT {
        None
    } else {
        Some(ALL_HUES[(byte - 1) as usize])
    }
}

/// Every hue sits in [`ALL_HUES`] at its own index, and the index is below `HUE_COUNT`.
pub proof fn lemma_all_hues_index(h: Hue)
    ensures
        0 <= h.spec_index() < HUE_COUNT,
        ALL_HUES[h.spec_index()] == h,
{
}

/// Each position of [`ALL_HUES`] holds the hue whose index is that position.
pub proof fn lemma_index_of_all_hues(i: int)
    requires
        0 <= i < HUE_COUNT,
    ensures
        ALL_HUES[i].spec_index() == i,
{
}

/// Packing a hue as `index + 1` and unpacking it gives the same hue back,
/// and a byte unpacks to a hue exactly when it lies in `1..=HUE_COUNT`,
/// in which case packing that hue gives the byte back.
pub proof fn lemma_pack_unpack_round_trip(h: Hue, byte: u8)
    ensures
        spec_unpack_pixel((h.spec_index() + 1) as u8) == Some(h),
        spec_unpack_pixel(byte) is Some <==> 1 <= byte <= HUE_COUNT,
        spec_unpack_pixel(byte) matches Some(g) ==> g.spec_index() + 1 == byte,
{
    lemma_all_hues_index(h);
    if 1 <= byte <= HUE_COUNT {
        lemma_index_of_all_hues(byte - 1);
    }
}

/// The canonical palette, the sprite's original colors: `S0` to `S9` are
/// the body shades from near-black to pale yellow, then the eye colors,
/// the legs and the antennae.
pub proof fn lemma_canonical_palette()
    ensures
        Hue::S0.spec_rgb() == (8u8, 7u8, 7u8),
        Hue::S1.spec_rgb() == (26u8, 19u8, 17u8),
        Hue::S2.spec_rgb() == (97u8, 39u8, 33u8),
        Hue::S3.spec_rgb() == (176u8, 91u8, 44u8),
        Hue::S4.spec_rgb() == (185u8, 69u8, 29u8),
        Hue::S5.spec_rgb() == (211u8, 151u8, 65u8),
        Hue::S6.spec_rgb() == (232u8, 138u8, 54u8),
        Hue::S7.spec_rgb() == (241u8, 100u8, 31u8),
        Hue::S8.spec_rgb() == (252u8, 165u8, 112u8),
        Hue::S9.spec_rgb() == (255u8, 240u8, 137u8),
        Hue::EyePupil.spec_rgb() == (86u8, 79u8, 91u8),
        Hue::EyeIris.spec_rgb() == (210u8, 210u8, 210u8),
        Hue::EyeWhite.spec_rgb() == (255u8, 255u8, 255u8),
        Hue::Leg.spec_rgb() == (26u8, 19u8, 17u8),
        Hue::Antenna.spec_rgb() == (20u8, 16u8, 16u8),
        Hue::EyeRing.spec_rgb() == (14u8, 12u8, 12u8),
{
}

/// Exactly the four eye hues are structural (keep their color in every
/// theme); the body shades, the legs and the antennae are not.
pub proof fn lemma_structural_hues(h: Hue)
    ensures
        h.spec_is_structural() <==> (h == Hue::EyePupil || h == Hue::EyeIris || h == Hue::EyeWhite
            || h == Hue::EyeRing),
        !h.spec_is_structural() <==> (h == Hue::S0 || h == Hue::S1 || h == Hue::S2 || h == Hue::S3
            || h == Hue::S4 || h == Hue::S5 || h == Hue::S6 || h == Hue::S7 || h == Hue::S8 || h
            == Hue::S9 || h == Hue::Leg || h == Hue::Antenna),
{
}

/// The packed pixel bytes of the frame data stand for their hues: `NN` is
/// transparent, and each alias names its hue.
pub proof fn lemma_pixel_aliases()
    ensures
        spec_unpack_pixel(NN) is None,
        spec_unpack_pixel(_0) == Some(Hue::S0),
        spec_unpack_pixel(_1) == Some(Hue::S1),
        spec_unpack_pixel(_2) == Some(Hue::S2),
        spec_unpack_pixel(_3) == Some(Hue::S3),
        spec_unpack_pixel(_4) == Some(Hue::S4),
        spec_unpack_pixel(_5) == Some(Hue::S5),
        spec_unpack_pixel(_6) == Some(Hue::S6),
        spec_unpack_pixel(_7) == Some(Hue::S7),
        spec_unpack_pixel(_8) == Some(Hue::S8),
        spec_unpack_pixel(_9) == Some(Hue::S9),
        spec_unpack_pixel(EP) == Some(Hue::EyePupil),
        spec_unpack_pixel(EI) == Some(Hue::EyeIris),
        spec_unpack_pixel(EW) == Some(Hue::EyeWhite),
        spec_unpack_pixel(_L) == Some(Hue::Leg),
        spec_unpack_pixel(_A) == Some(Hue::Antenna),
        spec_unpack_pixel(_E) == Some(Hue::EyeRing),
{
}

/// The palette positions follow the declaration order of the hues, the
/// order of a theme's table.
pub proof fn lemma_hue_positions()
    ensures
        Hue::S0.spec_index() == 0,
        Hue::S1.spec_index() == 1,
        Hue::S2.spec_index() == 2,
        Hue::S3.spec_index() == 3,
        Hue::S4.spec_index() == 4,
        Hue::S5.spec_index() == 5,
        Hue::S6.spec_index() == 6,
        Hue::S7.spec_index() == 7,
        Hue::S8.spec_index() == 8,
        Hue::S9.spec_index() == 9,
        Hue::EyePupil.spec_index() == 10,
        Hue::EyeIris.spec_index() == 11,
        Hue::EyeWhite.spec_index() == 12,
        Hue::Leg.spec_index() == 13,
        Hue::Antenna.spec_index() == 14,
        Hue::EyeRing.spec_index() == 15,
{
}

} // verus!
