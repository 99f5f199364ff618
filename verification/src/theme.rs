//! Theme system: maps each [`Hue`] to a resolved terminal RGB color.

use vstd::prelude::*;
use crate::pixel::{Hue, ALL_HUES, HUE_COUNT, lemma_all_hues_index, lemma_index_of_all_hues};
use crate::bytes::bytes_equal;
use crate::color::{parse_hex_color, spec_parse_hex_color};
use vstd::string::StringSliceAdditionalSpecFns;

verus! {

/// A resolved color lookup table for the palette.
///
/// The animation loop indexes into the table by [`Hue::index`] to avoid
/// per-pixel branching.
#[derive(Debug, Clone, Copy, PartialEq)]
pub struct Theme {
    /// Color for each [`Hue`] variant, indexed by [`Hue::index`].
    pub lut: [(u8, u8, u8); HUE_COUNT],
}

/// The canonical palette: slot `i` holds the RGB triple of `ALL_HUES[i]`.
pub open spec fn spec_classic_lut() -> Seq<(u8, u8, u8)> {
    Seq::new(HUE_COUNT as nat, |i: int| ALL_HUES[i].spec_rgb())
}

/// The target color that a shifted preset rotates the palette to, by the
/// bytes of its name: `None` for `classic` and for names that are no preset.
pub open spec fn spec_preset_target(name: Seq<u8>) -> Option<(u8, u8, u8)> {
    if name == "ocean".spec_bytes() {
        Some((0x20, 0x90, 0xDD))
    } else if name == "forest".spec_bytes() {
        Some((0x30, 0xA8, 0x40))
    } else if name == "neon".spec_bytes() {
        Some((0xFF, 0x00, 0xFF))
    } else if name == "gold".spec_bytes() {
        Some((0xFF, 0xB4, 0x3C))
    } else if name == "ice".spec_bytes() {
        Some((0x88, 0xCC, 0xFF))
    } else if name == "lava".spec_bytes() {
        Some((0xFF, 0x33, 0x00))
    } else if name == "midnight".spec_bytes() {
        Some((0x66, 0x33, 0x99))
    } else if name == "barbie".spec_bytes() {
        Some((0xE0, 0x21, 0x8A))
    } else {
        None
    }
}

/// Whether the bytes name a preset (matching is exact and case-sensitive).
pub open spec fn spec_is_preset_name(name: Seq<u8>) -> bool {
    name == "classic".spec_bytes() || spec_preset_target(name) is Some
}

/// The `barbie` preset's table: its shifted base with darker antennae and legs.
pub open spec fn spec_barbie_lut(base: Seq<(u8, u8, u8)>) -> Seq<(u8, u8, u8)> {
    base.update(Hue::Antenna.spec_index(), (0x80, 0x35, 0x5A)).update(
        Hue::Leg.spec_index(),
        (0x66, 0x20, 0x40),
    )
}

impl Theme {
    /// All recognized preset names.
    pub const PRESET_NAMES: [&'static str; 9] = [
        "classic",
        "ocean",
        "forest",
        "neon",
        "gold",
        "ice",
        "lava",
        "midnight",
        "barbie",
    ];

    /// The color that this theme gives a hue.
    pub open spec fn spec_color(self, hue: Hue) -> (u8, u8, u8) {
        self.lut@[hue.spec_index()]
    }

    /// Build a theme from the shifted color of each body hue.
    ///
    /// Structural (eye) hues keep their canonical RGB; every other hue takes
    /// the color that `shifted` gives it. This is the table-building half of
    /// rotating the palette towards a target color: `shifted` is the HSB hue
    /// rotation of the body hues.
    pub fn from_resolved<F: Fn(Hue) -> (u8, u8, u8)>(shifted: F) -> (t: Self)
        requires
            forall|h: Hue| #[trigger] call_requires(shifted, (h,)),
        ensures
            forall|i: int|
                0 <= i < HUE_COUNT ==> if ALL_HUES[i].spec_is_structural() {
                    #[trigger] t.lut@[i] == ALL_HUES[i].spec_rgb()
                } else {
                    call_ensures(shifted, (ALL_HUES[i],), t.lut@[i])
                },
    {
        let mut lut = [(0u8, 0u8, 0u8); 16];
        let mut i: usize = 0;
        while i < HUE_COUNT
            invariant
                i <= HUE_COUNT,
                forall|h: Hue| #[trigger] call_requires(shifted, (h,)),
                forall|j: int|
                    0 <= j < i ==> if ALL_HUES[j].spec_is_structural() {
                        #[trigger] lut@[j] == ALL_HUES[j].spec_rgb()
                    } else {
                        call_ensures(shifted, (ALL_HUES[j],), lut@[j])
                    },
            decreases HUE_COUNT - i,
        {
            let hue = ALL_HUES[i];
            let c = if hue.is_structural() {
                hue.rgb()
            } else {
                shifted(hue)
            };
            proof {
                lemma_index_of_all_hues(i as int);
            }
            lut[hue.index()] = c;
            i = i + 1;
        }
        Self { lut }
    }

    /// The canonical palette: no shifting, canonical RGB values.
    pub fn classic() -> (t: Self)
        ensures
            t.lut@ == spec_classic_lut(),
    {
        let mut lut = [(0u8, 0u8, 0u8); 16];
        let mut i: usize = 0;
        while i < HUE_COUNT
            invariant
                i <= HUE_COUNT,
                forall|j: int| 0 <= j < i ==> #[trigger] lut@[j] == ALL_HUES[j].spec_rgb(),
            decreases HUE_COUNT - i,
        {
            let hue = ALL_HUES[i];
            proof {
                lemma_index_of_all_hues(i as int);
            }
            lut[hue.index()] = hue.rgb();
            i = i + 1;
        }
        let t = Self { lut };
        assert(t.lut@ =~= spec_classic_lut());
        t
    }

    /// Override the color for a specific hue in this theme.
    ///
    /// Useful for tweaking individual elements (e.g. brightening antennae)
    /// without changing the canonical palette.
    pub fn set_color(&mut self, hue: Hue, r: u8, g: u8, b: u8)
        ensures
            final(self).lut@ == old(self).lut@.update(hue.spec_index(), (r, g, b)),
    {
        let i = hue.index();
        self.lut[i] = (r, g, b);
    }

    /// Build from a named preset.
    ///
    /// Returns `None` if the name is not recognized. Available presets:
    /// `classic`, `ocean`, `forest`, `neon`, `gold`, `ice`, `lava`, `midnight`, `barbie`.
    /// Every preset but `classic` is the palette rotated towards the preset's
    /// target color, which `from_color` builds from that color.
    pub fn preset<F: Fn(u8, u8, u8) -> Theme>(name: &str, from_color: F) -> (t: Option<Self>)
        requires
            forall|r: u8, g: u8, b: u8| #[trigger] call_requires(from_color, (r, g, b)),
        ensures
            name.spec_bytes() == "classic".spec_bytes() ==> (t matches Some(th)
                && th.lut@ == spec_classic_lut()),
            spec_preset_target(name.spec_bytes()) matches Some(c) ==> t matches Some(th) && (
            if name.spec_bytes() == "barbie".spec_bytes() {
                exists|base: Theme|
                    call_ensures(from_color, c, base) && th.lut@ == spec_barbie_lut(base.lut@)
            } else {
                call_ensures(from_color, c, th)
            }),
            !spec_is_preset_name(name.spec_bytes()) ==> t is None,
    {
        let n = name.as_bytes();
        proof {
            lemma_preset_name_bytes();
        }
        if bytes_equal(n, "classic".as_bytes()) {
            Some(Self::classic())
        } else if bytes_equal(n, "ocean".as_bytes()) {
            Some(from_color(0x20, 0x90, 0xDD))
        } else if bytes_equal(n, "forest".as_bytes()) {
            Some(from_color(0x30, 0xA8, 0x40))
        } else if bytes_equal(n, "neon".as_bytes()) {
            Some(from_color(0xFF, 0x00, 0xFF))
        } else if bytes_equal(n, "gold".as_bytes()) {
            Some(from_color(0xFF, 0xB4, 0x3C))
        } else if bytes_equal(n, "ice".as_bytes()) {
            Some(from_color(0x88, 0xCC, 0xFF))
        } else if bytes_equal(n, "lava".as_bytes()) {
            Some(from_color(0xFF, 0x33, 0x00))
        } else if bytes_equal(n, "midnight".as_bytes()) {
            Some(from_color(0x66, 0x33, 0x99))
        } else if bytes_equal(n, "barbie".as_bytes()) {
            let mut t = from_color(0xE0, 0x21, 0x8A);
            let ghost base = t;
            t.set_color(Hue::Antenna, 0x80, 0x35, 0x5A);
            t.set_color(Hue::Leg, 0x66, 0x20, 0x40);
            assert(t.lut@ == spec_barbie_lut(base.lut@));
            Some(t)
        } else {
            None
        }
    }

    /// Look up the resolved RGB color for a given hue.
    pub fn color(&self, hue: Hue) -> (c: (u8, u8, u8))
        ensures
            c == self.spec_color(hue),
    {
        self.lut[hue.index()]
    }
}

impl Default for Theme {
    /// Returns the classic (unshifted) palette.
    fn default() -> (t: Self)
        ensures
            t.lut@ == spec_classic_lut(),
    {
        Self::classic()
    }
}

/// The bytes of each preset name.
pub proof fn lemma_preset_name_bytes()
    ensures
        "classic".spec_bytes() == seq![99u8, 108u8, 97u8, 115u8, 115u8, 105u8, 99u8],
        "ocean".spec_bytes() == seq![111u8, 99u8, 101u8, 97u8, 110u8],
        "forest".spec_bytes() == seq![102u8, 111u8, 114u8, 101u8, 115u8, 116u8],
        "neon".spec_bytes() == seq![110u8, 101u8, 111u8, 110u8],
        "gold".spec_bytes() == seq![103u8, 111u8, 108u8, 100u8],
        "ice".spec_bytes() == seq![105u8, 99u8, 101u8],
        "lava".spec_bytes() == seq![108u8, 97u8, 118u8, 97u8],
        "midnight".spec_bytes() == seq![109u8, 105u8, 100u8, 110u8, 105u8, 103u8, 104u8, 116u8],
        "barbie".spec_bytes() == seq![98u8, 97u8, 114u8, 98u8, 105u8, 101u8],
{
    reveal_strlit("classic");
    vstd::string::is_ascii_spec_bytes("classic");
    assert("classic".spec_bytes() =~= seq![99u8, 108u8, 97u8, 115u8, 115u8, 105u8, 99u8]);
    reveal_strlit("ocean");
    vstd::string::is_ascii_spec_bytes("ocean");
    assert("ocean".spec_bytes() =~= seq![111u8, 99u8, 101u8, 97u8, 110u8]);
    reveal_strlit("forest");
    vstd::string::is_ascii_spec_bytes("forest");
    assert("forest".spec_bytes() =~= seq![102u8, 111u8, 114u8, 101u8, 115u8, 116u8]);
    reveal_strlit("neon");
    vstd::string::is_ascii_spec_bytes("neon");
    assert("neon".spec_bytes() =~= seq![110u8, 101u8, 111u8, 110u8]);
    reveal_strlit("gold");
    vstd::string::is_ascii_spec_bytes("gold");
    assert("gold".spec_bytes() =~= seq![103u8, 111u8, 108u8, 100u8]);
    reveal_strlit("ice");
    vstd::string::is_ascii_spec_bytes("ice");
    assert("ice".spec_bytes() =~= seq![105u8, 99u8, 101u8]);
    reveal_strlit("lava");
    vstd::string::is_ascii_spec_bytes("lava");
    assert("lava".spec_bytes() =~= seq![108u8, 97u8, 118u8, 97u8]);
    reveal_strlit("midnight");
    vstd::string::is_ascii_spec_bytes("midnight");
    assert("midnight".spec_bytes() =~= seq![109u8, 105u8, 100u8, 110u8, 105u8, 103u8, 104u8, 116u8]);
    reveal_strlit("barbie");
    vstd::string::is_ascii_spec_bytes("barbie");
    assert("barbie".spec_bytes() =~= seq![98u8, 97u8, 114u8, 98u8, 105u8, 101u8]);
}

/// The names in [`Theme::PRESET_NAMES`] are exactly the names that
/// [`Theme::preset`] recognizes.
pub proof fn lemma_preset_names_recognized(name: Seq<u8>)
    ensures
        spec_is_preset_name(name) <==> exists|i: int|
            0 <= i < 9 && #[trigger] Theme::PRESET_NAMES[i].spec_bytes() == name,
{
    assert(Theme::PRESET_NAMES[0].spec_bytes() == "classic".spec_bytes());
    assert(Theme::PRESET_NAMES[1].spec_bytes() == "ocean".spec_bytes());
    assert(Theme::PRESET_NAMES[2].spec_bytes() == "forest".spec_bytes());
    assert(Theme::PRESET_NAMES[3].spec_bytes() == "neon".spec_bytes());
    assert(Theme::PRESET_NAMES[4].spec_bytes() == "gold".spec_bytes());
    assert(Theme::PRESET_NAMES[5].spec_bytes() == "ice".spec_bytes());
    assert(Theme::PRESET_NAMES[6].spec_bytes() == "lava".spec_bytes());
    assert(Theme::PRESET_NAMES[7].spec_bytes() == "midnight".spec_bytes());
    assert(Theme::PRESET_NAMES[8].spec_bytes() == "barbie".spec_bytes());
}

/// The classic theme gives every hue its canonical RGB triple.
pub proof fn lemma_classic_is_canonical(t: Theme, h: Hue)
    requires
        t.lut@ == spec_classic_lut(),
    ensures
        t.spec_color(h) == h.spec_rgb(),
{
    lemma_all_hues_index(h);
}

/// `s` with the ASCII letters `A-Z` turned to lower case.
pub open spec fn spec_ascii_lower(s: Seq<u8>) -> Seq<u8> {
    s.map_values(|c: u8| if 65 <= c <= 90 { (c + 32) as u8 } else { c })
}

/// What a color argument of the command line names.
#[derive(Debug, Clone, Copy, PartialEq, Eq)]
pub enum ColorArg {
    /// `auto`, in any case: the terminal's foreground color.
    Auto,
    /// A preset, by its name in [`Theme::PRESET_NAMES`].
    Preset(&'static str),
    /// A hex color `RRGGBB` or `#RRGGBB`.
    Hex(u8, u8, u8),
    /// Anything else.
    Unknown,
}

/// Whether `r` is what the argument with bytes `s` names: `auto` ignoring
/// ASCII case first, then a preset name ignoring ASCII case, then a hex
/// color, else nothing.
pub open spec fn spec_color_arg(s: Seq<u8>, r: ColorArg) -> bool {
    let lower = spec_ascii_lower(s);
    if lower == "auto".spec_bytes() {
        r == ColorArg::Auto
    } else if spec_is_preset_name(lower) {
        r matches ColorArg::Preset(name) && name.spec_bytes() == lower
    } else {
        match spec_parse_hex_color(s) {
            Some((red, green, blue)) => r == ColorArg::Hex(red, green, blue),
            None => r == ColorArg::Unknown,
        }
    }
}

impl ColorArg {
    /// Classify a color argument: `auto`, a preset name (both matched
    /// ignoring ASCII case; no other character lower-cases to a letter of
    /// these names), a hex color, or unknown.
    pub fn parse(arg: &str) -> (r: ColorArg)
        ensures
            spec_color_arg(arg.spec_bytes(), r),
    {
        let bytes = arg.as_bytes();
        let n = bytes.len();
        let mut lower: Vec<u8> = Vec::with_capacity(n);
        let mut i: usize = 0;
        while i < n
            invariant
                n == bytes@.len(),
                i <= n,
                lower@ == spec_ascii_lower(bytes@).take(i as int),
            decreases n - i,
        {
            let c = bytes[i];
            lower.push(if 65 <= c && c <= 90 { c + 32 } else { c });
            i = i + 1;
            assert(lower@ =~= spec_ascii_lower(bytes@).take(i as int));
        }
        assert(lower@ =~= spec_ascii_lower(bytes@));
        if bytes_equal(lower.as_slice(), "auto".as_bytes()) {
            return ColorArg::Auto;
        }
        proof {
            lemma_preset_names_recognized(lower@);
        }
        let mut k: usize = 0;
        while k < 9
            invariant
                k <= 9,
                lower@ == spec_ascii_lower(arg.spec_bytes()),
                lower@ != "auto".spec_bytes(),
                forall|j: int| 0 <= j < k ==> #[trigger] Theme::PRESET_NAMES[j].spec_bytes() != lower@,
            decreases 9 - k,
        {
            let name = Theme::PRESET_NAMES[k];
            if bytes_equal(lower.as_slice(), name.as_bytes()) {
                proof {
                    lemma_preset_names_recognized(lower@);
                    assert(Theme::PRESET_NAMES[k as int].spec_bytes() == lower@);
                }
                return ColorArg::Preset(name);
            }
            k = k + 1;
        }
        match parse_hex_color(arg) {
            Some((r, g, b)) => ColorArg::Hex(r, g, b),
            None => ColorArg::Unknown,
        }
    }
}

/// Each shifted preset rotates the palette towards its documented target
/// color: ocean `#2090DD`, forest `#30A840`, neon `#FF00FF`, gold
/// `#FFB43C`, ice `#88CCFF`, lava `#FF3300`, midnight `#663399`, barbie
/// `#E0218A`; `classic` is no rotation.
pub proof fn lemma_preset_targets()
    ensures
        spec_preset_target("ocean".spec_bytes()) == Some((0x20u8, 0x90u8, 0xDDu8)),
        spec_preset_target("forest".spec_bytes()) == Some((0x30u8, 0xA8u8, 0x40u8)),
        spec_preset_target("neon".spec_bytes()) == Some((0xFFu8, 0x00u8, 0xFFu8)),
        spec_preset_target("gold".spec_bytes()) == Some((0xFFu8, 0xB4u8, 0x3Cu8)),
        spec_preset_target("ice".spec_bytes()) == Some((0x88u8, 0xCCu8, 0xFFu8)),
        spec_preset_target("lava".spec_bytes()) == Some((0xFFu8, 0x33u8, 0x00u8)),
        spec_preset_target("midnight".spec_bytes()) == Some((0x66u8, 0x33u8, 0x99u8)),
        spec_preset_target("barbie".spec_bytes()) == Some((0xE0u8, 0x21u8, 0x8Au8)),
        spec_preset_target("classic".spec_bytes()) is None,
        spec_is_preset_name("classic".spec_bytes()),
{
    lemma_preset_name_bytes();
}

/// A theme built by [`Theme::from_resolved`] gives every body hue (the
/// shades `S0` to `S9`, the legs and the antennae) the shifted color, and
/// the four eye hues their canonical colors.
pub proof fn lemma_rotation_shifts_body<F: Fn(Hue) -> (u8, u8, u8)>(t: Theme, shifted: F, h: Hue)
    requires
        forall|i: int|
            0 <= i < HUE_COUNT ==> if ALL_HUES[i].spec_is_structural() {
                #[trigger] t.lut@[i] == ALL_HUES[i].spec_rgb()
            } else {
                call_ensures(shifted, (ALL_HUES[i],), t.lut@[i])
            },
    ensures
        (h == Hue::EyePupil || h == Hue::EyeIris || h == Hue::EyeWhite || h == Hue::EyeRing)
            ==> t.spec_color(h) == h.spec_rgb(),
        !(h == Hue::EyePupil || h == Hue::EyeIris || h == Hue::EyeWhite || h == Hue::EyeRing)
            ==> call_ensures(shifted, (h,), t.spec_color(h)),
{
    lemma_all_hues_index(h);
    crate::pixel::lemma_structural_hues(h);
    assert(t.lut@[h.spec_index()] == t.spec_color(h));
}

} // verus!
