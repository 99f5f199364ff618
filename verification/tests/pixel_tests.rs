use scampii::pixel::{unpack_pixel, Hue, ALL_HUES, HUE_COUNT, NN};

#[test]
fn unpack_pixel_round_trip() {
    assert_eq!(unpack_pixel(NN), None);

    for (i, &hue) in ALL_HUES.iter().enumerate() {
        let packed = (i as u8) + 1;
        let unpacked = unpack_pixel(packed);
        assert_eq!(
            unpacked,
            Some(hue),
            "round-trip failed for packed value {packed} (expected {hue:?})"
        );
    }
}

#[test]
fn unpack_pixel_out_of_range() {
    assert_eq!(unpack_pixel((HUE_COUNT as u8) + 1), None);
    assert_eq!(unpack_pixel(255), None);
}

#[test]
fn structural_hues() {
    assert!(!Hue::S0.is_structural());
    assert!(!Hue::S9.is_structural());
    assert!(!Hue::Leg.is_structural());
    assert!(!Hue::Antenna.is_structural());
    assert!(Hue::EyePupil.is_structural());
    assert!(Hue::EyeIris.is_structural());
    assert!(Hue::EyeWhite.is_structural());
    assert!(Hue::EyeRing.is_structural());
}

#[test]
fn hue_index_matches_all_hues() {
    for (i, &hue) in ALL_HUES.iter().enumerate() {
        assert_eq!(hue.index(), i);
        assert_eq!(unpack_pixel((hue.index() + 1) as u8), Some(hue));
    }
    assert_eq!(Hue::S0.rgb(), (8, 7, 7));
    assert_eq!(Hue::EyeRing.rgb(), (14, 12, 12));
    assert_eq!(Hue::Leg.rgb(), Hue::S1.rgb());
}

#[test]
fn hue_name_matches_variant() {
    assert_eq!(Hue::EyeRing.name(), "EyeRing");
    assert_eq!(Hue::S0.name(), "S0");
    for hue in ALL_HUES {
        assert_eq!(hue.name(), format!("{hue:?}"));
    }
}
