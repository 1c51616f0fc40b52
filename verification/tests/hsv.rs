use nanohue::color::{HSVColor, RGBColor};

fn hsv_of(red: u8, green: u8, blue: u8) -> HSVColor {
    RGBColor { red, green, blue }.to_hsv()
}

#[test]
fn black_is_all_zero() {
    let h = hsv_of(0, 0, 0);
    assert_eq!((h.hue, h.saturation, h.brightness), (0, 0, 0));
}

#[test]
fn white_has_full_value_and_no_saturation() {
    let h = hsv_of(255, 255, 255);
    assert_eq!((h.hue, h.saturation, h.brightness), (0, 0, 100));
}

#[test]
fn pure_yellow_ties_resolve_to_the_red_branch() {
    // r == g > b: the red branch wins the tie and gives hue 60.
    let h = hsv_of(255, 255, 0);
    assert_eq!((h.hue, h.saturation, h.brightness), (60, 100, 100));
}

#[test]
fn cyan_is_at_180_degrees() {
    let h = hsv_of(0, 128, 128);
    assert_eq!((h.hue, h.saturation, h.brightness), (180, 100, 50));
}

#[test]
fn mixed_blue_truncates_each_component() {
    let h = hsv_of(10, 20, 200);
    assert_eq!((h.hue, h.saturation, h.brightness), (236, 95, 78));
}

#[test]
fn pure_primaries_hit_their_exact_hues() {
    assert_eq!(hsv_of(255, 0, 0).hue, 0);
    assert_eq!(hsv_of(0, 255, 0).hue, 120);
    assert_eq!(hsv_of(0, 0, 255).hue, 240);
}

#[test]
fn outputs_stay_in_their_declared_ranges() {
    let samples: [(u8, u8, u8); 7] = [
        (0, 0, 0),
        (255, 255, 255),
        (255, 254, 253),
        (1, 2, 3),
        (200, 0, 199),
        (0, 1, 0),
        (123, 231, 132),
    ];
    for (r, g, b) in samples {
        let h = hsv_of(r, g, b);
        assert!(h.hue <= 359);
        assert!(h.saturation <= 100);
        assert!(h.brightness <= 100);
    }
}
