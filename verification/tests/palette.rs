use nanohue::color::RGBColor;
use nanohue::palette::Palette;

#[test]
fn two_rgb_colors_with_the_same_hsv_collapse_to_one_entry() {
    // Truncation maps both grays to (hue 0, saturation 0, value 39).
    let first = RGBColor { red: 100, green: 100, blue: 100 }.to_hsv();
    let second = RGBColor { red: 101, green: 101, blue: 101 }.to_hsv();
    assert_eq!(first, second);
    let mut palette = Palette::new();
    palette.insert(first);
    palette.insert(second);
    assert_eq!(palette.len(), 1);
}

#[test]
fn distinct_colors_are_kept_apart() {
    let red = RGBColor { red: 255, green: 0, blue: 0 }.to_hsv();
    let green = RGBColor { red: 0, green: 255, blue: 0 }.to_hsv();
    let blue = RGBColor { red: 0, green: 0, blue: 255 }.to_hsv();
    let mut palette = Palette::new();
    assert_eq!(palette.len(), 0);
    palette.insert(red);
    palette.insert(green);
    palette.insert(blue);
    palette.insert(red);
    assert_eq!(palette.len(), 3);
    assert!(palette.contains(red));
    assert!(palette.contains(green));
    assert!(palette.contains(blue));
}

#[test]
fn to_vec_lists_each_color_once() {
    let a = RGBColor { red: 10, green: 20, blue: 30 }.to_hsv();
    let b = RGBColor { red: 200, green: 100, blue: 50 }.to_hsv();
    let mut palette = Palette::new();
    palette.insert(a);
    palette.insert(b);
    palette.insert(a);
    let colors = palette.to_vec();
    assert_eq!(colors.len(), 2);
    assert!(colors.contains(&a));
    assert!(colors.contains(&b));
}

#[test]
fn contains_reports_absence() {
    let a = RGBColor { red: 10, green: 20, blue: 30 }.to_hsv();
    let b = RGBColor { red: 200, green: 100, blue: 50 }.to_hsv();
    let mut palette = Palette::new();
    palette.insert(a);
    assert!(palette.contains(a));
    assert!(!palette.contains(b));
}

#[test]
fn build_folds_conversion_over_each_color() {
    let colors = vec![
        RGBColor { red: 255, green: 0, blue: 0 },
        RGBColor { red: 100, green: 100, blue: 100 },
        RGBColor { red: 101, green: 101, blue: 101 },
    ];
    let palette = Palette::build(&colors);
    // The two grays collapse onto one HSV entry.
    assert_eq!(palette.len(), 2);
    assert!(palette.contains(RGBColor { red: 255, green: 0, blue: 0 }.to_hsv()));
    assert!(palette.contains(RGBColor { red: 100, green: 100, blue: 100 }.to_hsv()));
}

#[test]
fn build_of_no_colors_is_empty() {
    let palette = Palette::build(&Vec::new());
    assert_eq!(palette.len(), 0);
}
