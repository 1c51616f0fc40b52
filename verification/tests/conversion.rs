use nanohue::color::{ColorCoordinate, ColorError, ColorGamut2, RGBColor};
use nanohue::gamut::{check_point_in_lamps_reach, get_closest_point_to_point, RatPoint};

fn demo_gamut() -> ColorGamut2 {
    // red = (0.675, 0.322), green = (0.409, 0.518), blue = (0.167, 0.04)
    ColorGamut2::new(
        ColorCoordinate::new(6750, 3220),
        ColorCoordinate::new(4090, 5180),
        ColorCoordinate::new(1670, 400),
    )
}

#[test]
fn red_vertex_at_full_brightness_is_strongly_red() {
    let gamut = demo_gamut();
    let point = ColorCoordinate::new(6750, 3220);
    let rgb = RGBColor::from_coordinate(point, gamut, 255).unwrap();
    assert_eq!(rgb.red, 255);
    assert_eq!(rgb.green, 69);
    assert_eq!(rgb.blue, 0);
    // Red-dominant, as a primary vertex should be.
    assert!(rgb.red >= rgb.green && rgb.red >= rgb.blue);
    let hsv = rgb.to_hsv();
    assert_eq!(hsv.saturation, 100);
    assert_eq!(hsv.brightness, 100);
    assert_eq!(hsv.hue, 16);
}

#[test]
fn green_and_blue_vertices_are_dominant_in_their_channel() {
    let gamut = demo_gamut();
    let green = RGBColor::from_coordinate(ColorCoordinate::new(4090, 5180), gamut, 255).unwrap();
    assert!(green.green >= green.red && green.green >= green.blue);
    assert_eq!((green.red, green.green, green.blue), (234, 255, 65));
    let blue = RGBColor::from_coordinate(ColorCoordinate::new(1670, 400), gamut, 255).unwrap();
    assert!(blue.blue >= blue.red && blue.blue >= blue.green);
    assert_eq!((blue.red, blue.green, blue.blue), (83, 0, 255));
}

#[test]
fn vertex_point_is_reachable() {
    let gamut = demo_gamut();
    let point = ColorCoordinate::new(6750, 3220);
    assert_eq!(check_point_in_lamps_reach(point, gamut), Ok(true));
}

#[test]
fn interior_point_converts_without_projection() {
    let gamut = demo_gamut();
    let point = ColorCoordinate::new(3500, 3500);
    assert_eq!(check_point_in_lamps_reach(point, gamut), Ok(true));
    let rgb = RGBColor::from_coordinate(point, gamut, 128).unwrap();
    assert_eq!((rgb.red, rgb.green, rgb.blue), (193, 184, 168));
}

#[test]
fn conversion_is_deterministic() {
    let gamut = demo_gamut();
    let point = ColorCoordinate::new(3500, 3500);
    let first = RGBColor::from_coordinate(point, gamut, 128).unwrap();
    let second = RGBColor::from_coordinate(point, gamut, 128).unwrap();
    assert_eq!(first, second);
    assert_eq!(first.to_hsv(), second.to_hsv());
}

#[test]
fn far_out_of_gamut_point_is_projected_onto_boundary() {
    let gamut = demo_gamut();
    // (0.9, 0.9) is far outside the triangle and violates x + y <= 1.
    let point = ColorCoordinate::new(9000, 9000);
    assert_eq!(check_point_in_lamps_reach(point, gamut), Ok(false));
    let projected = get_closest_point_to_point(gamut, point);
    // The exact rational projection onto the red-green edge.
    assert_eq!(
        projected,
        RatPoint { nx: 59476592000, ny: 45627232000, den: 10917200 }
    );
    // And the conversion still produces a well-formed color.
    let rgb = RGBColor::from_coordinate(point, gamut, 255).unwrap();
    assert_eq!((rgb.red, rgb.green, rgb.blue), (255, 173, 40));
}

#[test]
fn degenerate_gamut_is_an_error_not_a_panic() {
    let vertex = ColorCoordinate::new(3000, 3000);
    let degenerate = ColorGamut2::new(vertex, vertex, vertex);
    let point = ColorCoordinate::new(5000, 5000);
    assert_eq!(
        check_point_in_lamps_reach(point, degenerate),
        Err(ColorError::DegenerateGamut)
    );
    assert_eq!(
        RGBColor::from_coordinate(point, degenerate, 255),
        Err(ColorError::DegenerateGamut)
    );
}

#[test]
fn zero_y_chromaticity_is_invalid() {
    // A gamut whose red vertex sits on the y == 0 axis; converting that
    // vertex itself would divide by zero.
    let gamut = ColorGamut2::new(
        ColorCoordinate::new(5000, 0),
        ColorCoordinate::new(4090, 5180),
        ColorCoordinate::new(1670, 400),
    );
    let point = ColorCoordinate::new(5000, 0);
    assert_eq!(
        RGBColor::from_coordinate(point, gamut, 255),
        Err(ColorError::InvalidChromaticity)
    );
}

#[test]
fn zero_brightness_is_black() {
    let gamut = demo_gamut();
    let rgb = RGBColor::from_coordinate(ColorCoordinate::new(6750, 3220), gamut, 0).unwrap();
    assert_eq!((rgb.red, rgb.green, rgb.blue), (0, 0, 0));
}

#[test]
fn overflow_rescale_pins_maximum_channel_to_full() {
    // At the red vertex and full brightness the linear red channel exceeds
    // 1.0, so the rescale divides by it and red lands exactly on 255.
    let gamut = demo_gamut();
    let rgb = RGBColor::from_coordinate(ColorCoordinate::new(6750, 3220), gamut, 255).unwrap();
    assert_eq!(rgb.red, 255);
    assert!(rgb.green < 255 && rgb.blue < 255);
}

#[test]
fn point_exactly_on_an_edge_counts_as_reachable() {
    // The midpoint of the red-green edge: the exact test includes the
    // boundary, so no projection is needed for it.
    let gamut = demo_gamut();
    let midpoint = ColorCoordinate::new(5420, 4200);
    assert_eq!(check_point_in_lamps_reach(midpoint, gamut), Ok(true));
    assert!(RGBColor::from_coordinate(midpoint, gamut, 200).is_ok());
}
