use nanohue::color::{max, min, ColorCoordinate, ColorGamut2};
use nanohue::gamut::{
    cross_product, get_closest_point_to_line, get_closest_point_to_point,
    get_squared_distance_between_two_points, RatPoint,
};

#[test]
fn cross_product_of_axis_vectors() {
    let ex = ColorCoordinate::new(10000, 0);
    let ey = ColorCoordinate::new(0, 10000);
    assert_eq!(cross_product(ex, ey), 100000000);
    assert_eq!(cross_product(ey, ex), -100000000);
    assert_eq!(cross_product(ex, ex), 0);
}

#[test]
fn squared_distance_is_the_sum_of_squares() {
    let a = ColorCoordinate::new(0, 0);
    let b = ColorCoordinate::new(3000, 4000);
    assert_eq!(get_squared_distance_between_two_points(a, b), 25000000);
    assert_eq!(get_squared_distance_between_two_points(b, b), 0);
}

#[test]
fn projection_onto_a_horizontal_segment_drops_straight_down() {
    let a = ColorCoordinate::new(0, 0);
    let b = ColorCoordinate::new(10000, 0);
    let p = ColorCoordinate::new(5000, 5000);
    // The foot of the perpendicular at (0.5, 0), as an exact rational with
    // the squared segment length as denominator.
    assert_eq!(
        get_closest_point_to_line(a, b, p),
        RatPoint { nx: 500000000000, ny: 0, den: 100000000 }
    );
}

#[test]
fn projection_clamps_to_segment_endpoints() {
    let a = ColorCoordinate::new(2000, 2000);
    let b = ColorCoordinate::new(4000, 2000);
    let before = ColorCoordinate::new(0, 3000);
    let after = ColorCoordinate::new(9000, 3000);
    assert_eq!(get_closest_point_to_line(a, b, before), RatPoint { nx: 2000, ny: 2000, den: 1 });
    assert_eq!(get_closest_point_to_line(a, b, after), RatPoint { nx: 4000, ny: 2000, den: 1 });
}

#[test]
fn max_and_min_scan_the_whole_vector() {
    assert_eq!(max(vec![3, 1, 2]), 3);
    assert_eq!(max(vec![1, 2, 3]), 3);
    assert_eq!(max(vec![-5]), -5);
    assert_eq!(min(vec![3, 1, 2]), 1);
    assert_eq!(min(vec![1, -2, 3]), -2);
    assert_eq!(min(vec![7]), 7);
}

#[test]
fn equidistant_candidates_keep_the_earlier_edge() {
    // An isosceles layout where the green-blue and blue-red candidates are
    // distinct points at exactly equal distance, both closer than the
    // red-green candidate: the earlier edge in the order red-green,
    // green-blue, blue-red wins, so the green-blue point is kept.
    let gamut = ColorGamut2::new(
        ColorCoordinate::new(9000, 5000),
        ColorCoordinate::new(1000, 5000),
        ColorCoordinate::new(5000, 1000),
    );
    let point = ColorCoordinate::new(5000, 2000);
    let green_blue = get_closest_point_to_line(gamut.green, gamut.blue, point);
    let blue_red = get_closest_point_to_line(gamut.blue, gamut.red, point);
    assert_ne!(green_blue, blue_red);
    assert_eq!(
        get_closest_point_to_point(gamut, point),
        RatPoint { nx: 144000000000, ny: 48000000000, den: 32000000 }
    );
    assert_eq!(get_closest_point_to_point(gamut, point), green_blue);
}
