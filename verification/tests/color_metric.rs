use search_api::color::{lab_distance, Color, COMPONENT_LIMIT};

fn c(l: i32, a: i32, b: i32) -> Color {
    Color::new(l, a, b).unwrap()
}

#[test]
fn distance_of_a_color_to_itself_is_zero() {
    let x = c(52_340, -12_000, 7_771);
    assert_eq!(lab_distance(&x, &x), 0);
}

#[test]
fn distance_is_symmetric() {
    let x = c(10_000, 20_000, -30_000);
    let y = c(-5_500, 0, 44_444);
    assert_eq!(lab_distance(&x, &y), lab_distance(&y, &x));
}

#[test]
fn distance_is_never_negative_across_extremes() {
    let pairs = [
        (c(0, 0, 0), c(0, 0, 0)),
        (c(COMPONENT_LIMIT, COMPONENT_LIMIT, COMPONENT_LIMIT), c(-COMPONENT_LIMIT, -COMPONENT_LIMIT, -COMPONENT_LIMIT)),
        (c(1, 2, 3), c(3, 2, 1)),
    ];
    for (x, y) in pairs.iter() {
        // u32 distances cannot be negative; the calls must also not panic
        let _ = lab_distance(x, y);
    }
}

#[test]
fn distance_is_the_rounded_euclidean_length() {
    // a 3-4-0 right triangle in component space: length exactly 5000
    let x = c(0, 0, 0);
    let y = c(3_000, 4_000, 0);
    assert_eq!(lab_distance(&x, &y), 5_000);
    // sqrt(1^2 + 1^2 + 1^2) = 1.732..., rounded down
    let z = c(1_000, 1_000, 1_000);
    assert_eq!(lab_distance(&x, &z), 1_732);
}

#[test]
fn components_out_of_range_are_refused() {
    assert!(Color::new(COMPONENT_LIMIT + 1, 0, 0).is_none());
    assert!(Color::new(0, -COMPONENT_LIMIT - 1, 0).is_none());
    assert!(Color::new(0, 0, COMPONENT_LIMIT).is_some());
}
