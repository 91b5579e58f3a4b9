use gilt_and_iron::geometry::{floor_div, isqrt, saturate, Point2, Point3, UNIT};

#[test]
fn one_world_unit_is_a_thousand_steps() {
    assert_eq!(UNIT, 1000);
}

#[test]
fn floor_div_rounds_toward_negative_infinity() {
    assert_eq!(floor_div(7, 2), 3);
    assert_eq!(floor_div(-7, 2), -4);
    assert_eq!(floor_div(-8, 2), -4);
    assert_eq!(floor_div(-1, 1000), -1);
    assert_eq!(floor_div(0, 5), 0);
    assert_eq!(floor_div(i128::MIN, 1), i128::MIN);
    assert_eq!(floor_div(i128::MIN, 2), i128::MIN / 2);
    assert_eq!(floor_div(i128::MAX, i128::MAX), 1);
}

#[test]
fn isqrt_rounds_down() {
    assert_eq!(isqrt(0), 0);
    assert_eq!(isqrt(1), 1);
    assert_eq!(isqrt(3), 1);
    assert_eq!(isqrt(4), 2);
    assert_eq!(isqrt(99), 9);
    assert_eq!(isqrt(100), 10);
    assert_eq!(isqrt(10_000), 100);
    assert_eq!(isqrt(412_577_344), 20_312);
    assert_eq!(isqrt(u128::MAX), u64::MAX);
    assert_eq!(isqrt((1u128 << 64) - 1), (1u64 << 32) - 1);
}

#[test]
fn isqrt_brackets_its_argument() {
    for n in [2u128, 17, 1_000_003, 36_000_000_000, (1u128 << 65) + 12345] {
        let r = isqrt(n) as u128;
        assert!(r * r <= n);
        assert!((r + 1) * (r + 1) > n);
    }
}

#[test]
fn saturate_holds_values_to_32_bits() {
    assert_eq!(saturate(5), 5);
    assert_eq!(saturate(-5), -5);
    assert_eq!(saturate(i32::MAX as i128 + 1), i32::MAX);
    assert_eq!(saturate(i32::MIN as i128 - 1), i32::MIN);
    assert_eq!(saturate(i128::MAX), i32::MAX);
    assert_eq!(saturate(i128::MIN), i32::MIN);
}

#[test]
fn distance_squared_in_space_counts_elevation() {
    let a = Point3 { x: 1000, y: 2000, z: 3000 };
    let b = Point3 { x: 4000, y: 6000, z: 3000 };
    assert_eq!(a.distance_squared(&b), 25_000_000);
    assert_eq!(b.distance_squared(&a), 25_000_000);
    assert_eq!(a.distance_squared(&a), 0);
}

#[test]
fn distance_squared_spans_the_whole_range() {
    let a = Point3 { x: i32::MIN, y: i32::MIN, z: i32::MIN };
    let b = Point3 { x: i32::MAX, y: i32::MAX, z: i32::MAX };
    let d = (1i128 << 32) - 1;
    assert_eq!(a.distance_squared(&b), 3 * d * d);
    let p = Point2 { x: i32::MIN, y: i32::MAX };
    let q = Point2 { x: i32::MAX, y: i32::MIN };
    assert_eq!(p.distance_squared(&q), 2 * d * d);
}

#[test]
fn ground_shadow_drops_elevation() {
    let a = Point3 { x: 7, y: 8, z: 9 };
    assert_eq!(a.xz(), Point2 { x: 7, y: 9 });
}
