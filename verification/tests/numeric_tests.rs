use plotcoord::{
    compute_decimal_key_points, compute_i32_key_points, Decimal, Ranged, RangedCoord,
    RangedCoordDecimal, RangedCoordi64, RangedCoordu32, ReversibleRanged,
};

#[test]
fn test_key_points() {
    let kp = compute_i32_key_points((0, 999), 28);

    assert!(kp.len() > 0);
    assert!(kp.len() <= 28);

    let kp = compute_decimal_key_points(Decimal::new(-12, 1), Decimal::new(12, 1), 1);
    assert!(kp.len() == 1);

    let kp = compute_decimal_key_points(Decimal::new(-12, 1), Decimal::new(12, 1), 0);
    assert!(kp.len() == 0);
}

#[test]
fn test_linear_coord_map() {
    let coord: RangedCoordu32 = (0..20).into();
    assert_eq!(coord.key_points(11).len(), 11);
    assert_eq!(coord.key_points(11)[0], 0);
    assert_eq!(coord.key_points(11)[10], 20);
    assert_eq!(coord.map(&5, (0, 100)), 25);

    let coord = RangedCoordDecimal::new(Decimal::from_int(0), Decimal::from_int(20));
    assert_eq!(coord.map(&Decimal::from_int(5), (0, 100)), 25);
}

#[test]
fn test_linear_coord_system() {
    let _coord =
        RangedCoord::<RangedCoordu32, RangedCoordu32>::new(0..10, 0..10, (0..1024, 0..768));
}

#[test]
fn test_map_monotonic_and_endpoints() {
    let coord: RangedCoordi64 = (0..100).into();
    let mut last = coord.map(&0, (0, 500));
    for v in 1..=100i64 {
        let here = coord.map(&v, (0, 500));
        assert!(here >= last);
        last = here;
    }
    assert_eq!(coord.map(&0, (0, 500)), 0);
    assert_eq!(coord.map(&100, (0, 500)), 500);

    // A backward pixel limit reverses the direction.
    assert_eq!(coord.map(&0, (500, 0)), 500);
    assert_eq!(coord.map(&100, (500, 0)), 0);
    assert!(coord.map(&30, (500, 0)) >= coord.map(&60, (500, 0)));
}

#[test]
fn test_unmap_round_trip() {
    let coord: RangedCoordi64 = (0..1000).into();
    let p = coord.map(&537, (0, 100));
    assert_eq!(p, 53);
    let w = coord.unmap(p, (0, 100));
    assert_eq!(w, Some(530));
    // Within one pixel's worth of values.
    assert!((537 - w.unwrap()).abs() <= 10);
}

#[test]
fn test_unmap_out_of_limit() {
    let coord: RangedCoordi64 = (0..100).into();
    assert_eq!(coord.unmap(-1, (0, 100)), None);
    assert_eq!(coord.unmap(101, (0, 100)), None);
    assert_eq!(coord.unmap(50, (0, 100)), Some(50));
}

#[test]
fn test_key_points_budgets() {
    for n in [0usize, 1, 5, 28, 100] {
        let kp = compute_i32_key_points((0, 999), n);
        assert!(kp.len() <= n);
        if n > 0 {
            assert!(kp.len() >= 1);
        }
        for w in kp.windows(2) {
            assert!(w[0] < w[1]);
            assert!(0 <= w[0] && w[1] <= 999);
        }
    }
}

#[test]
fn test_degenerate_inputs() {
    // A degenerate pixel interval maps everything onto its single pixel.
    let coord: RangedCoordi64 = (0..100).into();
    assert_eq!(coord.map(&30, (7, 7)), 7);
    // A degenerate value interval maps everything onto the limit start.
    let flat: RangedCoordi64 = (5..5).into();
    assert_eq!(flat.map(&30, (0, 100)), 0);
}
