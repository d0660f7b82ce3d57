use plotcoord::{compute_decimal_key_points, Decimal, Ranged, RangedCoordDecimal, ReversibleRanged};

#[test]
fn test_decimal_equality_by_value() {
    assert_eq!(Decimal::new(25, 1), Decimal::new(250, 2));
    assert_ne!(Decimal::new(25, 1), Decimal::new(26, 1));
    assert_eq!(Decimal::from_int(3), Decimal::new(3000, 3));
}

#[test]
fn test_decimal_single_key_point() {
    // The range (-1.2, 1.2) with a budget of one yields exactly one point,
    // the zero at the middle; with no budget it yields nothing.
    let kp = compute_decimal_key_points(Decimal::new(-12, 1), Decimal::new(12, 1), 1);
    assert_eq!(kp.len(), 1);
    assert_eq!(kp[0], Decimal::from_int(0));
    let kp = compute_decimal_key_points(Decimal::new(-12, 1), Decimal::new(12, 1), 0);
    assert_eq!(kp.len(), 0);
}

#[test]
fn test_decimal_key_points_refine() {
    // Over (0, 2.4] with room for five points the step settles on 0.5.
    let kp = compute_decimal_key_points(Decimal::from_int(0), Decimal::new(24, 1), 5);
    assert_eq!(kp.len(), 4);
    assert_eq!(kp[0], Decimal::new(5, 1));
    assert_eq!(kp[1], Decimal::from_int(1));
    assert_eq!(kp[2], Decimal::new(15, 1));
    assert_eq!(kp[3], Decimal::from_int(2));
    for n in [1usize, 5, 28, 100] {
        let kp = compute_decimal_key_points(Decimal::new(-12, 1), Decimal::new(12, 1), n);
        assert!(kp.len() <= n);
        assert!(kp.len() >= 1);
    }
}

#[test]
fn test_decimal_map_and_unmap() {
    let coord = RangedCoordDecimal::new(Decimal::from_int(-10), Decimal::from_int(10));
    assert_eq!(coord.map(&Decimal::from_int(0), (0, 100)), 50);
    assert_eq!(coord.map(&Decimal::new(-105, 1), (0, 100)), -3);
    let w = coord.unmap(50, (0, 100)).unwrap();
    assert_eq!(w, Decimal::from_int(0));
    assert_eq!(coord.unmap(101, (0, 100)), None);
    // A quarter pixel below the middle recovers the exact fraction.
    let w = coord.unmap(55, (0, 100)).unwrap();
    assert_eq!(w, Decimal::from_int(1));
    assert_eq!(coord.key_points(0).len(), 0);
}
