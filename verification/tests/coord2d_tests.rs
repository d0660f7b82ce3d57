use plotcoord::{
    make_partial_axis, IntoCentric, IntoPartialAxis, MeshCollector, MeshLine, MeshLineHandler,
    Ranged, RangedCoord, RangedCoordi64, RangedCoordu32, ToGroupByRange,
};

struct Collector {
    vertical: Vec<(i32, i32, i32)>,
    horizontal: Vec<(i32, i32, i32)>,
    fail_after: usize,
    calls: usize,
}

impl MeshLineHandler<RangedCoordu32, RangedCoordu32> for Collector {
    type HandleError = ();

    fn handle(&mut self, line: MeshLine<RangedCoordu32, RangedCoordu32>) -> Result<(), ()> {
        self.calls += 1;
        if self.calls > self.fail_after {
            return Err(());
        }
        match line {
            MeshLine::XMesh(a, b, _) => {
                assert_eq!(a.0, b.0);
                self.vertical.push((a.0, a.1, b.1));
            }
            MeshLine::YMesh(a, b, _) => {
                assert_eq!(a.1, b.1);
                self.horizontal.push((a.1, a.0, b.0));
            }
        }
        Ok(())
    }
}

#[test]
fn test_draw_mesh_lines() {
    let coord =
        RangedCoord::<RangedCoordu32, RangedCoordu32>::new(0..10, 0..10, (0..100, 0..100));
    let mut c = Collector { vertical: vec![], horizontal: vec![], fail_after: usize::MAX, calls: 0 };
    // v_limit = 5 bounds the vertical lines, h_limit = 7 the horizontal.
    let r = coord.draw_mesh(7, 5, &mut c);
    assert!(r.is_ok());
    // X key points of (0, 10) with budget 5 are 0, 5, 10.
    assert_eq!(c.vertical, vec![(0, 0, 100), (50, 0, 100), (100, 0, 100)]);
    // Y key points of (0, 10) with budget 7 are 0, 2, ..., 10.
    assert_eq!(
        c.horizontal,
        vec![(0, 0, 100), (20, 0, 100), (40, 0, 100), (60, 0, 100), (80, 0, 100), (100, 0, 100)]
    );
    let lines = coord.mesh_lines(7, 5);
    assert_eq!(lines.len(), 9);
}

#[test]
fn test_draw_mesh_matches_mesh_lines() {
    let coord =
        RangedCoord::<RangedCoordu32, RangedCoordu32>::new(0..10, 0..10, (0..100, 0..100));
    let mut collector = MeshCollector::new();
    let r = coord.draw_mesh(7, 5, &mut collector);
    assert!(r.is_ok());
    let pure = coord.mesh_lines(7, 5);
    // The handler received exactly the computed mesh, in order.
    assert_eq!(collector.lines.len(), pure.len());
    for (got, want) in collector.lines.iter().zip(pure.iter()) {
        match (got, want) {
            (MeshLine::XMesh(ga, gb, gv), MeshLine::XMesh(wa, wb, wv)) => {
                assert_eq!((ga, gb, gv), (wa, wb, wv));
            }
            (MeshLine::YMesh(ga, gb, gv), MeshLine::YMesh(wa, wb, wv)) => {
                assert_eq!((ga, gb, gv), (wa, wb, wv));
            }
            _ => panic!("mesh lines differ in kind"),
        }
    }
}

#[test]
fn test_draw_mesh_fail_fast() {
    let coord =
        RangedCoord::<RangedCoordu32, RangedCoordu32>::new(0..10, 0..10, (0..100, 0..100));
    let mut c = Collector { vertical: vec![], horizontal: vec![], fail_after: 2, calls: 0 };
    let r = coord.draw_mesh(7, 5, &mut c);
    assert_eq!(r, Err(()));
    // The failing call is the last one made: no further lines arrive.
    assert_eq!(c.calls, 3);
    assert_eq!(c.vertical.len(), 2);
    assert_eq!(c.horizontal.len(), 0);
}

#[test]
fn test_reverse_translate() {
    let coord = RangedCoord::<RangedCoordi64, RangedCoordi64>::new(0..10, 0..10, (0..100, 0..100));
    assert_eq!(coord.translate(&(5, 5)), (50, 50));
    assert_eq!(coord.reverse_translate((50, 50)), Some((5, 5)));
    // One bad axis is enough for no answer, whichever one it is.
    assert_eq!(coord.reverse_translate((150, 50)), None);
    assert_eq!(coord.reverse_translate((50, 150)), None);
    assert_eq!(coord.reverse_translate((-1, -1)), None);
}

#[test]
fn test_partial_axis_pixel_range() {
    let pa = (0i64..100).partial_axis(30..70);
    let r = pa.axis_pixel_range((0, 200));
    assert_eq!(r, 60..140);
    // The visible sub-range given backward reports the same ordered span.
    let pb = (0i64..100).partial_axis(70..30);
    let rb = pb.axis_pixel_range((0, 200));
    assert_eq!(rb, 60..140);
    // Mapping is unaffected by the decorator.
    assert_eq!(pa.map(&90, (0, 200)), 180);
}

#[test]
fn test_make_partial_axis() {
    let pa = make_partial_axis(20i64..80, 200..800).unwrap();
    assert_eq!(pa.0 .0, 0);
    assert_eq!(pa.0 .1, 100);
    assert_eq!(pa.1, 20..80);
    // An empty or reversed fraction admits no full range.
    assert!(make_partial_axis(20i64..80, 500..500).is_none());
    assert!(make_partial_axis(20i64..80, 800..200).is_none());
    // A full range that cannot fit the value type is refused.
    assert!(make_partial_axis(0u32..10, 900..1000).is_none());
}

#[test]
fn test_centric_map() {
    let centric = (0u32..10).into_centric();
    // The tick sits halfway between a value and its predecessor.
    assert_eq!(centric.map(&5, (0, 100)), 45);
    // The least value has no predecessor and stays at its own position.
    assert_eq!(centric.map(&0, (0, 100)), 0);
    // Key points pass through unchanged.
    assert_eq!(centric.key_points(11), vec![0, 1, 2, 3, 4, 5, 6, 7, 8, 9, 10]);
}

#[test]
fn test_group_by_key_points() {
    let grouped = (0i64..100).group_by(7);
    let kp = grouped.key_points(100);
    assert_eq!(kp.len(), 15);
    for v in &kp {
        assert_eq!(v % 7, 0);
        assert!(0 <= *v && *v < 100);
    }
    let kp = grouped.key_points(5);
    assert_eq!(kp, vec![0, 35, 70]);
    for v in &kp {
        assert_eq!(v % 7, 0);
        assert!(0 <= *v && *v < 100);
    }
    assert_eq!(grouped.key_points(0).len(), 0);
    // Mapping delegates to the base range untouched.
    assert_eq!(grouped.map(&50, (0, 200)), 100);
}

#[test]
fn test_key_points_zero_budget_everywhere() {
    let numeric: RangedCoordi64 = (0..100).into();
    assert_eq!(numeric.key_points(0).len(), 0);
    assert_eq!((0i64..100).group_by(7).key_points(0).len(), 0);
    assert_eq!((0u32..10).into_centric().key_points(0).len(), 0);
    assert_eq!((0i64..100).partial_axis(30..70).key_points(0).len(), 0);
}
