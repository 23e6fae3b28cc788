use stead::geometry::{point_in_polygon, BBox, LocalPoint, Region, RegionSpec};

/// A point at (`x`, `y`) millimetres.
fn p(x: i32, y: i32) -> LocalPoint {
    LocalPoint { x, y, z: 0 }
}

#[test]
fn polygon_containment() {
    let ring = vec![p(0, 0), p(10_000, 0), p(10_000, 8_000), p(0, 8_000)];
    assert!(point_in_polygon(p(5_000, 4_000), &ring));
    assert!(!point_in_polygon(p(11_000, 4_000), &ring));
    assert!(!point_in_polygon(p(-100, 0), &ring));
}

#[test]
fn region_spec_resolution() {
    let r = RegionSpec { within_m: Some(5_000), point: Some(p(0, 0)), ..Default::default() };
    assert!(r.resolve().unwrap().contains(p(3_000, 4_000)));

    let r = RegionSpec { bbox: Some([0, 0, 10_000, 10_000]), ..Default::default() };
    assert!(!r.resolve().unwrap().contains(p(11_000, 5_000)));

    let bad = RegionSpec { bbox: Some([0, 0, 1_000, 1_000]), all: Some(true), ..Default::default() };
    assert!(bad.resolve().is_err());

    let empty = RegionSpec::default();
    assert!(empty.resolve().is_err());
}

#[test]
fn polygon_edges_and_degenerate_rings() {
    let tri = vec![p(0, 0), p(4_000, 0), p(0, 4_000)];
    assert!(point_in_polygon(p(1_000, 1_000), &tri));
    assert!(!point_in_polygon(p(3_000, 3_000), &tri));
    assert!(!point_in_polygon(p(1_000, 1_000), &tri[..2]));
    assert!(!point_in_polygon(p(0, 0), &[]));
    // a concave "L"
    let l = vec![p(0, 0), p(6_000, 0), p(6_000, 2_000), p(2_000, 2_000), p(2_000, 6_000), p(0, 6_000)];
    assert!(point_in_polygon(p(1_000, 5_000), &l));
    assert!(!point_in_polygon(p(4_000, 4_000), &l));
}

#[test]
fn bbox_of_points() {
    assert_eq!(BBox::of(&[]), None);
    let b = BBox::of(&[p(3, -2), p(-1, 7), p(5, 0)]).unwrap();
    assert_eq!(b, BBox { min_x: -1, min_y: -2, max_x: 5, max_y: 7 });
    assert_eq!(b.area(), 6 * 9);
    assert!(b.contains(p(5, 7)));
    assert!(!b.contains(p(6, 0)));
}

#[test]
fn region_errors_are_guidance() {
    let e = RegionSpec { within_m: Some(1), ..Default::default() }.resolve().unwrap_err();
    assert_eq!(e, "within_m and point must be supplied together");
    let e = RegionSpec { within_m: Some(-1), point: Some(p(0, 0)), ..Default::default() }
        .resolve()
        .unwrap_err();
    assert_eq!(e, "within_m must be non-negative");
    let e = RegionSpec { bbox: Some([2, 0, 1, 1]), ..Default::default() }.resolve().unwrap_err();
    assert_eq!(e, "bbox must be [minx, miny, maxx, maxy] with min <= max");
    let e = RegionSpec { polygon: Some(vec![p(0, 0), p(1, 1)]), ..Default::default() }
        .resolve()
        .unwrap_err();
    assert_eq!(e, "polygon needs at least 3 vertices");
    let e = RegionSpec { all: Some(false), ..Default::default() }.resolve().unwrap_err();
    assert!(e.contains("use {\"all\": true}"));
    let e = RegionSpec::default().resolve().unwrap_err();
    assert!(e.starts_with("region must be exactly one of"));
}

#[test]
fn regions_contain_what_they_describe() {
    assert!(matches!(RegionSpec { all: Some(true), ..Default::default() }.resolve(), Ok(Region::All)));
    let within = Region::Within { center: p(0, 0), radius_m: 5_000 };
    assert!(within.contains(p(3_000, 4_000)));
    assert!(!within.contains(p(3_000, 4_001)));
    let negative = Region::Within { center: p(0, 0), radius_m: -1 };
    assert!(!negative.contains(p(0, 0)));
    let poly = RegionSpec { polygon: Some(vec![p(0, 0), p(10, 0), p(10, 8)]), ..Default::default() }
        .resolve()
        .unwrap();
    assert!(poly.contains(p(9, 1)));
    assert!(!poly.contains(p(1, 7)));
}
