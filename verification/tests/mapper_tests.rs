use mbtile::mapper::BoundingBox;
use mbtile::errors::ExtractError;

/// The Web-Mercator vertical fraction of a latitude, in units of 2^-56,
/// as the library's callers compute it.
fn mercator_fraction_fixed(lat_deg: f64) -> i64 {
    let rad = lat_deg.to_radians();
    let m = (1.0 - rad.tan().asinh() / std::f64::consts::PI) / 2.0;
    let c = if m < -2.0 {
        -2.0
    } else if m > 2.0 {
        2.0
    } else {
        m
    };
    (c * 72057594037927936.0).floor() as i64
}

fn nano(deg: f64) -> i64 {
    (deg * 1_000_000_000.0).round() as i64
}

#[test]
fn bounds_stay_in_range_for_extreme_boxes() {
    let cases = [
        (89.9999, 180.0, -89.9999, -180.0),
        (400.0, 400.0, -400.0, -400.0),
        (0.0, 0.0, 0.0, 0.0),
        (-10.0, -170.0, 80.0, 170.0),
        (85.0511, 180.0, -85.0511, -180.0),
    ];
    for (n, e, s, w) in cases {
        let bb = BoundingBox {
            north_nano: nano(n),
            east_nano: nano(e),
            south_nano: nano(s),
            west_nano: nano(w),
        };
        let mn = mercator_fraction_fixed(n);
        let ms = mercator_fraction_fixed(s);
        for z in 0u32..=16 {
            let lim = (1i64 << z) - 1;
            let (a, b, c, d) = bb.tile_bounds(z, mn, ms);
            assert!(0 <= a && a <= lim);
            assert!(0 <= b && b <= lim);
            assert!(0 <= c && c <= lim);
            assert!(0 <= d && d <= lim);
        }
    }
}

#[test]
fn whole_world_box_gives_full_rectangle() {
    let bb = BoundingBox {
        north_nano: nano(85.0511),
        east_nano: nano(180.0),
        south_nano: nano(-85.0511),
        west_nano: nano(-180.0),
    };
    let mn = mercator_fraction_fixed(85.0511);
    let ms = mercator_fraction_fixed(-85.0511);
    for z in 0u32..=10 {
        let lim = (1i64 << z) - 1;
        assert_eq!(bb.tile_bounds(z, mn, ms), (0, lim, 0, lim));
    }
}

#[test]
fn degenerate_point_box_gives_single_tile() {
    let points = [(47.3769, 8.5417), (0.0, 0.0), (-33.9, 151.2), (85.0, -179.9)];
    for (lat, lon) in points {
        let bb = BoundingBox {
            north_nano: nano(lat),
            east_nano: nano(lon),
            south_nano: nano(lat),
            west_nano: nano(lon),
        };
        let m = mercator_fraction_fixed(lat);
        for z in 0u32..=12 {
            let (a, b, c, d) = bb.tile_bounds(z, m, m);
            assert_eq!(a, b);
            assert_eq!(c, d);
        }
    }
}

#[test]
fn known_rectangle_at_zoom_one() {
    // the north-eastern quadrant, strictly inside its edges
    let bb = BoundingBox {
        north_nano: nano(85.0),
        east_nano: nano(180.0),
        south_nano: nano(1.0),
        west_nano: nano(1.0),
    };
    let mn = mercator_fraction_fixed(85.0);
    let ms = mercator_fraction_fixed(1.0);
    assert_eq!(bb.tile_bounds(1, mn, ms), (1, 1, 1, 1));
}

#[test]
fn equator_boundary_row_is_included() {
    // a box whose south edge sits exactly on the equator also selects the
    // row south of it: the floor of the exact boundary lands there
    let bb = BoundingBox {
        north_nano: nano(85.0),
        east_nano: nano(180.0),
        south_nano: 0,
        west_nano: 0,
    };
    let mn = mercator_fraction_fixed(85.0);
    let ms = mercator_fraction_fixed(0.0);
    assert_eq!(bb.tile_bounds(1, mn, ms), (1, 1, 0, 1));
}

#[test]
fn inverted_box_keeps_inverted_range() {
    // west of the antimeridian crossing: no swap correction
    let bb = BoundingBox {
        north_nano: nano(10.0),
        east_nano: nano(-170.0),
        south_nano: nano(-10.0),
        west_nano: nano(170.0),
    };
    let mn = mercator_fraction_fixed(10.0);
    let ms = mercator_fraction_fixed(-10.0);
    let (a, b, _, _) = bb.tile_bounds(3, mn, ms);
    assert!(a > b);
}

#[test]
fn parse_reads_four_fields() {
    let bb = BoundingBox::parse("85.0511,180,-85.0511,-180").unwrap();
    assert_eq!(bb.north_nano, 85_051_100_000);
    assert_eq!(bb.east_nano, 180_000_000_000);
    assert_eq!(bb.south_nano, -85_051_100_000);
    assert_eq!(bb.west_nano, -180_000_000_000);
}

#[test]
fn parse_tolerates_whitespace_and_signs() {
    let bb = BoundingBox::parse(" 10.5 ,\t+20 , -10.25 , 0.000000001 ").unwrap();
    assert_eq!(bb.north_nano, 10_500_000_000);
    assert_eq!(bb.east_nano, 20_000_000_000);
    assert_eq!(bb.south_nano, -10_250_000_000);
    assert_eq!(bb.west_nano, 1);
}

#[test]
fn parse_truncates_beyond_nine_fraction_digits() {
    let bb = BoundingBox::parse("0.12345678999,0,0,0").unwrap();
    assert_eq!(bb.north_nano, 123_456_789);
}

#[test]
fn parse_reads_exponent_notation() {
    let bb = BoundingBox::parse("1e2,2E1,-1.5e-3,.5e1").unwrap();
    assert_eq!(bb.north_nano, 100_000_000_000);
    assert_eq!(bb.east_nano, 20_000_000_000);
    assert_eq!(bb.south_nano, -1_500_000);
    assert_eq!(bb.west_nano, 5_000_000_000);
}

#[test]
fn parse_exponent_extremes_saturate_or_vanish() {
    let bb = BoundingBox::parse("1e300,-123456e-300,12.5e+1,0e99").unwrap();
    assert_eq!(bb.north_nano, 400_000_000_000);
    assert_eq!(bb.east_nano, 0);
    assert_eq!(bb.south_nano, 125_000_000_000);
    assert_eq!(bb.west_nano, 0);
}

#[test]
fn parse_tolerates_unicode_whitespace() {
    let bb = BoundingBox::parse("\u{A0}7\u{2003},0,0,\u{3000}-1 ").unwrap();
    assert_eq!(bb.north_nano, 7_000_000_000);
    assert_eq!(bb.west_nano, -1_000_000_000);
}

#[test]
fn parse_saturates_huge_magnitudes() {
    let bb = BoundingBox::parse("99999,0,0,-99999").unwrap();
    assert_eq!(bb.north_nano, 400_000_000_000);
    assert_eq!(bb.west_nano, -400_000_000_000);
}

#[test]
fn parse_rejects_three_fields() {
    assert!(matches!(
        BoundingBox::parse("1,2,3"),
        Err(ExtractError::InvalidBoundingBox(_))
    ));
}

#[test]
fn parse_rejects_five_fields() {
    assert!(matches!(
        BoundingBox::parse("1,2,3,4,5"),
        Err(ExtractError::InvalidBoundingBox(_))
    ));
}

#[test]
fn parse_rejects_non_numeric_fields() {
    for s in ["abc,1,2,3", "1,2,3,", "1,2,,3", "1.2.3,4,5,6", "1e,0,0,0", "1e+,0,0,0", "1e2.5,0,0,0", "e5,0,0,0", "--1,2,3,4", ""] {
        assert!(
            matches!(BoundingBox::parse(s), Err(ExtractError::InvalidBoundingBox(_))),
            "accepted: {}",
            s
        );
    }
}
