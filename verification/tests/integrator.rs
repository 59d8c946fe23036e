use smallpt::integrator::{
    enters, faces, happens, max_channel, reflects_all, tangent_axis, Axis, Path, Scatter,
    AXIS_LIMIT, MAX_DEPTH, ROULETTE_DEPTH, SPLIT_DEPTH,
};
use smallpt::material::MaterialType;
use smallpt::math::Real;

fn num(v: f64) -> Real {
    Real::from_bits(v.to_bits())
}

fn after(bounces: u32) -> Path {
    let mut path = Path::new();
    let mut i = 0u32;
    while i < bounces {
        path = path.bounce().unwrap();
        i += 1;
    }
    path
}

#[test]
fn limits_of_the_integrator() {
    assert_eq!(ROULETTE_DEPTH, 5);
    assert_eq!(SPLIT_DEPTH, 2);
    assert_eq!(MAX_DEPTH, 100);
    assert_eq!(AXIS_LIMIT, 0.1f64.to_bits());
}

#[test]
fn material_types_differ() {
    assert_eq!(MaterialType::DIFFUSE, MaterialType::DIFFUSE);
    assert_ne!(MaterialType::DIFFUSE, MaterialType::MIRROR);
    assert_ne!(MaterialType::MIRROR, MaterialType::GLASS);
    assert_ne!(MaterialType::GLASS, MaterialType::DIFFUSE);
    let copy = MaterialType::GLASS;
    assert_eq!(format!("{:?}", copy), "GLASS");
}

#[test]
fn camera_path_has_no_bounce() {
    assert_eq!(Path::new().depth(), 0);
}

#[test]
fn bounce_counts_up() {
    assert_eq!(Path::new().bounce().unwrap().depth(), 1);
    assert_eq!(after(7).depth(), 7);
}

#[test]
fn path_ends_at_its_greatest_length() {
    assert_eq!(after(99).bounce().unwrap().depth(), 100);
    assert!(after(100).bounce().is_none());
}

#[test]
fn roulette_starts_beyond_five_bounces() {
    let mut d = 0u32;
    while d <= 5 {
        assert!(!after(d).plays_roulette());
        d += 1;
    }
    assert!(after(6).plays_roulette());
    assert!(after(50).plays_roulette());
    assert!(after(100).plays_roulette());
}

#[test]
fn surface_type_says_how_a_path_goes_on() {
    let mut d = 0u32;
    while d <= 100 {
        assert_eq!(after(d).scatter(MaterialType::DIFFUSE), Scatter::Diffuse);
        assert_eq!(after(d).scatter(MaterialType::MIRROR), Scatter::Mirror);
        d += 1;
    }
}

#[test]
fn glass_splits_near_the_camera() {
    assert_eq!(after(0).scatter(MaterialType::GLASS), Scatter::Split);
    assert_eq!(after(1).scatter(MaterialType::GLASS), Scatter::Split);
    assert_eq!(after(2).scatter(MaterialType::GLASS), Scatter::Split);
}

#[test]
fn glass_picks_one_ray_farther_on() {
    assert_eq!(after(3).scatter(MaterialType::GLASS), Scatter::Pick);
    assert_eq!(after(40).scatter(MaterialType::GLASS), Scatter::Pick);
    assert_eq!(after(100).scatter(MaterialType::GLASS), Scatter::Pick);
}

#[test]
fn glass_reflects_all_where_no_light_passes() {
    assert!(reflects_all(num(-0.01)));
    assert!(reflects_all(num(-1.0)));
    assert!(reflects_all(num(-1.0e-300)));
    assert!(!reflects_all(num(-0.0)));
    assert!(!reflects_all(num(0.0)));
    assert!(!reflects_all(num(0.3)));
    assert!(!reflects_all(num(f64::NAN)));
}

#[test]
fn max_channel_finds_the_greatest() {
    let p = |r: f64, g: f64, b: f64| f64::from_bits(max_channel(num(r), num(g), num(b)).bits);
    assert_eq!(p(0.75, 0.25, 0.25), 0.75);
    assert_eq!(p(0.25, 0.75, 0.25), 0.75);
    assert_eq!(p(0.25, 0.25, 0.75), 0.75);
    assert_eq!(p(0.999, 0.999, 0.999), 0.999);
    assert_eq!(p(0.0, 0.0, 0.0), 0.0);
    assert_eq!(p(0.3, 0.3, 0.1), 0.3);
    assert_eq!(p(0.1, 0.3, 0.3), 0.3);
}

#[test]
fn max_channel_agrees_with_the_comparisons_of_doubles() {
    let values = [0.0, 0.25, 0.75, 0.999, 1.0, -0.5, f64::NAN];
    for r in values {
        for g in values {
            for b in values {
                let expected = if r > g && r > b {
                    r
                } else if g > b {
                    g
                } else {
                    b
                };
                assert_eq!(max_channel(num(r), num(g), num(b)).bits, expected.to_bits());
            }
        }
    }
}

#[test]
fn happens_below_the_chance() {
    assert!(happens(num(0.2), num(0.75)));
    assert!(!happens(num(0.75), num(0.75)));
    assert!(!happens(num(0.9), num(0.75)));
    assert!(happens(num(0.0), num(1.0e-9)));
}

#[test]
fn nothing_happens_with_chance_zero() {
    let mut i = 0u32;
    while i < 100 {
        let draw = f64::from(i) / 100.0;
        let p = max_channel(num(0.0), num(0.0), num(0.0));
        assert!(!happens(num(draw), p));
        i += 1;
    }
}

#[test]
fn faces_where_the_product_is_negative() {
    assert!(faces(num(-1.0)));
    assert!(faces(num(-1.0e-12)));
    assert!(!faces(num(0.0)));
    assert!(!faces(num(-0.0)));
    assert!(!faces(num(0.7)));
    assert!(!faces(num(f64::NAN)));
}

#[test]
fn enters_where_the_product_is_positive() {
    assert!(enters(num(1.0)));
    assert!(enters(num(1.0e-12)));
    assert!(!enters(num(0.0)));
    assert!(!enters(num(-1.0)));
    assert!(!enters(num(f64::NAN)));
}

#[test]
fn tangent_axis_goes_by_the_first_component() {
    assert_eq!(tangent_axis(num(0.0)), Axis::Y);
    assert_eq!(tangent_axis(num(0.05)), Axis::Y);
    assert_eq!(tangent_axis(num(-0.05)), Axis::Y);
    assert_eq!(tangent_axis(num(0.1)), Axis::Y);
    assert_eq!(tangent_axis(num(-0.1)), Axis::Y);
    assert_eq!(tangent_axis(num(0.100_000_1)), Axis::X);
    assert_eq!(tangent_axis(num(-0.100_000_1)), Axis::X);
    assert_eq!(tangent_axis(num(1.0)), Axis::X);
    assert_eq!(tangent_axis(num(-1.0)), Axis::X);
    assert_eq!(tangent_axis(num(f64::NAN)), Axis::Y);
}
