use smallpt::geometry::{intersect, Roots, EPSILON, INFINITY};
use smallpt::math::Real;

fn num(v: f64) -> Real {
    Real::from_bits(v.to_bits())
}

fn roots(det: f64, t0: f64, t1: f64) -> Roots {
    Roots { det: num(det), t0: num(t0), t1: num(t1) }
}

/// The roots of a ray against a sphere, computed as the renderer does.
fn solve(origin: [f64; 3], dir: [f64; 3], centre: [f64; 3], radius: f64) -> Roots {
    let op = [centre[0] - origin[0], centre[1] - origin[1], centre[2] - origin[2]];
    let b = op[0] * dir[0] + op[1] * dir[1] + op[2] * dir[2];
    let det = b * b - (op[0] * op[0] + op[1] * op[1] + op[2] * op[2]) + radius * radius;
    let root = det.sqrt();
    roots(det, b - root, b + root)
}

fn hit(scene: &[Roots]) -> Option<(f64, usize)> {
    intersect(scene).map(|(t, id)| (f64::from_bits(t.bits), id))
}

#[test]
fn constants_are_the_documented_numbers() {
    assert_eq!(EPSILON, 1.0e-4f64.to_bits());
    assert_eq!(INFINITY, 1.0e20f64.to_bits());
}

#[test]
fn accept_takes_the_nearer_root() {
    let t = roots(4.0, 3.0, 7.0).accept().unwrap();
    assert_eq!(f64::from_bits(t.bits), 3.0);
}

#[test]
fn accept_takes_the_farther_root_from_inside() {
    let t = roots(4.0, -3.0, 7.0).accept().unwrap();
    assert_eq!(f64::from_bits(t.bits), 7.0);
}

#[test]
fn accept_rejects_a_sphere_behind_the_ray() {
    assert!(roots(4.0, -7.0, -3.0).accept().is_none());
}

#[test]
fn accept_rejects_a_negative_discriminant() {
    assert!(roots(-1.0, 3.0, 7.0).accept().is_none());
    assert!(roots(-1.0, f64::NAN, f64::NAN).accept().is_none());
}

#[test]
fn accept_rejects_roots_within_epsilon() {
    assert!(roots(1.0, -2.0, 1.0e-4).accept().is_none());
    assert!(roots(1.0, 1.0e-5, 1.0e-4).accept().is_none());
    assert!(roots(1.0, 0.0, 0.0).accept().is_none());
    let t = roots(1.0, -2.0, 1.000_1e-4).accept().unwrap();
    assert_eq!(f64::from_bits(t.bits), 1.000_1e-4);
}

#[test]
fn accept_rejects_nan_roots() {
    assert!(roots(f64::NAN, f64::NAN, f64::NAN).accept().is_none());
    assert!(roots(1.0, f64::NAN, f64::NAN).accept().is_none());
    let t = roots(1.0, f64::NAN, 2.0).accept().unwrap();
    assert_eq!(f64::from_bits(t.bits), 2.0);
}

#[test]
fn nearest_sphere_wins() {
    let scene = vec![roots(1.0, 5.0, 7.0), roots(1.0, 2.0, 3.0), roots(1.0, 4.0, 9.0)];
    assert_eq!(hit(&scene), Some((2.0, 1)));
}

#[test]
fn first_of_equal_hits_wins() {
    let scene = vec![roots(1.0, 5.0, 7.0), roots(1.0, 2.0, 3.0), roots(1.0, -1.0, 2.0)];
    assert_eq!(hit(&scene), Some((2.0, 1)));
}

#[test]
fn empty_scene_is_missed() {
    assert!(intersect(&[]).is_none());
}

#[test]
fn scene_of_misses_is_missed() {
    let scene = vec![roots(-1.0, 1.0, 2.0), roots(1.0, -5.0, -4.0), roots(1.0, 0.0, 1.0e-5)];
    assert!(intersect(&scene).is_none());
}

#[test]
fn hits_at_the_sentinel_do_not_count() {
    let scene = vec![roots(1.0, 1.0e20, 2.0e20), roots(1.0, 3.0e20, 4.0e20)];
    assert!(intersect(&scene).is_none());
    let scene = vec![roots(1.0, 1.0e20, 2.0e20), roots(1.0, 9.9e19, 4.0e20)];
    assert_eq!(hit(&scene), Some((9.9e19, 1)));
    let scene = vec![roots(1.0, f64::INFINITY, f64::INFINITY)];
    assert!(intersect(&scene).is_none());
}

#[test]
fn ray_through_the_centre_hits_the_surface() {
    let scene = vec![solve([0.0, 0.0, 50.0], [0.0, 0.0, -1.0], [0.0, 0.0, 0.0], 10.0)];
    let (t, id) = hit(&scene).unwrap();
    assert_eq!(id, 0);
    assert!((t - 40.0).abs() < 1.0e-9);
}

#[test]
fn ray_that_passes_beside_the_sphere_misses() {
    let scene = vec![solve([0.0, 10.5, 50.0], [0.0, 0.0, -1.0], [0.0, 0.0, 0.0], 10.0)];
    assert!(intersect(&scene).is_none());
}

#[test]
fn ray_that_points_away_misses() {
    let scene = vec![solve([0.0, 0.0, 50.0], [0.0, 0.0, 1.0], [0.0, 0.0, 0.0], 10.0)];
    assert!(intersect(&scene).is_none());
}

#[test]
fn ray_from_the_surface_outwards_does_not_hit_its_sphere() {
    let scene = vec![solve([0.0, 0.0, 10.0], [0.0, 0.0, 1.0], [0.0, 0.0, 0.0], 10.0)];
    assert!(intersect(&scene).is_none());
    let scene = vec![solve([10.0, 0.0, 0.0], [0.6, 0.8, 0.0], [0.0, 0.0, 0.0], 10.0)];
    assert!(intersect(&scene).is_none());
}

#[test]
fn ray_from_the_surface_inwards_hits_the_far_side() {
    let scene = vec![solve([0.0, 0.0, 10.0], [0.0, 0.0, -1.0], [0.0, 0.0, 0.0], 10.0)];
    let (t, id) = hit(&scene).unwrap();
    assert_eq!(id, 0);
    assert!((t - 20.0).abs() < 1.0e-9);
}

#[test]
fn nearer_of_two_spheres_in_a_row() {
    let origin = [0.0, 0.0, 50.0];
    let dir = [0.0, 0.0, -1.0];
    let scene = vec![
        solve(origin, dir, [0.0, 0.0, -100.0], 10.0),
        solve(origin, dir, [0.0, 0.0, 0.0], 10.0),
        solve(origin, dir, [30.0, 0.0, 0.0], 10.0),
    ];
    let (t, id) = hit(&scene).unwrap();
    assert_eq!(id, 1);
    assert!((t - 40.0).abs() < 1.0e-9);
}
