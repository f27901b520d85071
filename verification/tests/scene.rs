use raymarcher::fixed::{Fixed, SCALE};
use raymarcher::scene::{distance_estimate, Sphere};
use raymarcher::vec3::Vec3;

fn fx(v: f64) -> Fixed {
    Fixed::from_raw((v * SCALE as f64).round() as i64)
}

fn v3(x: f64, y: f64, z: f64) -> Vec3 {
    Vec3::new(fx(x), fx(y), fx(z))
}

fn ball(x: f64, y: f64, z: f64, r: f64) -> Sphere {
    Sphere::new(v3(x, y, z), fx(r))
}

#[test]
fn sphere_keeps_centre_and_radius() {
    let s = Sphere::new(v3(1.0, 2.0, 3.0), fx(0.5));
    assert_eq!(s.origin, v3(1.0, 2.0, 3.0));
    assert_eq!(s.radius, fx(0.5));
}

#[test]
fn sphere_validity_is_a_positive_radius() {
    assert!(ball(0.0, 0.0, 0.0, 1.0).is_valid());
    assert!(Sphere::new(v3(0.0, 0.0, 0.0), Fixed::from_raw(1)).is_valid());
    assert!(!ball(0.0, 0.0, 0.0, 0.0).is_valid());
    assert!(!ball(0.0, 0.0, 0.0, -1.0).is_valid());
}

#[test]
fn distance_to_one_sphere_is_length_less_radius() {
    let s = ball(0.0, 0.0, 2.0, 1.0);
    let points = [
        v3(0.0, 0.0, 0.0),
        v3(0.0, 0.0, 2.0),
        v3(3.0, 4.0, 2.0),
        v3(0.3, -0.7, 1.9),
        v3(-12.5, 8.25, 100.0),
    ];
    for p in points {
        let expected = p.sub(s.origin).len().sub(s.radius);
        assert_eq!(distance_estimate(&p, &[s]), expected);
        assert_eq!(s.distance(&p), expected);
    }
    assert_eq!(distance_estimate(&v3(0.0, 0.0, 0.0), &[s]), fx(1.0));
    assert_eq!(distance_estimate(&v3(3.0, 4.0, 2.0), &[s]), fx(4.0));
}

#[test]
fn distance_inside_a_sphere_is_negative() {
    let s = ball(0.0, 0.0, 2.0, 1.0);
    assert_eq!(distance_estimate(&v3(0.0, 0.0, 2.0), &[s]), fx(-1.0));
    assert_eq!(distance_estimate(&v3(0.0, 0.5, 2.0), &[s]), fx(-0.5));
}

#[test]
fn distance_to_two_spheres_is_the_smaller() {
    let a = ball(0.0, 0.0, 0.0, 1.0);
    let b = ball(4.0, 0.0, 0.0, 0.5);
    let inside_a = v3(0.25, 0.0, 0.0);
    let inside_b = v3(4.0, 0.25, 0.0);
    let between = v3(2.0, 0.0, 0.0);
    let above = v3(0.0, 3.0, 0.0);
    let beyond = v3(10.0, 0.0, 0.0);
    let behind = v3(-2.0, 0.0, 0.0);
    for p in [inside_a, inside_b, between, above, beyond, behind] {
        let da = distance_estimate(&p, &[a]);
        let db = distance_estimate(&p, &[b]);
        assert_eq!(distance_estimate(&p, &[a, b]), da.min(db));
    }
    assert_eq!(distance_estimate(&inside_a, &[a, b]), fx(-0.75));
    assert_eq!(distance_estimate(&inside_b, &[a, b]), fx(-0.25));
    assert_eq!(distance_estimate(&between, &[a, b]), fx(1.0));
    assert_eq!(distance_estimate(&above, &[a, b]), fx(2.0));
    assert_eq!(distance_estimate(&beyond, &[a, b]), fx(5.5));
    assert_eq!(distance_estimate(&behind, &[a, b]), fx(1.0));
}

#[test]
fn distance_does_not_depend_on_the_order() {
    let a = ball(0.8, -0.3, 2.6, 0.5);
    let b = ball(-0.5, 0.0, 3.0, 1.0);
    let c = ball(0.0, 5.0, 0.0, 2.0);
    for p in [v3(0.0, 0.0, 0.0), v3(1.0, 1.0, 1.0), v3(-3.0, 2.0, 7.0)] {
        let d = distance_estimate(&p, &[a, b, c]);
        assert_eq!(distance_estimate(&p, &[c, a, b]), d);
        assert_eq!(distance_estimate(&p, &[b, c, a]), d);
        assert_eq!(distance_estimate(&p, &[a, a, c, b]), d);
    }
}

#[test]
fn distance_to_an_empty_scene_is_the_largest_number() {
    assert_eq!(distance_estimate(&v3(1.0, 2.0, 3.0), &[]), Fixed::max_value());
}
