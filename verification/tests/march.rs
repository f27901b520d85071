use raymarcher::camera::Ray;
use raymarcher::fixed::{Fixed, SCALE};
use raymarcher::march::{march, penumbra, shadow, trace, travel, Bounds, EPSILON};
use raymarcher::scene::{distance_estimate, Sphere};
use raymarcher::vec3::Vec3;

fn fx(v: f64) -> Fixed {
    Fixed::from_raw((v * SCALE as f64).round() as i64)
}

fn v3(x: f64, y: f64, z: f64) -> Vec3 {
    Vec3::new(fx(x), fx(y), fx(z))
}

fn ball(x: f64, y: f64, z: f64, r: f64) -> Sphere {
    Sphere::new(v3(x, y, z), fx(r))
}

fn usual() -> Bounds {
    Bounds { start: fx(0.001), stop: fx(10.0), epsilon: Fixed::from_raw(EPSILON) }
}

fn black() -> Vec3 {
    v3(0.0, 0.0, 0.0)
}

fn white() -> Vec3 {
    v3(1.0, 1.0, 1.0)
}

#[test]
fn usual_threshold_is_a_hundred_thousandth() {
    assert_eq!(EPSILON, 42_950);
    assert_eq!(Fixed::from_raw(EPSILON), fx(0.00001));
}

#[test]
fn bounds_validity_is_a_positive_threshold() {
    assert!(usual().is_valid());
    let mut b = usual();
    b.epsilon = Fixed::zero();
    assert!(!b.is_valid());
    b.epsilon = fx(-0.00001);
    assert!(!b.is_valid());
}

#[test]
fn travel_moves_along_the_direction() {
    assert_eq!(travel(&v3(1.0, 2.0, 3.0), &v3(0.0, 0.0, 1.0), fx(2.5)), v3(1.0, 2.0, 5.5));
    assert_eq!(travel(&v3(1.0, 2.0, 3.0), &v3(-1.0, 0.5, 0.0), fx(2.0)), v3(-1.0, 3.0, 3.0));
}

#[test]
fn ray_at_the_centre_hits_at_distance_less_radius() {
    let scene = [ball(0.0, 0.0, 5.0, 1.0)];
    let ray = Ray { position: v3(0.0, 0.0, 0.0), direction: v3(0.0, 0.0, 1.0) };
    let hit = trace(&usual(), &ray, &scene).unwrap();
    assert_eq!(hit, fx(4.0));
}

#[test]
fn slanted_ray_at_the_centre_hits_at_distance_less_radius() {
    let eye = v3(1.0, 2.0, 3.0);
    let centre = v3(4.0, 6.0, 15.0);
    let scene = [Sphere::new(centre, fx(5.0))];
    let ray = Ray { position: eye, direction: centre.sub(eye).normalize() };
    let hit = trace(&usual(), &ray, &scene).unwrap();
    assert_eq!(centre.sub(eye).len(), fx(13.0));
    assert_eq!(hit.raw, 34_359_738_369);
    assert!((hit.raw - fx(8.0).raw).abs() <= EPSILON);
    let there = travel(&ray.position, &ray.direction, hit);
    assert!(distance_estimate(&there, &scene).raw < EPSILON);
}

#[test]
fn sphere_beyond_the_far_bound_is_not_reached() {
    let eye = v3(1.0, 2.0, 3.0);
    let centre = v3(4.0, 6.0, 15.0);
    let scene = [Sphere::new(centre, fx(2.0))];
    let ray = Ray { position: eye, direction: centre.sub(eye).normalize() };
    assert_eq!(trace(&usual(), &ray, &scene), None);
    assert_eq!(march(&usual(), ray, &scene, v3(0.0, 1.0, 0.0)), black());
}

#[test]
fn ray_aimed_away_misses_and_is_black() {
    let scene = [ball(0.0, 0.0, 5.0, 1.0)];
    let up = Ray { position: v3(0.0, 0.0, 0.0), direction: v3(0.0, 1.0, 0.0) };
    assert_eq!(trace(&usual(), &up, &scene), None);
    assert_eq!(march(&usual(), up, &scene, v3(0.0, 1.0, 0.0)), black());
    let back = Ray { position: v3(0.0, 0.0, 0.0), direction: v3(0.0, 0.0, -1.0) };
    assert_eq!(trace(&usual(), &back, &scene), None);
    assert_eq!(march(&usual(), back, &scene, v3(0.0, 1.0, 0.0)), black());
}

#[test]
fn empty_interval_misses() {
    let scene = [ball(0.0, 0.0, 5.0, 1.0)];
    let ray = Ray { position: v3(0.0, 0.0, 0.0), direction: v3(0.0, 0.0, 1.0) };
    let none = Bounds { start: fx(3.0), stop: fx(3.0), epsilon: Fixed::from_raw(EPSILON) };
    assert_eq!(trace(&none, &ray, &scene), None);
    let short = Bounds { start: fx(0.001), stop: fx(3.5), epsilon: Fixed::from_raw(EPSILON) };
    assert_eq!(trace(&short, &ray, &scene), None);
}

#[test]
fn march_starting_inside_a_sphere_hits_at_once() {
    let scene = [ball(0.0, 0.0, 0.0, 1.0)];
    let ray = Ray { position: v3(0.0, 0.0, 0.0), direction: v3(0.0, 0.0, 1.0) };
    assert_eq!(trace(&usual(), &ray, &scene), Some(fx(0.001)));
}

#[test]
fn march_through_an_empty_scene_misses() {
    let ray = Ray { position: v3(0.0, 0.0, 0.0), direction: v3(0.0, 0.0, 1.0) };
    assert_eq!(trace(&usual(), &ray, &[]), None);
    assert_eq!(march(&usual(), ray, &[], v3(0.0, 1.0, 0.0)), black());
}

#[test]
fn lit_surface_is_white() {
    let scene = [ball(0.0, 0.0, 5.0, 1.0)];
    let ray = Ray { position: v3(0.0, 0.0, 0.0), direction: v3(0.0, 0.0, 1.0) };
    let sun = v3(0.0, 1.0, -1.0).normalize();
    assert_eq!(sun.len(), Fixed::one());
    let hit = travel(&ray.position, &ray.direction, fx(4.0));
    assert_eq!(shadow(&usual(), &hit, &sun, &scene), Fixed::one());
    assert_eq!(march(&usual(), ray, &scene, sun), white());
}

#[test]
fn sphere_between_surface_and_sun_casts_a_hard_shadow() {
    let ground = ball(0.0, 0.0, 5.0, 1.0);
    let blocker = ball(0.0, 2.0, 2.0, 0.5);
    let scene = [ground, blocker];
    let ray = Ray { position: v3(0.0, 0.0, 0.0), direction: v3(0.0, 0.0, 1.0) };
    let sun = v3(0.0, 1.0, -1.0).normalize();
    assert_eq!(trace(&usual(), &ray, &scene), Some(fx(4.0)));
    let hit = travel(&ray.position, &ray.direction, fx(4.0));
    assert_eq!(shadow(&usual(), &hit, &sun, &scene), Fixed::zero());
    assert_eq!(march(&usual(), ray, &scene, sun), black());
    assert_eq!(march(&usual(), ray, &[ground], sun), white());
}

#[test]
fn surface_turned_from_the_sun_is_black() {
    let scene = [ball(0.0, 0.0, 5.0, 1.0)];
    let ray = Ray { position: v3(0.0, 0.0, 0.0), direction: v3(0.0, 0.0, 1.0) };
    assert_eq!(march(&usual(), ray, &scene, v3(0.0, 0.0, 1.0)), black());
}

#[test]
fn penumbra_follows_the_secant_formula() {
    assert_eq!(penumbra(fx(1.0), fx(1.0)), Some(Fixed::from_raw(22_317_304_716)));
    assert_eq!(penumbra(fx(0.5), fx(0.4)), Some(Fixed::from_raw(26_822_062_160)));
    assert_eq!(penumbra(fx(0.3), fx(0.5)), Some(Fixed::from_raw(17_559_161_440)));
    assert_eq!(penumbra(fx(2.0), fx(3.0)), Some(Fixed::from_raw(18_222_002_997)));
    let k = penumbra(fx(1.0), fx(1.0)).unwrap();
    let exact = 3.0 * (1.0f64 - 0.25).sqrt() / 0.5;
    assert!((k.raw as f64 / SCALE as f64 - exact).abs() < 1e-8);
}

#[test]
fn penumbra_has_no_value_where_the_offset_reaches_the_distance() {
    assert_eq!(penumbra(fx(0.1), fx(0.04)), None);
    assert_eq!(penumbra(fx(0.001), fx(0.00001)), None);
    assert_eq!(penumbra(fx(1.0), fx(0.5)), None);
    assert_eq!(penumbra(Fixed::zero(), fx(0.5)), None);
    assert_eq!(penumbra(fx(-1.0), fx(0.5)), None);
}

#[test]
fn penumbra_is_never_below_three() {
    for d in [0.00002, 0.001, 0.3, 1.0, 2.0, 9.0] {
        for prev in [0.00001, 0.001, 0.2, 1.0, 5.0, 100.0] {
            if let Some(k) = penumbra(fx(d), fx(prev)) {
                assert!(k.raw >= 3 * SCALE);
            }
        }
    }
}

#[test]
fn shadow_is_all_or_nothing() {
    let bounds = usual();
    for off in [1.0001, 1.001, 1.01, 1.1, 1.5, 2.0] {
        let scene = [ball(off, 2.0, 0.0, 1.0)];
        let res = shadow(&bounds, &v3(0.0, 0.0, 0.0), &v3(0.0, 1.0, 0.0), &scene);
        assert_eq!(res, Fixed::one());
    }
    for off in [0.0, 0.5, 0.9, 0.9999] {
        let scene = [ball(off, 2.0, 0.0, 1.0)];
        let res = shadow(&bounds, &v3(0.0, 0.0, 0.0), &v3(0.0, 1.0, 0.0), &scene);
        assert_eq!(res, Fixed::zero());
    }
}
