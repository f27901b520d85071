use raymarcher::camera::{cast_ray, Angle, Camera};
use raymarcher::fixed::{Fixed, SCALE};
use raymarcher::vec3::Vec3;

fn fx(v: f64) -> Fixed {
    Fixed::from_raw((v * SCALE as f64).round() as i64)
}

fn v3(x: f64, y: f64, z: f64) -> Vec3 {
    Vec3::new(fx(x), fx(y), fx(z))
}

fn angle(radians: f64) -> Angle {
    Angle { sin: fx(radians.sin()), cos: fx(radians.cos()) }
}

fn close(a: Fixed, b: f64, tolerance: f64) -> bool {
    (a.raw as f64 / SCALE as f64 - b).abs() <= tolerance
}

#[test]
fn angle_zero_has_sine_zero_and_cosine_one() {
    let a = Angle::zero();
    assert_eq!(a.sin, Fixed::zero());
    assert_eq!(a.cos, Fixed::one());
}

#[test]
fn level_camera_is_the_coordinate_axes() {
    let c = Camera::new(v3(1.0, 2.0, 3.0), Angle::zero(), Angle::zero());
    assert_eq!(c.origin, v3(1.0, 2.0, 3.0));
    assert_eq!(c.right, v3(1.0, 0.0, 0.0));
    assert_eq!(c.up, v3(0.0, 1.0, 0.0));
    assert_eq!(c.bottom_left, v3(-1.0, -1.0, 1.0));
}

#[test]
fn turned_camera_follows_the_basis_formulas() {
    let yaw = Angle { sin: fx(0.6), cos: fx(0.8) };
    let pitch = Angle { sin: fx(0.28), cos: fx(0.96) };
    let c = Camera::new(v3(0.0, 0.0, 0.0), yaw, pitch);
    assert_eq!(c.right, Vec3::new(fx(0.8), Fixed::zero(), fx(0.6)));
    let up = Vec3::new(fx(0.28).mul(fx(0.8)), fx(0.96), fx(-0.28).mul(fx(0.8)));
    assert_eq!(c.up, up);
    let forward = Vec3::new(fx(-0.6).mul(fx(0.96)), fx(0.28), fx(0.96).mul(fx(0.8)));
    assert_eq!(c.bottom_left, forward.sub(up).sub(c.right));
    assert!(close(c.up.x, 0.224, 1e-8));
    assert!(close(c.up.z, -0.224, 1e-8));
    assert!(close(c.bottom_left.x, -0.576 - 0.224 - 0.8, 1e-8));
    assert!(close(c.bottom_left.y, 0.28 - 0.96, 1e-8));
    assert!(close(c.bottom_left.z, 0.768 + 0.224 - 0.6, 1e-8));
}

#[test]
fn aim_spans_the_screen() {
    let c = Camera::new(v3(0.0, 0.0, 0.0), Angle::zero(), Angle::zero());
    assert_eq!(c.aim(fx(0.0), fx(0.0)), v3(-1.0, -1.0, 1.0));
    assert_eq!(c.aim(fx(0.5), fx(0.5)), v3(0.0, 0.0, 1.0));
    assert_eq!(c.aim(fx(0.25), fx(0.75)), v3(-0.5, 0.5, 1.0));
    assert_eq!(c.aim(fx(1.0), fx(1.0)), v3(1.0, 1.0, 1.0));
}

#[test]
fn ray_through_the_middle_runs_forward() {
    let c = Camera::new(v3(4.0, 5.0, 6.0), Angle::zero(), Angle::zero());
    let ray = cast_ray(&c, fx(0.5), fx(0.5)).unwrap();
    assert_eq!(ray.position, v3(4.0, 5.0, 6.0));
    assert_eq!(ray.direction, v3(0.0, 0.0, 1.0));
}

#[test]
fn ray_directions_have_length_one() {
    let samples = [0.0, 0.25, 0.5, 0.75, 0.999];
    let cameras = [
        Camera::new(v3(0.0, 0.0, 0.0), Angle::zero(), Angle::zero()),
        Camera::new(v3(1.0, -2.0, 0.5), angle(0.3), angle(-0.2)),
        Camera::new(v3(0.0, 0.0, 0.0), angle(2.5), angle(1.1)),
    ];
    for c in cameras {
        for x in samples {
            for y in samples {
                let ray = cast_ray(&c, fx(x), fx(y)).unwrap();
                assert!(close(ray.direction.len(), 1.0, 1e-4));
                assert_eq!(ray.position, c.origin);
            }
        }
    }
}

#[test]
fn ray_direction_is_the_normalised_aim() {
    let c = Camera::new(v3(0.0, 0.0, 0.0), angle(0.3), angle(-0.2));
    let aim = c.aim(fx(0.25), fx(0.75));
    let ray = cast_ray(&c, fx(0.25), fx(0.75)).unwrap();
    assert_eq!(ray.direction, aim.normalize());
}

#[test]
fn no_ray_where_the_aim_has_no_length() {
    let flat = Angle { sin: Fixed::zero(), cos: Fixed::zero() };
    let c = Camera::new(v3(0.0, 0.0, 0.0), flat, flat);
    assert_eq!(c.aim(fx(0.5), fx(0.5)), v3(0.0, 0.0, 0.0));
    assert_eq!(cast_ray(&c, fx(0.5), fx(0.5)), None);
    assert_eq!(cast_ray(&c, fx(0.0), fx(0.999)), None);
}
