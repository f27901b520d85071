//! The pinhole camera: a view basis derived from an eye position and two
//! angles, and the ray through a point of the screen.

use crate::fixed::Fixed;
use crate::vec3::{lemma_normalize_is_unit, Vec3, SHORTEST_NORMALIZED};
use vstd::prelude::*;

verus! {

/// An angle, given by its sine and its cosine.
#[derive(Clone, Copy, Debug, PartialEq, Eq, Structural)]
pub struct Angle {
    pub sin: Fixed,
    pub cos: Fixed,
}

/// The view basis of a camera. `bottom_left` is the direction of the screen
/// corner at `(0, 0)`: forward, less up, less right.
#[derive(Clone, Copy, Debug, PartialEq, Eq, Structural)]
pub struct Camera {
    pub origin: Vec3,
    pub bottom_left: Vec3,
    pub right: Vec3,
    pub up: Vec3,
}

/// A half-line: where it starts and the unit vector along which it runs.
#[derive(Clone, Copy, Debug, PartialEq, Eq, Structural)]
pub struct Ray {
    pub position: Vec3,
    pub direction: Vec3,
}

/// The negation of `v`, written as the difference from zero.
pub open spec fn negate_spec(v: Fixed) -> Fixed {
    Fixed::zero_spec().sub_spec(v)
}

impl Angle {
    /// The angle zero.
    pub fn zero() -> (a: Angle)
        ensures
            a == (Angle { sin: Fixed::zero_spec(), cos: Fixed::one_spec() }),
    {
        Angle { sin: Fixed::zero(), cos: Fixed::one() }
    }
}

impl Camera {
    /// The right-hand basis vector for a yaw: `(cos yaw, 0, sin yaw)`.
    pub open spec fn right_spec(yaw: Angle) -> Vec3 {
        Vec3 { x: yaw.cos, y: Fixed::zero_spec(), z: yaw.sin }
    }

    /// The upward basis vector:
    /// `(sin pitch * cos yaw, cos pitch, -(sin pitch * cos yaw))`.
    pub open spec fn up_spec(yaw: Angle, pitch: Angle) -> Vec3 {
        Vec3 {
            x: pitch.sin.mul_spec(yaw.cos),
            y: pitch.cos,
            z: negate_spec(pitch.sin).mul_spec(yaw.cos),
        }
    }

    /// The forward basis vector:
    /// `(-(sin yaw) * cos pitch, sin pitch, cos pitch * cos yaw)`.
    pub open spec fn forward_spec(yaw: Angle, pitch: Angle) -> Vec3 {
        Vec3 {
            x: negate_spec(yaw.sin).mul_spec(pitch.cos),
            y: pitch.sin,
            z: pitch.cos.mul_spec(yaw.cos),
        }
    }

    /// The camera at `origin` turned by `yaw` and `pitch`.
    pub open spec fn new_spec(origin: Vec3, yaw: Angle, pitch: Angle) -> Camera {
        let right = Camera::right_spec(yaw);
        let up = Camera::up_spec(yaw, pitch);
        Camera {
            origin,
            bottom_left: Camera::forward_spec(yaw, pitch).sub_spec(up).sub_spec(right),
            right,
            up,
        }
    }

    /// The direction, not yet of length one, through the screen point
    /// `(x, y)`: `bottom_left + up * y * 2 + right * x * 2`.
    pub open spec fn aim_spec(self, x: Fixed, y: Fixed) -> Vec3 {
        let two = Fixed::from_int_spec(2);
        self.bottom_left.add_spec(self.up.scale_spec(y).scale_spec(two)).add_spec(
            self.right.scale_spec(x).scale_spec(two),
        )
    }

    /// The ray through the screen point `(x, y)`, where the direction there
    /// has a length.
    pub open spec fn cast_ray_spec(self, x: Fixed, y: Fixed) -> Option<Ray> {
        let aim = self.aim_spec(x, y);
        if aim.len_spec().raw > 0 {
            Some(Ray { position: self.origin, direction: aim.normalize_spec() })
        } else {
            None
        }
    }

    /// Builds the view basis of a camera at `origin`, turned by `yaw` about
    /// the vertical axis and tilted by `pitch`. The basis is neither
    /// normalised nor made orthogonal; for the angle zero twice it is the
    /// three coordinate axes.
    pub fn new(origin: Vec3, yaw: Angle, pitch: Angle) -> (camera: Camera)
        ensures
            camera == Camera::new_spec(origin, yaw, pitch),
    {
        let zero = Fixed::zero();
        let right = Vec3::new(yaw.cos, zero, yaw.sin);
        let up = Vec3::new(pitch.sin.mul(yaw.cos), pitch.cos, zero.sub(pitch.sin).mul(yaw.cos));
        let forward = Vec3::new(zero.sub(yaw.sin).mul(pitch.cos), pitch.sin, pitch.cos.mul(yaw.cos));
        Camera { origin, bottom_left: forward.sub(up).sub(right), right, up }
    }

    /// The direction, not yet of length one, through the screen point `(x, y)`.
    pub fn aim(&self, x: Fixed, y: Fixed) -> (v: Vec3)
        ensures
            v == self.aim_spec(x, y),
    {
        let two = Fixed::from_int(2);
        self.bottom_left.add(self.up.scale(y).scale(two)).add(self.right.scale(x).scale(two))
    }
}

/// The ray from the camera through the screen point `(x, y)`, both
/// coordinates running from 0 to 1 across the screen. There is no ray where
/// the direction through that point has length zero. The direction of the ray
/// is a unit vector, but where the direction through the point is shorter
/// than `SHORTEST_NORMALIZED` or as long as the largest number.
pub fn cast_ray(camera: &Camera, x: Fixed, y: Fixed) -> (ray: Option<Ray>)
    ensures
        ray == camera.cast_ray_spec(x, y),
        ray matches Some(r) ==> r.position == camera.origin,
        ray matches Some(r) ==> SHORTEST_NORMALIZED <= camera.aim_spec(x, y).len_spec().raw < i64::MAX
            ==> r.direction.is_unit_spec(),
{
    proof {
        let aim = camera.aim_spec(x, y);
        if SHORTEST_NORMALIZED <= aim.len_spec().raw < i64::MAX {
            lemma_normalize_is_unit(aim);
        }
    }
    let aim = camera.aim(x, y);
    if aim.len().raw > 0 {
        Some(Ray { position: camera.origin, direction: aim.normalize() })
    } else {
        None
    }
}

/// With both angles zero the basis is the coordinate axes: right along x, up
/// along y, and the screen corner ahead along z, one down and one to the left.
pub proof fn lemma_level_camera(origin: Vec3)
    ensures
        ({
            let level = Angle { sin: Fixed::zero_spec(), cos: Fixed::one_spec() };
            let one = Fixed::one_spec();
            let zero = Fixed::zero_spec();
            let minus_one = Fixed::from_int_spec(-1i32);
            Camera::new_spec(origin, level, level) == (Camera {
                origin,
                bottom_left: Vec3 { x: minus_one, y: minus_one, z: one },
                right: Vec3 { x: one, y: zero, z: zero },
                up: Vec3 { x: zero, y: one, z: zero },
            })
        }),
{
    let s = crate::fixed::SCALE as int;
    assert(s == 0x1_0000_0000);
    assert(0 * s == 0);
    assert(s * s == 0x1_0000_0000_0000_0000) by (nonlinear_arith)
        requires
            s == 0x1_0000_0000,
    ;
    assert((s * s) / s == s) by (nonlinear_arith)
        requires
            s == 0x1_0000_0000,
    ;
    assert(0int / s == 0);
}

} // verus!
