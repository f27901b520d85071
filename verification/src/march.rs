//! Sphere tracing: the march along a ray that finds the first surface, and
//! the march from there toward the light that estimates how much of it
//! arrives.

use crate::camera::Ray;
use crate::fixed::{lemma_root_at_least, Fixed, SCALE};
use crate::scene::{distance_estimate, distance_spec, Sphere};
use crate::vec3::Vec3;
use vstd::prelude::*;

verus! {

/// The usual threshold: one hundred-thousandth, in units of `1 / SCALE`.
pub const EPSILON: i64 = 42_950;

/// The stretch of a ray that is searched, and the distance below which a
/// point counts as lying on a surface.
#[derive(Clone, Copy, Debug, PartialEq, Eq, Structural)]
pub struct Bounds {
    pub start: Fixed,
    pub stop: Fixed,
    pub epsilon: Fixed,
}

impl Bounds {
    /// The threshold is positive, so that every step of a march advances.
    pub open spec fn wf(self) -> bool {
        self.epsilon.raw > 0
    }

    /// Whether the threshold is positive.
    pub fn is_valid(&self) -> (ok: bool)
        ensures
            ok == self.wf(),
    {
        self.epsilon.raw > 0
    }
}

/// The point at distance `t` along the line from `origin` in `direction`.
pub open spec fn point_at(origin: Vec3, direction: Vec3, t: Fixed) -> Vec3 {
    origin.add_spec(direction.scale_spec(t))
}

/// The march from distance `t` on: the first visited distance at which the
/// scene is nearer than the threshold, each visit advancing by the distance
/// to the scene; none where the march reaches `stop` first.
pub open spec fn trace_from(scene: Seq<Sphere>, ray: Ray, bounds: Bounds, t: Fixed) -> Option<Fixed>
    decreases i64::MAX - t.raw,
    when bounds.wf()
{
    if t.raw >= bounds.stop.raw {
        None
    } else {
        let d = distance_spec(point_at(ray.position, ray.direction, t), scene);
        if d.raw < bounds.epsilon.raw {
            Some(t)
        } else {
            trace_from(scene, ray, bounds, t.add_spec(d))
        }
    }
}

/// The distance along `ray` at which the march from `bounds.start` meets a
/// surface.
pub open spec fn trace_spec(scene: Seq<Sphere>, ray: Ray, bounds: Bounds) -> Option<Fixed> {
    trace_from(scene, ray, bounds, bounds.start)
}

/// The penumbra estimate of one shadow step at distance `d` from the scene,
/// the step before having been at distance `prev`. With
/// `y = d^2 / (2 * prev)` it is `3 * sqrt(d^2 - y^2) / (d - y)`. There is
/// none where `y` reaches `d`: the quotient then has no finite value.
pub open spec fn penumbra_spec(d: Fixed, prev: Fixed) -> Option<Fixed>
    recommends
        prev.raw > 0,
{
    let y = d.mul_div_spec(d, prev.add_spec(prev));
    let gap = d.sub_spec(y);
    if gap.raw <= 0 {
        None
    } else {
        Some(Fixed::from_int_spec(3).mul_div_spec(d.leg_spec(y), gap))
    }
}

/// The attenuation after one shadow step: the smaller of the attenuation
/// before it and the step's penumbra estimate, where there is one.
pub open spec fn attenuate_spec(res: Fixed, d: Fixed, prev: Fixed) -> Fixed {
    match penumbra_spec(d, prev) {
        Some(k) => res.min_spec(k),
        None => res,
    }
}

/// The shadow march from distance `t` on, with the previous step's distance
/// `prev` and the attenuation `res` so far: zero as soon as the scene is
/// nearer than the threshold, else the attenuation when the march reaches
/// `stop`.
pub open spec fn shadow_from(
    scene: Seq<Sphere>,
    origin: Vec3,
    sun: Vec3,
    bounds: Bounds,
    t: Fixed,
    prev: Fixed,
    res: Fixed,
) -> Fixed
    decreases i64::MAX - t.raw,
    when bounds.wf()
{
    if t.raw >= bounds.stop.raw {
        res
    } else {
        let d = distance_spec(point_at(origin, sun, t), scene);
        if d.raw < bounds.epsilon.raw {
            Fixed::zero_spec()
        } else {
            shadow_from(scene, origin, sun, bounds, t.add_spec(d), d, attenuate_spec(res, d, prev))
        }
    }
}

/// The share of the light that reaches `origin` from the direction `sun`.
pub open spec fn shadow_spec(scene: Seq<Sphere>, origin: Vec3, sun: Vec3, bounds: Bounds) -> Fixed {
    shadow_from(scene, origin, sun, bounds, bounds.start, bounds.epsilon, Fixed::one_spec())
}

/// The colour black.
pub open spec fn black_spec() -> Vec3 {
    Vec3 { x: Fixed::zero_spec(), y: Fixed::zero_spec(), z: Fixed::zero_spec() }
}

/// The colour white.
pub open spec fn white_spec() -> Vec3 {
    Vec3 { x: Fixed::one_spec(), y: Fixed::one_spec(), z: Fixed::one_spec() }
}

/// The colour seen along `ray`: black where the ray meets no surface, else
/// white dimmed by the shadow at the point where it does.
pub open spec fn march_spec(scene: Seq<Sphere>, ray: Ray, sun: Vec3, bounds: Bounds) -> Vec3 {
    match trace_spec(scene, ray, bounds) {
        None => black_spec(),
        Some(t) => white_spec().scale_spec(
            shadow_spec(scene, point_at(ray.position, ray.direction, t), sun, bounds),
        ),
    }
}

/// The point at distance `t` along the line from `origin` in `direction`.
pub fn travel(origin: &Vec3, direction: &Vec3, t: Fixed) -> (p: Vec3)
    ensures
        p == point_at(*origin, *direction, t),
{
    origin.add(direction.scale(t))
}

/// The primary march: the distance along `ray` at which it first comes
/// within the threshold of a surface, if it does so before `bounds.stop`.
pub fn trace(bounds: &Bounds, ray: &Ray, scene: &[Sphere]) -> (hit: Option<Fixed>)
    requires
        bounds.wf(),
    ensures
        hit == trace_spec(scene@, *ray, *bounds),
        hit matches Some(t) ==> bounds.start.raw <= t.raw < bounds.stop.raw && distance_spec(
            point_at(ray.position, ray.direction, t),
            scene@,
        ).raw < bounds.epsilon.raw,
{
    let mut t = bounds.start;
    while t.raw < bounds.stop.raw
        invariant
            bounds.wf(),
            bounds.start.raw <= t.raw,
            trace_from(scene@, *ray, *bounds, t) == trace_spec(scene@, *ray, *bounds),
        decreases i64::MAX - t.raw,
    {
        let d = distance_estimate(&travel(&ray.position, &ray.direction, t), scene);
        if d.raw < bounds.epsilon.raw {
            return Some(t);
        }
        t = t.add(d);
    }
    None
}

/// The penumbra estimate of one shadow step.
pub fn penumbra(d: Fixed, prev: Fixed) -> (k: Option<Fixed>)
    requires
        prev.raw > 0,
    ensures
        k == penumbra_spec(d, prev),
{
    let twice = prev.add(prev);
    let y = d.mul_div(d, twice);
    let gap = d.sub(y);
    if gap.raw <= 0 {
        None
    } else {
        Some(Fixed::from_int(3).mul_div(d.leg(y), gap))
    }
}

/// The shadow march: the share of the light that reaches `origin` from the
/// direction `sun`. It starts at one; each step takes the smaller of it and
/// the step's penumbra estimate, and a surface within the threshold takes
/// it all.
pub fn shadow(bounds: &Bounds, origin: &Vec3, sun: &Vec3, scene: &[Sphere]) -> (res: Fixed)
    requires
        bounds.wf(),
    ensures
        res == shadow_spec(scene@, *origin, *sun, *bounds),
        res == Fixed::zero_spec() || res == Fixed::one_spec(),
{
    proof {
        lemma_shadow_all_or_nothing(scene@, *origin, *sun, *bounds);
    }
    let mut res = Fixed::one();
    let mut previous = bounds.epsilon;
    let mut t = bounds.start;
    while t.raw < bounds.stop.raw
        invariant
            bounds.wf(),
            previous.raw > 0,
            shadow_from(scene@, *origin, *sun, *bounds, t, previous, res) == shadow_spec(
                scene@,
                *origin,
                *sun,
                *bounds,
            ),
        decreases i64::MAX - t.raw,
    {
        let d = distance_estimate(&travel(origin, sun, t), scene);
        if d.raw < bounds.epsilon.raw {
            return Fixed::zero();
        }
        match penumbra(d, previous) {
            Some(k) => {
                res = res.min(k);
            },
            None => {},
        }
        previous = d;
        t = t.add(d);
    }
    res
}

/// The colour seen along `ray` in a scene lit from the direction `sun`.
pub fn march(bounds: &Bounds, ray: Ray, scene: &[Sphere], sun: Vec3) -> (colour: Vec3)
    requires
        bounds.wf(),
    ensures
        colour == march_spec(scene@, ray, sun, *bounds),
        colour == black_spec() || colour == white_spec(),
{
    proof {
        lemma_march_black_or_white(scene@, ray, sun, *bounds);
    }
    match trace(bounds, &ray, scene) {
        None => Vec3::new(Fixed::zero(), Fixed::zero(), Fixed::zero()),
        Some(t) => {
            let p = travel(&ray.position, &ray.direction, t);
            let res = shadow(bounds, &p, &sun, scene);
            Vec3::new(Fixed::one(), Fixed::one(), Fixed::one()).scale(res)
        },
    }
}

/// A march that starts at `t` on a stretch where the scene is never nearer
/// than the threshold meets nothing.
proof fn lemma_clear_from(scene: Seq<Sphere>, ray: Ray, bounds: Bounds, t: Fixed)
    requires
        bounds.wf(),
        bounds.start.raw <= t.raw,
        forall|u: Fixed|
            bounds.start.raw <= u.raw < bounds.stop.raw ==> distance_spec(
                #[trigger] point_at(ray.position, ray.direction, u),
                scene,
            ).raw >= bounds.epsilon.raw,
    ensures
        trace_from(scene, ray, bounds, t) is None,
    decreases i64::MAX - t.raw,
{
    if t.raw < bounds.stop.raw {
        let d = distance_spec(point_at(ray.position, ray.direction, t), scene);
        lemma_clear_from(scene, ray, bounds, t.add_spec(d));
    }
}

/// A ray that stays clear of the scene misses: where the scene is at least
/// the threshold away from every point of the searched stretch, the march
/// meets nothing and the colour is black.
pub proof fn lemma_clear_ray_is_black(scene: Seq<Sphere>, ray: Ray, sun: Vec3, bounds: Bounds)
    requires
        bounds.wf(),
        forall|u: Fixed|
            bounds.start.raw <= u.raw < bounds.stop.raw ==> distance_spec(
                #[trigger] point_at(ray.position, ray.direction, u),
                scene,
            ).raw >= bounds.epsilon.raw,
    ensures
        trace_spec(scene, ray, bounds) is None,
        march_spec(scene, ray, sun, bounds) == black_spec(),
{
    lemma_clear_from(scene, ray, bounds, bounds.start);
}

/// A penumbra estimate is never below three: the leg `sqrt(d^2 - y^2)` is at
/// least `d - y` whenever `0 <= y < d`.
pub proof fn lemma_penumbra_at_least_three(d: Fixed, prev: Fixed)
    requires
        prev.raw > 0,
    ensures
        penumbra_spec(d, prev) matches Some(k) ==> k.raw >= 3 * SCALE,
{
    let twice = prev.add_spec(prev);
    let y = d.mul_div_spec(d, twice);
    let gap = d.sub_spec(y);
    if gap.raw > 0 {
        let leg = d.leg_spec(y);
        let three = Fixed::from_int_spec(3);
        let g = gap.raw as int;
        assert(twice.raw > 0);
        assert(d.raw * d.raw >= 0) by (nonlinear_arith);
        assert((d.raw * d.raw) / (twice.raw as int) >= 0) by (nonlinear_arith)
            requires
                d.raw * d.raw >= 0,
                twice.raw > 0,
        ;
        assert(y.raw >= 0);
        assert(g == d.raw - y.raw);
        let n = d.raw * d.raw - y.raw * y.raw;
        assert(n >= g * g && g * g > 0) by (nonlinear_arith)
            requires
                n == d.raw * d.raw - y.raw * y.raw,
                g == d.raw - y.raw,
                g > 0,
                y.raw >= 0,
        ;
        lemma_root_at_least(n, g);
        assert(leg.raw >= g);
        assert(three.raw == 3 * SCALE);
        assert(SCALE == 0x1_0000_0000);
        assert((three.raw * leg.raw) / g >= three.raw) by (nonlinear_arith)
            requires
                three.raw > 0,
                leg.raw >= g,
                g > 0,
        ;
        assert(three.raw * leg.raw >= 0) by (nonlinear_arith)
            requires
                three.raw > 0,
                leg.raw >= 0,
        ;
    }
}

/// A shadow march that goes on with all of the light ends with all of it or
/// with none.
proof fn lemma_shadow_from_all_or_nothing(
    scene: Seq<Sphere>,
    origin: Vec3,
    sun: Vec3,
    bounds: Bounds,
    t: Fixed,
    prev: Fixed,
)
    requires
        bounds.wf(),
        prev.raw > 0,
    ensures
        ({
            let res = shadow_from(scene, origin, sun, bounds, t, prev, Fixed::one_spec());
            res == Fixed::zero_spec() || res == Fixed::one_spec()
        }),
    decreases i64::MAX - t.raw,
{
    if t.raw < bounds.stop.raw {
        let d = distance_spec(point_at(origin, sun, t), scene);
        if d.raw >= bounds.epsilon.raw {
            lemma_penumbra_at_least_three(d, prev);
            assert(attenuate_spec(Fixed::one_spec(), d, prev) == Fixed::one_spec());
            lemma_shadow_from_all_or_nothing(scene, origin, sun, bounds, t.add_spec(d), d);
        }
    }
}

/// The shadow is hard: since no penumbra estimate is below one, a shadow
/// march reports all of the light or none of it.
pub proof fn lemma_shadow_all_or_nothing(scene: Seq<Sphere>, origin: Vec3, sun: Vec3, bounds: Bounds)
    requires
        bounds.wf(),
    ensures
        ({
            let res = shadow_spec(scene, origin, sun, bounds);
            res == Fixed::zero_spec() || res == Fixed::one_spec()
        }),
{
    lemma_shadow_from_all_or_nothing(scene, origin, sun, bounds, bounds.start, bounds.epsilon);
}

/// A surface within the threshold of the first point of the shadow march
/// takes all the light.
pub proof fn lemma_blocked_at_once(scene: Seq<Sphere>, origin: Vec3, sun: Vec3, bounds: Bounds)
    requires
        bounds.wf(),
        bounds.start.raw < bounds.stop.raw,
        distance_spec(point_at(origin, sun, bounds.start), scene).raw < bounds.epsilon.raw,
    ensures
        shadow_spec(scene, origin, sun, bounds) == Fixed::zero_spec(),
{
}

/// White dimmed by `res` is the grey whose three components are `res`.
pub proof fn lemma_dimmed_white(res: Fixed)
    ensures
        white_spec().scale_spec(res) == (Vec3 { x: res, y: res, z: res }),
{
    let s = SCALE as int;
    let r = res.raw as int;
    assert(s == 0x1_0000_0000);
    if r >= 0 {
        assert(s * r >= 0 && (s * r) / s == r) by (nonlinear_arith)
            requires
                s == 0x1_0000_0000,
                r >= 0,
        ;
    } else {
        assert(s * r < 0 && (-(s * r)) / s == -r) by (nonlinear_arith)
            requires
                s == 0x1_0000_0000,
                r < 0,
        ;
    }
    assert(Fixed::one_spec().mul_spec(res) == res);
}

/// Every colour that a march gives is black or white.
pub proof fn lemma_march_black_or_white(scene: Seq<Sphere>, ray: Ray, sun: Vec3, bounds: Bounds)
    requires
        bounds.wf(),
    ensures
        ({
            let c = march_spec(scene, ray, sun, bounds);
            c == black_spec() || c == white_spec()
        }),
{
    match trace_spec(scene, ray, bounds) {
        None => {},
        Some(t) => {
            let p = point_at(ray.position, ray.direction, t);
            lemma_shadow_all_or_nothing(scene, p, sun, bounds);
            lemma_dimmed_white(shadow_spec(scene, p, sun, bounds));
        },
    }
}

} // verus!
