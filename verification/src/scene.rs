//! The scene: an ordered list of spheres, and the distance from a point to
//! the nearest of their surfaces.

use crate::fixed::Fixed;
use crate::vec3::Vec3;
use vstd::prelude::*;

verus! {

/// A sphere, given by its centre and its radius.
#[derive(Clone, Copy, Debug, PartialEq, Eq, Structural)]
pub struct Sphere {
    pub origin: Vec3,
    pub radius: Fixed,
}

impl Sphere {
    /// A sphere is well formed when its radius is positive.
    pub open spec fn wf(self) -> bool {
        self.radius.raw > 0
    }

    /// The signed distance from `point` to the surface: negative inside.
    pub open spec fn distance_spec(self, point: Vec3) -> Fixed {
        point.sub_spec(self.origin).len_spec().sub_spec(self.radius)
    }

    /// The sphere about `origin` with the given radius.
    pub fn new(origin: Vec3, radius: Fixed) -> (s: Sphere)
        ensures
            s == (Sphere { origin, radius }),
    {
        Sphere { origin, radius }
    }

    /// Whether the radius is positive.
    pub fn is_valid(&self) -> (ok: bool)
        ensures
            ok == self.wf(),
    {
        self.radius.raw > 0
    }

    /// The signed distance from `point` to the surface: negative inside.
    pub fn distance(&self, point: &Vec3) -> (d: Fixed)
        ensures
            d == self.distance_spec(*point),
    {
        point.sub(self.origin).len().sub(self.radius)
    }
}

/// The least signed distance from `point` to a sphere of `scene`; the largest
/// number where the scene is empty.
pub open spec fn distance_spec(point: Vec3, scene: Seq<Sphere>) -> Fixed
    decreases scene.len(),
{
    if scene.len() == 0 {
        Fixed::max_value_spec()
    } else {
        distance_spec(point, scene.drop_last()).min_spec(scene.last().distance_spec(point))
    }
}

/// The distance to a scene bounds the distance to each of its spheres from
/// below, and one sphere of a scene that is not empty attains it.
pub proof fn lemma_distance_is_least(point: Vec3, scene: Seq<Sphere>)
    ensures
        forall|i: int|
            0 <= i < scene.len() ==> distance_spec(point, scene).raw
                <= (#[trigger] scene[i]).distance_spec(point).raw,
        scene.len() > 0 ==> exists|i: int|
            0 <= i < scene.len() && distance_spec(point, scene) == (#[trigger] scene[i]).distance_spec(
                point,
            ),
    decreases scene.len(),
{
    if scene.len() > 0 {
        let head = scene.drop_last();
        lemma_distance_is_least(point, head);
        assert forall|i: int| 0 <= i < scene.len() implies distance_spec(point, scene).raw <= (
        #[trigger] scene[i]).distance_spec(point).raw by {
            if i < head.len() {
                assert(head[i] == scene[i]);
            }
        }
        if head.len() > 0 && distance_spec(point, scene) == distance_spec(point, head) {
            let i = choose|i: int|
                0 <= i < head.len() && distance_spec(point, head) == (#[trigger] head[i]).distance_spec(
                    point,
                );
            assert(head[i] == scene[i]);
        } else {
            if head.len() == 0 {
                assert(distance_spec(point, head) == Fixed::max_value_spec());
            }
            assert(distance_spec(point, scene) == scene[scene.len() - 1].distance_spec(point));
        }
    }
}

/// The distance to a scene of one sphere is the distance to that sphere.
pub proof fn lemma_single_sphere(point: Vec3, sphere: Sphere)
    ensures
        distance_spec(point, seq![sphere]) == sphere.distance_spec(point),
{
    let scene = seq![sphere];
    assert(scene.drop_last().len() == 0);
    assert(distance_spec(point, scene.drop_last()) == Fixed::max_value_spec());
    assert(scene.last() == sphere);
}

/// The distance to a scene of two spheres is the smaller of the distances to
/// the two.
pub proof fn lemma_two_spheres(point: Vec3, a: Sphere, b: Sphere)
    ensures
        distance_spec(point, seq![a, b]) == a.distance_spec(point).min_spec(b.distance_spec(point)),
{
    let scene = seq![a, b];
    assert(scene.drop_last() =~= seq![a]);
    assert(scene.last() == b);
    lemma_single_sphere(point, a);
}

/// The order of the spheres does not matter: two scenes that hold the same
/// spheres are equally far from every point.
pub proof fn lemma_order_irrelevant(point: Vec3, one: Seq<Sphere>, other: Seq<Sphere>)
    requires
        one.to_set() == other.to_set(),
    ensures
        distance_spec(point, one) == distance_spec(point, other),
{
    lemma_distance_is_least(point, one);
    lemma_distance_is_least(point, other);
    if one.len() == 0 {
        if other.len() > 0 {
            assert(other.to_set().contains(other[0]));
            assert(one.to_set().contains(other[0]));
        }
    } else {
        assert(one.to_set().contains(one[0]));
        assert(other.to_set().contains(one[0]));
        let i = choose|i: int|
            0 <= i < one.len() && distance_spec(point, one) == (#[trigger] one[i]).distance_spec(point);
        let j = choose|j: int|
            0 <= j < other.len() && distance_spec(point, other) == (#[trigger] other[j]).distance_spec(
                point,
            );
        assert(one.to_set().contains(one[i]));
        assert(other.to_set().contains(one[i]));
        let i2 = choose|k: int| 0 <= k < other.len() && other[k] == one[i];
        assert(other[i2] == one[i]);
        assert(other.to_set().contains(other[j]));
        assert(one.to_set().contains(other[j]));
        let j2 = choose|k: int| 0 <= k < one.len() && one[k] == other[j];
        assert(one[j2] == other[j]);
    }
}

/// The signed distance from `point` to the nearest surface of `scene`.
pub fn distance_estimate(point: &Vec3, scene: &[Sphere]) -> (d: Fixed)
    ensures
        d == distance_spec(*point, scene@),
{
    let mut min_distance = Fixed::max_value();
    let mut i: usize = 0;
    while i < scene.len()
        invariant
            i <= scene.len(),
            min_distance == distance_spec(*point, scene@.take(i as int)),
        decreases scene.len() - i,
    {
        let dist = scene[i].distance(point);
        proof {
            let next = scene@.take(i + 1);
            assert(next.drop_last() =~= scene@.take(i as int));
            assert(next.last() == scene@[i as int]);
        }
        min_distance = min_distance.min(dist);
        i += 1;
    }
    assert(scene@.take(scene.len() as int) =~= scene@);
    min_distance
}

} // verus!
