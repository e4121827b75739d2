//! Hits of a ray on the scene: which root of a sphere's quadratic counts, and
//! which of several hits is the nearest.

use crate::scalar::{Scalar, INFINITY_BITS};
use crate::vec3::Vec3;
use vstd::prelude::*;

verus! {

/// The word of 0.0: where along a ray the renderer begins to look for hits.
pub const RENDER_NEAR_BITS: u32 = 0x0000_0000;

/// The word of 2.0: how far along a ray the renderer looks for hits. The
/// cutoff holds for the whole scene, not for one shape.
pub const RENDER_FAR_BITS: u32 = 0x4000_0000;

/// Where a ray met a surface.
///
/// `t` is the parameter along the ray. `normal` is the outward surface normal
/// for a shape that is intersected in closed form. For a shape that is
/// marched to, it is no normal at all but a shading signal in three channels
/// (see [`Intersection::marched`]).
#[derive(Clone, Copy, Debug, PartialEq, Eq, Structural)]
pub struct Intersection {
    pub point: Vec3,
    pub normal: Vec3,
    pub t: Scalar,
    pub is_front_facing: bool,
}

impl Intersection {
    /// A hit found in closed form. It always counts as front facing: the
    /// normal is not turned for a ray that starts inside the shape.
    pub fn analytic(point: Vec3, normal: Vec3, t: Scalar) -> (hit: Intersection)
        ensures
            hit == (Intersection { point, normal, t, is_front_facing: true }),
    {
        Intersection { point, normal, t, is_front_facing: true }
    }

    /// A hit found by marching. The place of the normal takes the shading
    /// signal that the march gathered: `shade` in the first two channels,
    /// `highlight` in the third. Such a hit never counts as front facing.
    pub fn marched(point: Vec3, shade: Scalar, highlight: Scalar, t: Scalar) -> (hit: Intersection)
        ensures
            hit == (Intersection {
                point,
                normal: Vec3 { x: shade, y: shade, z: highlight },
                t,
                is_front_facing: false,
            }),
    {
        let normal = Vec3 { x: shade, y: shade, z: highlight };
        Intersection { point, normal, t, is_front_facing: false }
    }
}

/// Whether `t` lies in the interval from `t_min` to `t_max`, both ends
/// included. The test is made by exclusion, so a NaN, which is neither below
/// nor above anything, passes it.
pub open spec fn within(t: Scalar, t_min: Scalar, t_max: Scalar) -> bool {
    !t.spec_lt(t_min) && !t_max.spec_lt(t)
}

/// The root at which a ray enters or leaves a sphere, from the quadratic's
/// reduced discriminant and its two roots, `near` the smaller.
///
/// A negative discriminant is a miss. Otherwise `near` counts if it lies in
/// the interval, else `far` if that does, else the ray misses.
pub open spec fn spec_sphere_root(
    discriminant: Scalar,
    near: Scalar,
    far: Scalar,
    t_min: Scalar,
    t_max: Scalar,
) -> Option<Scalar> {
    if discriminant.spec_lt(Scalar { bits: 0 }) {
        None
    } else if within(near, t_min, t_max) {
        Some(near)
    } else if within(far, t_min, t_max) {
        Some(far)
    } else {
        None
    }
}

/// Picks the root of the sphere's quadratic that counts as the hit.
#[verifier::when_used_as_spec(spec_sphere_root)]
pub fn sphere_root(
    discriminant: Scalar,
    near: Scalar,
    far: Scalar,
    t_min: Scalar,
    t_max: Scalar,
) -> (root: Option<Scalar>)
    ensures
        root == spec_sphere_root(discriminant, near, far, t_min, t_max),
{
    if discriminant.lt(Scalar::from_bits(0)) {
        return None;
    }
    if !(near.lt(t_min) || t_max.lt(near)) {
        Some(near)
    } else if !(far.lt(t_min) || t_max.lt(far)) {
        Some(far)
    } else {
        None
    }
}

/// Whether entry `i` is a hit that the renderer can see: there is one, and
/// its `t` is a number below positive infinity.
pub open spec fn is_candidate(hits: Seq<Option<Intersection>>, i: int) -> bool {
    &&& 0 <= i < hits.len()
    &&& hits[i] is Some
    &&& hits[i]->0.t.spec_lt(Scalar { bits: INFINITY_BITS })
}

/// Whether entry `i` is the nearest hit: a candidate whose `t` no candidate
/// undercuts, and the first of those that share its `t`.
pub open spec fn is_nearest(hits: Seq<Option<Intersection>>, i: int) -> bool {
    &&& is_candidate(hits, i)
    &&& forall|j: int| #[trigger]
        is_candidate(hits, j) ==> hits[i]->0.t.quanta() <= hits[j]->0.t.quanta()
    &&& forall|j: int| #[trigger]
        is_candidate(hits, j) && j < i ==> hits[i]->0.t.quanta() < hits[j]->0.t.quanta()
}

/// What the search for the nearest hit may answer on `hits`: the place of
/// the nearest hit, or nothing where no entry is a candidate.
pub open spec fn selects(hits: Seq<Option<Intersection>>, found: Option<usize>) -> bool {
    match found {
        Some(i) => is_nearest(hits, i as int),
        None => forall|j: int| !#[trigger] is_candidate(hits, j),
    }
}

/// Finds the nearest of the hits that a ray made on the members of a scene,
/// one entry for each member, `None` where the ray missed it.
///
/// Every entry is looked at: a later hit that is nearer wins over an earlier
/// one, and of two that are equally near the earlier one stays.
pub fn nearest_hit(hits: &[Option<Intersection>]) -> (found: Option<usize>)
    ensures
        selects(hits@, found),
{
    let mut best: Option<usize> = None;
    let mut dist: Scalar = Scalar::from_bits(INFINITY_BITS);
    let mut i: usize = 0;
    while i < hits.len()
        invariant
            0 <= i <= hits.len(),
            selects(hits@.take(i as int), best),
            match best {
                Some(b) => dist == hits@[b as int]->0.t,
                None => dist == (Scalar { bits: INFINITY_BITS }),
            },
        decreases hits.len() - i,
    {
        let ghost before = hits@.take(i as int);
        let ghost after = hits@.take(i + 1);
        let mut improved: bool = false;
        match hits[i] {
            Some(hit) => {
                if hit.t.lt(dist) {
                    improved = true;
                    dist = hit.t;
                }
            },
            None => {},
        }
        proof {
            assert(forall|j: int| 0 <= j < i ==> before[j] == after[j]);
            assert(forall|j: int|
                is_candidate(before, j) <==> j < i && #[trigger] is_candidate(after, j));
        }
        if improved {
            best = Some(i);
        }
        i = i + 1;
    }
    assert(hits@.take(i as int) =~= hits@);
    best
}

/// The search has one answer: whatever it may answer on the same hits is the
/// same place. Nothing but the hits decides.
pub proof fn lemma_selection_is_unique(
    hits: Seq<Option<Intersection>>,
    first: Option<usize>,
    second: Option<usize>,
)
    requires
        selects(hits, first),
        selects(hits, second),
    ensures
        first == second,
{
    match (first, second) {
        (Some(i), Some(j)) => {
            assert(is_candidate(hits, i as int));
            assert(is_candidate(hits, j as int));
        },
        (Some(i), None) => {
            assert(is_candidate(hits, i as int));
        },
        (None, Some(j)) => {
            assert(is_candidate(hits, j as int));
        },
        (None, None) => {},
    }
}

/// The order of the scene does not decide how near the nearest hit is: two
/// lists that hold the same hits, each as often as the other, both have a
/// nearest hit or neither has, and the two are equally far along the ray.
pub proof fn lemma_nearest_ignores_order(
    one: Seq<Option<Intersection>>,
    other: Seq<Option<Intersection>>,
    found_one: Option<usize>,
    found_other: Option<usize>,
)
    requires
        one.to_multiset() == other.to_multiset(),
        selects(one, found_one),
        selects(other, found_other),
    ensures
        found_one is Some <==> found_other is Some,
        found_one is Some ==> one[found_one->0 as int]->0.t.quanta()
            == other[found_other->0 as int]->0.t.quanta(),
{
    one.to_multiset_ensures();
    other.to_multiset_ensures();
    if let Some(i) = found_one {
        assert(is_candidate(one, i as int));
        assert(one.contains(one[i as int]));
        assert(one.to_multiset().count(one[i as int]) > 0);
        assert(other.to_multiset().count(one[i as int]) > 0);
        assert(other.contains(one[i as int]));
        let j = choose|j: int| 0 <= j < other.len() && other[j] == one[i as int];
        assert(is_candidate(other, j));
    }
    if let Some(j) = found_other {
        assert(is_candidate(other, j as int));
        assert(other.contains(other[j as int]));
        assert(other.to_multiset().count(other[j as int]) > 0);
        assert(one.to_multiset().count(other[j as int]) > 0);
        assert(one.contains(other[j as int]));
        let i = choose|i: int| 0 <= i < one.len() && one[i] == other[j as int];
        assert(is_candidate(one, i));
    }
}

} // verus!
