use wowitsaraytracer::geometry::{
    nearest_hit, sphere_root, Intersection, RENDER_FAR_BITS, RENDER_NEAR_BITS,
};
use wowitsaraytracer::scalar::Scalar;
use wowitsaraytracer::vec3::Vec3;

fn word(x: f32) -> Scalar {
    Scalar::from_bits(x.to_bits())
}

fn number(s: Scalar) -> f32 {
    f32::from_bits(s.to_bits())
}

fn words(v: [f32; 3]) -> Vec3 {
    Vec3::from_array([word(v[0]), word(v[1]), word(v[2])])
}

fn dot(a: [f32; 3], b: [f32; 3]) -> f32 {
    a[0] * b[0] + a[1] * b[1] + a[2] * b[2]
}

fn sub(a: [f32; 3], b: [f32; 3]) -> [f32; 3] {
    [a[0] - b[0], a[1] - b[1], a[2] - b[2]]
}

/// A sphere met by a ray: the arithmetic in plain numbers, the choice of the
/// root by the library.
fn hit_sphere(
    origin: [f32; 3],
    direction: [f32; 3],
    center: [f32; 3],
    radius: f32,
    t_min: f32,
    t_max: f32,
) -> Option<Intersection> {
    let oc = sub(origin, center);
    let a = dot(direction, direction);
    let half_b = dot(direction, oc);
    let c = dot(oc, oc) - radius * radius;
    let discriminant = half_b * half_b - a * c;
    let sqrtd = discriminant.sqrt();
    let near = (-half_b - sqrtd) / a;
    let far = (-half_b + sqrtd) / a;
    let root = sphere_root(word(discriminant), word(near), word(far), word(t_min), word(t_max))?;
    let t = number(root);
    let point = [
        origin[0] + direction[0] * t,
        origin[1] + direction[1] * t,
        origin[2] + direction[2] * t,
    ];
    let outward = sub(point, center);
    let normal = [outward[0] / radius, outward[1] / radius, outward[2] / radius];
    Some(Intersection::analytic(words(point), words(normal), root))
}

fn hit_at(t: f32) -> Option<Intersection> {
    Some(Intersection::analytic(words([0., 0., t]), words([0., 0., 1.]), word(t)))
}

#[test]
fn ray_through_the_center_of_a_unit_sphere_enters_at_four() {
    let hit = hit_sphere([0., 0., 5.], [0., 0., -1.], [0., 0., 0.], 1., 0., 10.).unwrap();
    assert_eq!(number(hit.t), 4.0);
    assert_eq!(hit.normal, words([0., 0., 1.]));
    assert_eq!(hit.point, words([0., 0., 1.]));
    assert!(hit.is_front_facing);
}

#[test]
fn ray_that_passes_beside_the_sphere_misses() {
    assert!(hit_sphere([0., 5., 5.], [0., 0., -1.], [0., 0., 0.], 1., 0., 10.).is_none());
    assert!(hit_sphere([3., 0., 5.], [0., 0., -1.], [0., 0., 0.], 1., 0., 100.).is_none());
}

#[test]
fn ray_tangent_to_the_sphere_has_one_root() {
    // Grazes the unit sphere at (0, 1, 0): the discriminant is exactly zero.
    let hit = hit_sphere([0., 1., 5.], [0., 0., -1.], [0., 0., 0.], 1., 0., 10.).unwrap();
    assert_eq!(number(hit.t), 5.0);
    assert_eq!(hit.point, words([0., 1., 0.]));
    assert_eq!(
        sphere_root(word(0.), word(5.), word(5.), word(0.), word(10.)),
        Some(word(5.))
    );
}

#[test]
fn sphere_behind_the_far_end_is_missed() {
    assert!(hit_sphere([0., 0., 5.], [0., 0., -1.], [0., 0., 0.], 1., 0., 2.).is_none());
}

#[test]
fn ray_from_inside_the_sphere_leaves_by_the_far_root() {
    let hit = hit_sphere([0., 0., 0.], [0., 0., -1.], [0., 0., 0.], 1., 0., 10.).unwrap();
    assert_eq!(number(hit.t), 1.0);
    assert!(hit.is_front_facing);
}

#[test]
fn sphere_root_prefers_the_near_root_in_range() {
    let root = sphere_root(word(1.), word(4.), word(6.), word(0.), word(10.));
    assert_eq!(root, Some(word(4.)));
}

#[test]
fn sphere_root_takes_the_far_root_when_the_near_one_is_out_of_range() {
    assert_eq!(
        sphere_root(word(1.), word(-1.), word(1.), word(0.), word(10.)),
        Some(word(1.))
    );
    assert_eq!(
        sphere_root(word(1.), word(11.), word(5.), word(0.), word(10.)),
        Some(word(5.))
    );
}

#[test]
fn sphere_root_misses_when_both_roots_are_out_of_range() {
    assert_eq!(sphere_root(word(1.), word(-3.), word(-1.), word(0.), word(10.)), None);
    assert_eq!(sphere_root(word(1.), word(11.), word(12.), word(0.), word(10.)), None);
    assert_eq!(sphere_root(word(1.), word(-1.), word(12.), word(0.), word(10.)), None);
}

#[test]
fn sphere_root_misses_on_a_negative_discriminant() {
    assert_eq!(sphere_root(word(-0.001), word(4.), word(6.), word(0.), word(10.)), None);
    assert_eq!(
        sphere_root(word(f32::NEG_INFINITY), word(4.), word(6.), word(0.), word(10.)),
        None
    );
}

#[test]
fn sphere_root_takes_the_ends_of_the_interval() {
    assert_eq!(
        sphere_root(word(1.), word(0.), word(6.), word(0.), word(10.)),
        Some(word(0.))
    );
    assert_eq!(
        sphere_root(word(1.), word(10.), word(12.), word(0.), word(10.)),
        Some(word(10.))
    );
    // Minus zero is zero.
    assert_eq!(
        sphere_root(word(-0.), word(-0.), word(6.), word(0.), word(10.)),
        Some(word(-0.))
    );
}

#[test]
fn sphere_root_lets_a_nan_through() {
    // A NaN is neither negative nor outside any interval.
    let nan = word(f32::NAN);
    assert_eq!(sphere_root(nan, nan, nan, word(0.), word(10.)), Some(nan));
    assert_eq!(sphere_root(word(1.), nan, word(5.), word(0.), word(10.)), Some(nan));
}

#[test]
fn analytic_hit_is_front_facing_and_marched_hit_is_not() {
    let a = Intersection::analytic(words([1., 2., 3.]), words([0., 1., 0.]), word(0.5));
    assert_eq!(a.point, words([1., 2., 3.]));
    assert_eq!(a.normal, words([0., 1., 0.]));
    assert_eq!(a.t, word(0.5));
    assert!(a.is_front_facing);
    let m = Intersection::marched(words([1., 2., 3.]), word(0.4), word(0.01), word(0.5));
    assert_eq!(m.point, words([1., 2., 3.]));
    assert_eq!(m.normal, words([0.4, 0.4, 0.01]));
    assert_eq!(m.t, word(0.5));
    assert!(!m.is_front_facing);
}

#[test]
fn nearest_of_two_overlapping_spheres_in_either_order() {
    let origin = [0., 0., 5.];
    let direction = [0., 0., -1.];
    let front = hit_sphere(origin, direction, [0., 0., 1.], 1., 0., 10.);
    let back = hit_sphere(origin, direction, [0., 0., 0.], 1., 0., 10.);
    assert_eq!(number(front.unwrap().t), 3.0);
    assert_eq!(number(back.unwrap().t), 4.0);

    let one = [front, back];
    let other = [back, front];
    assert_eq!(nearest_hit(&one), Some(0));
    assert_eq!(nearest_hit(&other), Some(1));
    let t_one = one[nearest_hit(&one).unwrap()].unwrap().t;
    let t_other = other[nearest_hit(&other).unwrap()].unwrap().t;
    assert_eq!(number(t_one), 3.0);
    assert_eq!(t_one, t_other);
}

#[test]
fn nearest_hit_looks_at_every_entry() {
    let hits = [hit_at(1.5), None, hit_at(1.0), hit_at(1.75), hit_at(0.25), None, hit_at(0.5)];
    assert_eq!(nearest_hit(&hits), Some(4));
}

#[test]
fn nearest_hit_keeps_the_first_of_equals() {
    let hits = [hit_at(1.0), hit_at(0.5), hit_at(0.5), hit_at(0.5)];
    assert_eq!(nearest_hit(&hits), Some(1));
    // The two zeros are one distance.
    let zeros = [hit_at(0.0), hit_at(-0.0)];
    assert_eq!(nearest_hit(&zeros), Some(0));
    let zeros = [hit_at(-0.0), hit_at(0.0)];
    assert_eq!(nearest_hit(&zeros), Some(0));
}

#[test]
fn nearest_hit_of_nothing_is_nothing() {
    assert_eq!(nearest_hit(&[]), None);
    assert_eq!(nearest_hit(&[None, None, None]), None);
}

#[test]
fn nearest_hit_passes_over_nan_and_infinity() {
    let hits = [hit_at(f32::NAN), hit_at(f32::INFINITY)];
    assert_eq!(nearest_hit(&hits), None);
    let hits = [hit_at(f32::NAN), hit_at(1.0), hit_at(f32::INFINITY), hit_at(f32::NAN)];
    assert_eq!(nearest_hit(&hits), Some(1));
    let hits = [hit_at(1.0), hit_at(f32::NEG_INFINITY), hit_at(-3.0)];
    assert_eq!(nearest_hit(&hits), Some(1));
}

#[test]
fn nearest_hit_gives_the_same_answer_twice() {
    let hits = [hit_at(1.5), hit_at(0.75), None, hit_at(0.75)];
    let first = nearest_hit(&hits);
    let second = nearest_hit(&hits);
    assert_eq!(first, Some(1));
    assert_eq!(first, second);
}

#[test]
fn nearest_hit_does_not_depend_on_the_order() {
    let ts = [1.5f32, 0.75, 1.0, 0.25, 1.25];
    // Every rotation of the list and of its reverse.
    for shift in 0..ts.len() {
        let mut forward: Vec<Option<Intersection>> = Vec::new();
        let mut backward: Vec<Option<Intersection>> = Vec::new();
        for k in 0..ts.len() {
            forward.push(hit_at(ts[(k + shift) % ts.len()]));
            backward.push(hit_at(ts[(ts.len() - 1 + shift - k) % ts.len()]));
        }
        let f = nearest_hit(&forward).unwrap();
        let b = nearest_hit(&backward).unwrap();
        assert_eq!(number(forward[f].unwrap().t), 0.25);
        assert_eq!(number(backward[b].unwrap().t), 0.25);
    }
}

#[test]
fn render_interval_is_zero_to_two() {
    assert_eq!(f32::from_bits(RENDER_NEAR_BITS), 0.0);
    assert_eq!(f32::from_bits(RENDER_FAR_BITS), 2.0);
}
