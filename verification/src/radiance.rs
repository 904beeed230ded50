//! The light stays in range: where no surface adds light, every channel of
//! what a ray brings back lies between zero and one.

use crate::arithmetic::lemma_mul_by_unit;
use crate::arithmetic::lemma_mul_monotone_both;
use crate::color::Color;
use crate::fixed::Fixed;
use crate::fixed::RAW_MAX;
use crate::fixed::SCALE;
use crate::fixed::floor_sqrt;
use crate::fixed::lemma_floor_sqrt_exists;
use crate::fixed::magnitude;
use crate::fixed::quotient_toward_zero;
use crate::hittable::HitRecord;
use crate::hittable::Hittable;
use crate::hittable_list::Scene;
use crate::material::AnyMaterial;
use crate::material::Material;
use crate::material::Scatter;
use crate::ray::Ray;
use crate::render::background_spec;
use crate::render::may_yield;
use crate::render::shade;
use crate::render::HALF_RAW;
use crate::render::SKY_GREEN_RAW;
use crate::render::T_MIN_RAW;
use crate::surface::lemma_quotient_magnitude;
use crate::vec3::lemma_length_nonnegative;
use crate::vec3::Vec3;
use vstd::prelude::*;
use vstd::std_specs::ops::AddSpec;
use vstd::std_specs::ops::DivSpec;
use vstd::std_specs::ops::MulSpec;
use vstd::std_specs::ops::SubSpec;

verus! {

/// Whether each channel of the colour lies between zero and one.
pub open spec fn in_range(color: Color) -> bool {
    0 <= color.x.raw <= SCALE && 0 <= color.y.raw <= SCALE && 0 <= color.z.raw <= SCALE
}

/// Whether `out` is in range where it is a possible scattering of `ray` at
/// its nearest hit in `world`.
pub open spec fn dims_at<W: Hittable>(world: &W, ray: Ray, out: Scatter) -> bool where
    W::Surface: Material,
 {
    match world.hit_spec(ray, Fixed { raw: RAW_MAX }, Fixed { raw: T_MIN_RAW }) {
        Some(record) => record.material.may_scatter(ray, record, out) ==> in_range(out.0),
        None => true,
    }
}

/// Whether no surface of `world` adds light: every attenuation that a hit
/// may bring is in range.
pub open spec fn dims<W: Hittable>(world: &W) -> bool where W::Surface: Material {
    forall|ray: Ray, out: Scatter| #[trigger] dims_at(world, ray, out)
}

/// The light that a ray brings back from a world that adds none is in
/// range, whatever is drawn and however many bounces are left.
pub proof fn lemma_light_in_range<W: Hittable>(world: &W, ray: Ray, depth: int, color: Color) where
    W::Surface: Material,

    requires
        dims(world),
        may_yield(world, ray, depth, color),
    ensures
        in_range(color),
    decreases depth,
{
    reveal(may_yield);
    if depth > 0 {
        match world.hit_spec(ray, Fixed { raw: RAW_MAX }, Fixed { raw: T_MIN_RAW }) {
            None => {
                lemma_background_in_range(ray);
            },
            Some(record) => {
                let (out, incoming) = choose|out: Scatter, incoming: Color|
                    record.material.may_scatter(ray, record, out) && (out.2 ==> may_yield(
                        world,
                        out.1,
                        depth - 1,
                        incoming,
                    )) && color == #[trigger] shade(out, incoming);
                assert(dims_at(world, ray, out));
                if out.2 {
                    lemma_light_in_range(world, out.1, depth - 1, incoming);
                    lemma_mul_monotone_both(out.0.x, Fixed { raw: SCALE }, incoming.x, Fixed { raw: SCALE });
                    lemma_mul_monotone_both(out.0.y, Fixed { raw: SCALE }, incoming.y, Fixed { raw: SCALE });
                    lemma_mul_monotone_both(out.0.z, Fixed { raw: SCALE }, incoming.z, Fixed { raw: SCALE });
                    lemma_mul_by_unit(Fixed { raw: SCALE }, Fixed { raw: SCALE });
                }
            },
        }
    }
}

/// No component of a unit vector exceeds one, whatever the vector.
pub proof fn lemma_unit_component(a: Vec3)
    ensures
        -SCALE <= a.unit_vector_spec().x.raw <= SCALE,
        -SCALE <= a.unit_vector_spec().y.raw <= SCALE,
        -SCALE <= a.unit_vector_spec().z.raw <= SCALE,
{
    lemma_length_nonnegative(a);
    lemma_floor_sqrt_exists(a.norm_spec());
    let root = floor_sqrt(a.norm_spec());
    let (x, y, z) = (a.x.raw as int, a.y.raw as int, a.z.raw as int);
    assert(x * x >= 0 && y * y >= 0 && z * z >= 0) by (nonlinear_arith);
    lemma_quotient_at_most_one(x, root);
    lemma_quotient_at_most_one(y, root);
    lemma_quotient_at_most_one(z, root);
}

/// The quotient of a component by the saturated length is at most one in
/// magnitude, where the root of the sum of squares is at least the
/// component.
proof fn lemma_quotient_at_most_one(x: int, root: int)
    requires
        -0x8000_0000_0000_0000 <= x <= RAW_MAX,
        root >= 0,
        x * x < (root + 1) * (root + 1),
    ensures
        ({
            let length = if root > RAW_MAX { RAW_MAX as int } else { root };
            length != 0 ==> -SCALE <= quotient_toward_zero(x * SCALE, length) <= SCALE
        }),
        root == 0 ==> x == 0,
{
    let s = SCALE as int;
    let length = if root > RAW_MAX { RAW_MAX as int } else { root };
    let m = magnitude(x);
    assert(m * m == x * x) by (nonlinear_arith)
        requires
            m == magnitude(x),
    ;
    assert(m <= root) by (nonlinear_arith)
        requires
            m * m == x * x,
            m >= 0,
            root >= 0,
            x * x < (root + 1) * (root + 1),
    ;
    if length != 0 {
        lemma_quotient_magnitude(x * s, length);
        let u = magnitude(quotient_toward_zero(x * s, length));
        assert(magnitude(x * s) == m * s) by (nonlinear_arith)
            requires
                m == magnitude(x),
                s > 0,
        ;
        assert(u <= s) by (nonlinear_arith)
            requires
                u * length <= m * s,
                m <= length + 1,
                m <= length || length >= 0x1_0000_0000_0000,
                length > 0,
                s == 0x1_0000_0000,
                u >= 0,
        ;
    }
}

/// The background is in range along every ray.
pub proof fn lemma_background_in_range(ray: Ray)
    ensures
        in_range(background_spec(ray)),
{
    let s = SCALE as int;
    lemma_unit_component(ray.direction);
    let height = ray.direction.unit_vector_spec().y.add_spec(Fixed { raw: SCALE });
    assert(0 <= height.raw <= 2 * s);
    let half = Fixed { raw: HALF_RAW };
    let one = Fixed { raw: SCALE };
    let t = half.mul_spec(height);
    lemma_mul_monotone_both(half, half, height, Fixed { raw: 0x2_0000_0000 });
    assert(half.mul_spec(Fixed { raw: 0x2_0000_0000 }).raw == s) by {
        assert(HALF_RAW * (2 * SCALE) == s * s) by (nonlinear_arith)
            requires
                s == 0x1_0000_0000,
        ;
        vstd::arithmetic::div_mod::lemma_div_multiples_vanish(s, s);
    }
    assert(0 <= t.raw <= s);
    let rest = one.sub_spec(t);
    lemma_mul_by_unit(rest, one);
    crate::arithmetic::lemma_mul_commutative(rest, one);
    assert(rest.mul_spec(one).raw == s - t.raw);
    lemma_mul_monotone_both(t, t, half, one);
    lemma_mul_monotone_both(t, t, Fixed { raw: SKY_GREEN_RAW }, one);
    lemma_mul_by_unit(t, one);
    assert(t.mul_spec(one).raw == t.raw);
}

/// Whether the material adds no light: its albedo, where it has one, is in
/// range.
pub open spec fn adds_no_light(material: AnyMaterial) -> bool {
    match material {
        AnyMaterial::Lambertian(inner) => in_range(inner.albedo),
        AnyMaterial::Metal(inner) => in_range(inner.albedo),
        AnyMaterial::Dielectric(_) => true,
    }
}

/// A material that adds no light attenuates within range.
pub proof fn lemma_attenuation_in_range(
    material: &AnyMaterial,
    ray: Ray,
    record: HitRecord<'_, AnyMaterial>,
    out: Scatter,
)
    requires
        adds_no_light(*material),
        material.may_scatter(ray, record, out),
    ensures
        in_range(out.0),
{
}

/// Whether every sphere among the first `n` of the scene adds no light.
pub open spec fn adds_no_light_among(world: &Scene, n: int) -> bool {
    forall|i: int| 0 <= i < n ==> adds_no_light(#[trigger] world.objects@[i].material)
}

/// The nearest hit among spheres that add no light has a material that
/// adds none.
pub proof fn lemma_nearest_adds_no_light(
    world: &Scene,
    n: int,
    ray: Ray,
    t_max: Fixed,
    t_min: Fixed,
)
    requires
        0 <= n <= world.objects@.len(),
        adds_no_light_among(world, n),
    ensures
        world.nearest_among(n, ray, t_max, t_min) matches Some(record) ==> adds_no_light(
            *record.material,
        ),
    decreases n,
{
    if n > 0 {
        lemma_nearest_adds_no_light(world, n - 1, ray, t_max, t_min);
        assert(adds_no_light(world.objects@[n - 1].material));
    }
}

/// A scene whose spheres add no light dims: the light that any ray brings
/// back from it is in range.
pub proof fn lemma_scene_dims(world: &Scene)
    requires
        adds_no_light_among(world, world.objects@.len() as int),
    ensures
        dims(world),
{
    assert forall|ray: Ray, out: Scatter| #[trigger] dims_at(world, ray, out) by {
        lemma_nearest_adds_no_light(
            world,
            world.objects@.len() as int,
            ray,
            Fixed { raw: RAW_MAX },
            Fixed { raw: T_MIN_RAW },
        );
        match world.hit_spec(ray, Fixed { raw: RAW_MAX }, Fixed { raw: T_MIN_RAW }) {
            Some(record) => {
                if record.material.may_scatter(ray, record, out) {
                    lemma_attenuation_in_range(record.material, ray, record, out);
                }
            },
            None => {},
        }
    }
}

} // verus!
