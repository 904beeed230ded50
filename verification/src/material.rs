//! Materials: how a surface scatters the light that reaches it.
//!
//! Each material decides from a hit and from random draws how a ray goes on.
//! The decision itself is a function of the draws and has an exact contract;
//! `scatter` draws and decides, and says both which outcomes are possible
//! and which one a replaying sampler gives.

use crate::accuracy::lemma_length_is_floor;
use crate::accuracy::lemma_unit_vector_fits;
use crate::accuracy::lemma_unit_vector_length;
use crate::accuracy::measurable;
use crate::accuracy::QUARTER_RAW;
use crate::arithmetic::lemma_div_at_most_one;
use crate::arithmetic::lemma_mul_monotone;
use crate::arithmetic::lemma_mul_monotone_both;
use crate::arithmetic::lemma_square_at_most_one;
use crate::color::Color;
use crate::config::ConfigError;
use crate::config::reports;
use crate::fixed::Fixed;
use crate::fixed::SCALE;
use crate::hittable::HitRecord;
use crate::laws::lemma_reflect_keeps_length;
use crate::random::Sampler;
use crate::ray::Ray;
use crate::refraction::lemma_refract_keeps_length;
use crate::refraction::nearly_unit;
use crate::refraction::RATIO_MAX_RAW;
use crate::vec3::Vec3;
use crate::vec3::MAX_TRIES;
use core::ops::Neg;
use vstd::prelude::*;
use vstd::std_specs::ops::AddSpec;
use vstd::std_specs::ops::DivSpec;
use vstd::std_specs::ops::MulSpec;
use vstd::std_specs::ops::SubSpec;

verus! {

/// What scattering gives: the attenuation, the scattered ray, and whether
/// the ray goes on at all.
pub type Scatter = (Color, Ray, bool);

/// A surface material.
pub trait Material: Sized {
    /// What is wrong with the parameters of the material, if anything.
    spec fn fault(&self) -> Option<ConfigError>;

    /// Checks that the parameters of the material are in range.
    fn check(&self) -> (r: Result<(), ConfigError>)
        ensures
            reports(r, self.fault()),
    ;

    /// Whether scattering `r_in` at `hit_record` can give `out`.
    spec fn may_scatter(&self, r_in: Ray, hit_record: HitRecord<'_, Self>, out: Scatter) -> bool;

    /// What scattering `r_in` at `hit_record` gives with a replaying
    /// sampler, and the sampler afterwards.
    spec fn scatter_replayed(&self, r_in: Ray, hit_record: HitRecord<'_, Self>, rng: Sampler) -> (
        Scatter,
        Sampler,
    );

    /// Scatters the ray `r_in` that hit the surface at `hit_record`, drawing
    /// from `rng` where the material calls for chance.
    fn scatter(&self, r_in: &Ray, hit_record: HitRecord<'_, Self>, rng: &mut Sampler) -> (out:
        Scatter)
        ensures
            self.may_scatter(*r_in, hit_record, out),
            old(rng).replays() ==> (out, *final(rng)) == self.scatter_replayed(
                *r_in,
                hit_record,
                *old(rng),
            ),
            old(rng).replays() == final(rng).replays(),
    ;
}

/// A matte surface, which scatters evenly about the normal.
pub struct Lambertian {
    pub albedo: Color,
}

impl Lambertian {
    /// A matte material that reflects the fraction `albedo` of each channel.
    pub fn new(albedo: Color) -> (r: Lambertian)
        ensures
            r.albedo == albedo,
    {
        Lambertian { albedo }
    }

    /// The direction `normal + unit`, or the normal itself where that sum is
    /// too short to give a direction.
    pub open spec fn direction_spec(normal: Vec3, unit: Vec3) -> Vec3 {
        if normal.plus(unit).near_zero_spec() {
            normal
        } else {
            normal.plus(unit)
        }
    }

    /// The outcome for the drawn direction `unit`.
    pub open spec fn scatter_along_spec(self, hit_record: HitRecord<'_, Lambertian>, unit: Vec3)
        -> Scatter {
        (
            self.albedo,
            Ray {
                origin: hit_record.p,
                direction: Lambertian::direction_spec(hit_record.normal, unit),
            },
            true,
        )
    }

    /// Scatters along the normal displaced by the drawn direction `unit`.
    /// The ray always goes on, attenuated by the albedo.
    pub fn scatter_along(&self, hit_record: HitRecord<'_, Lambertian>, unit: Vec3) -> (out:
        Scatter)
        ensures
            out == self.scatter_along_spec(hit_record, unit),
    {
        let mut scatter_direction = hit_record.normal + unit;
        if scatter_direction.near_zero() {
            scatter_direction = hit_record.normal;
        }
        (self.albedo, Ray::new(hit_record.p, scatter_direction), true)
    }
}

impl Material for Lambertian {
    /// Every albedo is accepted.
    open spec fn fault(&self) -> Option<ConfigError> {
        None
    }

    fn check(&self) -> (r: Result<(), ConfigError>) {
        Ok(())
    }

    open spec fn may_scatter(&self, r_in: Ray, hit_record: HitRecord<'_, Lambertian>, out: Scatter)
        -> bool {
        exists|v: Vec3|
            v.in_unit_ball() && out == #[trigger] self.scatter_along_spec(
                hit_record,
                v.unit_vector_spec(),
            )
    }

    /// The outcome for the direction that the replayed words give.
    open spec fn scatter_replayed(
        &self,
        r_in: Ray,
        hit_record: HitRecord<'_, Lambertian>,
        rng: Sampler,
    ) -> (Scatter, Sampler) {
        let (unit, next) = Vec3::random_unit_vector_replayed(rng);
        (self.scatter_along_spec(hit_record, unit), next)
    }

    /// Scatters along the normal displaced by a random direction. The ray
    /// always goes on, and its attenuation is the albedo.
    fn scatter(&self, r_in: &Ray, hit_record: HitRecord<'_, Lambertian>, rng: &mut Sampler) -> (out:
        Scatter)
        ensures
            out.2,
            out.0 == self.albedo,
            out.1.origin == hit_record.p,
    {
        let v = Vec3::random_in_unit_sphere(rng);
        self.scatter_along(hit_record, v.unit_vector())
    }
}

/// A mirror, roughened by `fuzz`.
pub struct Metal {
    pub albedo: Color,
    pub fuzz: Fixed,
}

impl Metal {
    /// A metal that reflects the fraction `albedo` of each channel and
    /// perturbs the mirror direction by up to `fuzz`, a number from zero to
    /// one.
    pub fn new(albedo: Color, fuzz: Fixed) -> (r: Metal)
        ensures
            r.albedo == albedo,
            r.fuzz == fuzz,
    {
        Metal { albedo, fuzz }
    }

    /// The mirror direction of `r_in` displaced by `fuzz` times `sample`.
    pub open spec fn direction_spec(self, r_in: Ray, normal: Vec3, sample: Vec3) -> Vec3 {
        r_in.direction.unit_vector_spec().reflect_spec(normal).plus(sample.scaled(self.fuzz))
    }

    /// The outcome for the drawn displacement `sample`.
    pub open spec fn scatter_with_spec(
        self,
        r_in: Ray,
        hit_record: HitRecord<'_, Metal>,
        sample: Vec3,
    ) -> Scatter {
        let direction = self.direction_spec(r_in, hit_record.normal, sample);
        (
            self.albedo,
            Ray { origin: hit_record.p, direction },
            direction.dot_spec(hit_record.normal).raw > 0,
        )
    }

    /// Reflects `r_in` at the surface and displaces the mirror direction by
    /// `fuzz` times `sample`. The ray goes on exactly where the displaced
    /// direction still leaves the surface.
    pub fn scatter_with(&self, r_in: &Ray, hit_record: HitRecord<'_, Metal>, sample: Vec3) -> (out:
        Scatter)
        ensures
            out == self.scatter_with_spec(*r_in, hit_record, sample),
    {
        let reflected = r_in.direction.unit_vector().reflect(hit_record.normal);
        let scattered = Ray::new(hit_record.p, reflected + self.fuzz * sample);
        let success = scattered.direction.dot(hit_record.normal).raw > 0;
        (self.albedo, scattered, success)
    }
}

impl Material for Metal {
    /// The fuzz lies between zero and one.
    open spec fn fault(&self) -> Option<ConfigError> {
        if self.fuzz.raw < 0 || self.fuzz.raw > SCALE {
            Some(ConfigError::FuzzOutOfRange)
        } else {
            None
        }
    }

    fn check(&self) -> (r: Result<(), ConfigError>) {
        if self.fuzz.raw < 0 || self.fuzz.raw > SCALE {
            Err(ConfigError::FuzzOutOfRange)
        } else {
            Ok(())
        }
    }

    open spec fn may_scatter(&self, r_in: Ray, hit_record: HitRecord<'_, Metal>, out: Scatter)
        -> bool {
        exists|v: Vec3|
            v.in_unit_ball() && out == #[trigger] self.scatter_with_spec(r_in, hit_record, v)
    }

    /// The outcome for the displacement that the replayed words give.
    open spec fn scatter_replayed(&self, r_in: Ray, hit_record: HitRecord<'_, Metal>, rng: Sampler)
        -> (Scatter, Sampler) {
        let (sample, next) = Vec3::random_in_unit_sphere_replayed(rng, MAX_TRIES as nat);
        (self.scatter_with_spec(r_in, hit_record, sample), next)
    }

    /// Reflects the ray, displaced by `fuzz` times a vector drawn from the
    /// unit ball. The attenuation is the albedo.
    fn scatter(&self, r_in: &Ray, hit_record: HitRecord<'_, Metal>, rng: &mut Sampler) -> (out:
        Scatter)
        ensures
            out.0 == self.albedo,
            out.1.origin == hit_record.p,
            out.2 == (out.1.direction.dot_spec(hit_record.normal).raw > 0),
    {
        let v = Vec3::random_in_unit_sphere(rng);
        self.scatter_with(r_in, hit_record, v)
    }
}

/// A clear material such as glass, which refracts or reflects.
pub struct Dielectric {
    /// The refractive index.
    pub ir: Fixed,
}

impl Dielectric {
    /// A clear material with the refractive index `ir`, a positive number.
    pub fn new(ir: Fixed) -> (r: Dielectric)
        ensures
            r.ir == ir,
    {
        Dielectric { ir }
    }

    /// The fifth power of a number.
    pub open spec fn fifth_power(x: Fixed) -> Fixed {
        x.mul_spec(x).mul_spec(x.mul_spec(x)).mul_spec(x)
    }

    /// The reflectance at normal incidence: `((1 - n) / (1 + n))^2`.
    pub open spec fn base_reflectance(ref_idx: Fixed) -> Fixed {
        let r0 = (Fixed { raw: SCALE }).sub_spec(ref_idx).div_spec(
            (Fixed { raw: SCALE }).add_spec(ref_idx),
        );
        r0.mul_spec(r0)
    }

    /// Schlick's approximation of the reflectance:
    /// `r0 + (1 - r0) (1 - cos)^5`, with `r0` the reflectance at normal
    /// incidence.
    pub open spec fn reflectance_spec(cosine: Fixed, ref_idx: Fixed) -> Fixed {
        let r0 = Dielectric::base_reflectance(ref_idx);
        r0.add_spec(
            (Fixed { raw: SCALE }).sub_spec(r0).mul_spec(
                Dielectric::fifth_power((Fixed { raw: SCALE }).sub_spec(cosine)),
            ),
        )
    }

    /// The share of the light that a surface with the refractive index
    /// `ref_idx` reflects at an angle with the given cosine to the normal.
    pub fn reflectance(cosine: Fixed, ref_idx: Fixed) -> (r: Fixed)
        ensures
            r == Dielectric::reflectance_spec(cosine, ref_idx),
    {
        let r0 = (Fixed::one() - ref_idx) / (Fixed::one() + ref_idx);
        let r0 = r0 * r0;
        let x = Fixed::one() - cosine;
        let x2 = x * x;
        r0 + (Fixed::one() - r0) * (x2 * x2 * x)
    }

    /// The ratio of the refractive indices that a ray passes: `1 / ir` on the
    /// way in and `ir` on the way out.
    pub open spec fn refraction_ratio(self, front_face: bool) -> Fixed {
        if front_face {
            (Fixed { raw: SCALE }).div_spec(self.ir)
        } else {
            self.ir
        }
    }

    /// The sine that belongs to a cosine: `sqrt(1 - cos^2)`.
    pub open spec fn sine_spec(cosine: Fixed) -> Fixed {
        (Fixed { raw: SCALE }).sub_spec(cosine.mul_spec(cosine)).sqrt_spec()
    }

    /// Whether Snell's law has no solution, so that all light is reflected.
    pub open spec fn cannot_refract_spec(self, r_in: Ray, hit_record: HitRecord<'_, Dielectric>)
        -> bool {
        let cosine = r_in.direction.unit_vector_spec().incidence_cosine(hit_record.normal);
        self.refraction_ratio(hit_record.front_face).mul_spec(Dielectric::sine_spec(cosine)).raw
            > SCALE
    }

    /// Whether a ray that comes in as `r_in` is reflected totally.
    pub fn cannot_refract(&self, r_in: &Ray, hit_record: &HitRecord<'_, Dielectric>) -> (r: bool)
        ensures
            r == self.cannot_refract_spec(*r_in, *hit_record),
    {
        let refraction_ratio = if hit_record.front_face {
            Fixed::one() / self.ir
        } else {
            self.ir
        };
        let unit_direction = r_in.direction.unit_vector();
        let cos_theta = unit_direction.neg().dot(hit_record.normal).min(Fixed::one());
        let sin_theta = (Fixed::one() - cos_theta * cos_theta).sqrt();
        (refraction_ratio * sin_theta).raw > SCALE
    }

    /// The direction in which the ray goes on: reflected where it cannot be
    /// refracted or where the reflectance exceeds `draw`, refracted otherwise.
    pub open spec fn direction_spec(
        self,
        r_in: Ray,
        hit_record: HitRecord<'_, Dielectric>,
        draw: Fixed,
    ) -> Vec3 {
        let unit_direction = r_in.direction.unit_vector_spec();
        let cosine = unit_direction.incidence_cosine(hit_record.normal);
        if self.cannot_refract_spec(r_in, hit_record) || Dielectric::reflectance_spec(
            cosine,
            self.ir,
        ).raw > draw.raw {
            unit_direction.reflect_spec(hit_record.normal)
        } else {
            unit_direction.refract_spec(
                hit_record.normal,
                self.refraction_ratio(hit_record.front_face),
            )
        }
    }

    /// The outcome for the number `draw`.
    pub open spec fn scatter_with_spec(
        self,
        r_in: Ray,
        hit_record: HitRecord<'_, Dielectric>,
        draw: Fixed,
    ) -> Scatter {
        (
            Vec3 { x: Fixed { raw: SCALE }, y: Fixed { raw: SCALE }, z: Fixed { raw: SCALE } },
            Ray { origin: hit_record.p, direction: self.direction_spec(r_in, hit_record, draw) },
            true,
        )
    }

    /// Refracts or reflects `r_in`: it is reflected where it cannot be
    /// refracted, or where the reflectance at its angle exceeds `draw`. The
    /// ray always goes on, and nothing is absorbed.
    pub fn scatter_with(&self, r_in: &Ray, hit_record: HitRecord<'_, Dielectric>, draw: Fixed) -> (out:
        Scatter)
        ensures
            out == self.scatter_with_spec(*r_in, hit_record, draw),
    {
        let refraction_ratio = if hit_record.front_face {
            Fixed::one() / self.ir
        } else {
            self.ir
        };
        let unit_direction = r_in.direction.unit_vector();
        let cos_theta = unit_direction.neg().dot(hit_record.normal).min(Fixed::one());
        let direction = if self.cannot_refract(r_in, &hit_record) || Dielectric::reflectance(
            cos_theta,
            self.ir,
        ).raw > draw.raw {
            unit_direction.reflect(hit_record.normal)
        } else {
            unit_direction.refract(hit_record.normal, refraction_ratio)
        };
        (
            Vec3::new(Fixed::one(), Fixed::one(), Fixed::one()),
            Ray::new(hit_record.p, direction),
            true,
        )
    }
}

impl Material for Dielectric {
    /// The refractive index is positive.
    open spec fn fault(&self) -> Option<ConfigError> {
        if self.ir.raw <= 0 {
            Some(ConfigError::IndexNotPositive)
        } else {
            None
        }
    }

    fn check(&self) -> (r: Result<(), ConfigError>) {
        if self.ir.raw <= 0 {
            Err(ConfigError::IndexNotPositive)
        } else {
            Ok(())
        }
    }

    open spec fn may_scatter(&self, r_in: Ray, hit_record: HitRecord<'_, Dielectric>, out: Scatter)
        -> bool {
        exists|u: Fixed|
            0 <= u.raw < SCALE && out == #[trigger] self.scatter_with_spec(r_in, hit_record, u)
    }

    /// The outcome for the next replayed word, which is drawn only where the
    /// ray can be refracted.
    open spec fn scatter_replayed(
        &self,
        r_in: Ray,
        hit_record: HitRecord<'_, Dielectric>,
        rng: Sampler,
    ) -> (Scatter, Sampler) {
        if self.cannot_refract_spec(r_in, hit_record) {
            (self.scatter_with_spec(r_in, hit_record, Fixed { raw: 0 }), rng)
        } else {
            (self.scatter_with_spec(r_in, hit_record, rng.upcoming_unit()), rng.advanced())
        }
    }

    /// Refracts or reflects the ray. Where it can be refracted, a number
    /// drawn from zero to one decides, by the reflectance, which of the two
    /// happens. The ray always goes on, and nothing is absorbed.
    fn scatter(&self, r_in: &Ray, hit_record: HitRecord<'_, Dielectric>, rng: &mut Sampler) -> (out:
        Scatter)
        ensures
            out.2,
            out.0 == (Vec3 {
                x: Fixed { raw: SCALE },
                y: Fixed { raw: SCALE },
                z: Fixed { raw: SCALE },
            }),
            out.1.origin == hit_record.p,
    {
        let draw = if self.cannot_refract(r_in, &hit_record) {
            Fixed::zero()
        } else {
            rng.next_unit()
        };
        self.scatter_with(r_in, hit_record, draw)
    }
}

/// Any of the materials, so that one scene can hold them all.
pub enum AnyMaterial {
    Lambertian(Lambertian),
    Metal(Metal),
    Dielectric(Dielectric),
}

/// The record `hit_record` with `material` in the place of its material.
pub open spec fn with_material<'a, 'b, M, N>(hit_record: HitRecord<'a, M>, material: &'b N)
    -> HitRecord<'b, N> {
    HitRecord {
        p: hit_record.p,
        normal: hit_record.normal,
        t: hit_record.t,
        front_face: hit_record.front_face,
        material,
    }
}

/// Hands a record on to the material that it was hit on.
fn for_material<'a, 'b, M, N>(hit_record: HitRecord<'a, M>, material: &'b N) -> (r: HitRecord<
    'b,
    N,
>)
    ensures
        r == with_material(hit_record, material),
{
    HitRecord {
        p: hit_record.p,
        normal: hit_record.normal,
        t: hit_record.t,
        front_face: hit_record.front_face,
        material,
    }
}

impl Material for AnyMaterial {
    /// What the material that it holds checks.
    open spec fn fault(&self) -> Option<ConfigError> {
        match self {
            AnyMaterial::Lambertian(material) => material.fault(),
            AnyMaterial::Metal(material) => material.fault(),
            AnyMaterial::Dielectric(material) => material.fault(),
        }
    }

    fn check(&self) -> (r: Result<(), ConfigError>) {
        match self {
            AnyMaterial::Lambertian(material) => material.check(),
            AnyMaterial::Metal(material) => material.check(),
            AnyMaterial::Dielectric(material) => material.check(),
        }
    }

    /// What the material that it holds may scatter.
    open spec fn may_scatter(&self, r_in: Ray, hit_record: HitRecord<'_, AnyMaterial>, out: Scatter)
        -> bool {
        match self {
            AnyMaterial::Lambertian(material) => material.may_scatter(
                r_in,
                with_material(hit_record, material),
                out,
            ),
            AnyMaterial::Metal(material) => material.may_scatter(
                r_in,
                with_material(hit_record, material),
                out,
            ),
            AnyMaterial::Dielectric(material) => material.may_scatter(
                r_in,
                with_material(hit_record, material),
                out,
            ),
        }
    }

    /// What the material that it holds gives.
    open spec fn scatter_replayed(
        &self,
        r_in: Ray,
        hit_record: HitRecord<'_, AnyMaterial>,
        rng: Sampler,
    ) -> (Scatter, Sampler) {
        match self {
            AnyMaterial::Lambertian(material) => material.scatter_replayed(
                r_in,
                with_material(hit_record, material),
                rng,
            ),
            AnyMaterial::Metal(material) => material.scatter_replayed(
                r_in,
                with_material(hit_record, material),
                rng,
            ),
            AnyMaterial::Dielectric(material) => material.scatter_replayed(
                r_in,
                with_material(hit_record, material),
                rng,
            ),
        }
    }

    /// Scatters as the material that it holds does.
    fn scatter(&self, r_in: &Ray, hit_record: HitRecord<'_, AnyMaterial>, rng: &mut Sampler) -> (out:
        Scatter) {
        match self {
            AnyMaterial::Lambertian(material) => material.scatter(
                r_in,
                for_material(hit_record, material),
                rng,
            ),
            AnyMaterial::Metal(material) => material.scatter(
                r_in,
                for_material(hit_record, material),
                rng,
            ),
            AnyMaterial::Dielectric(material) => material.scatter(
                r_in,
                for_material(hit_record, material),
                rng,
            ),
        }
    }
}

/// The reflectance at normal incidence of a material with a positive
/// refractive index lies between zero and one.
pub proof fn lemma_base_reflectance_range(ref_idx: Fixed)
    requires
        ref_idx.raw > 0,
    ensures
        0 <= Dielectric::base_reflectance(ref_idx).raw <= SCALE,
{
    let one = Fixed { raw: SCALE };
    lemma_div_at_most_one(one.sub_spec(ref_idx), one.add_spec(ref_idx));
    lemma_square_at_most_one(one.sub_spec(ref_idx).div_spec(one.add_spec(ref_idx)));
}

/// The fifth power grows with a number that is not negative.
pub proof fn lemma_fifth_power_monotone(x: Fixed, y: Fixed)
    requires
        0 <= x.raw <= y.raw,
    ensures
        0 <= Dielectric::fifth_power(x).raw <= Dielectric::fifth_power(y).raw,
{
    lemma_mul_monotone_both(x, y, x, y);
    lemma_mul_monotone_both(x.mul_spec(x), y.mul_spec(y), x.mul_spec(x), y.mul_spec(y));
    lemma_mul_monotone_both(
        x.mul_spec(x).mul_spec(x.mul_spec(x)),
        y.mul_spec(y).mul_spec(y.mul_spec(y)),
        x,
        y,
    );
}

/// Seen along the normal, where the cosine is one, a surface reflects its
/// reflectance at normal incidence exactly.
pub proof fn lemma_reflectance_along_normal(ref_idx: Fixed)
    ensures
        Dielectric::reflectance_spec(Fixed { raw: SCALE }, ref_idx) == Dielectric::base_reflectance(
            ref_idx,
        ),
{
    let zero = Fixed { raw: 0 };
    let r0 = Dielectric::base_reflectance(ref_idx);
    let rest = (Fixed { raw: SCALE }).sub_spec(r0);
    assert(zero.mul_spec(zero).raw == 0);
    assert(Dielectric::fifth_power(zero).raw == 0);
    assert(rest.raw * 0 == 0) by (nonlinear_arith);
    assert(rest.mul_spec(zero).raw == 0);
}

/// Schlick's reflectance does not fall as the cosine falls: the flatter the
/// light arrives, the more of it is reflected. It is stated for cosines up
/// to one and for a positive refractive index.
pub proof fn lemma_reflectance_monotone(lower: Fixed, higher: Fixed, ref_idx: Fixed)
    requires
        lower.raw <= higher.raw <= SCALE,
        ref_idx.raw > 0,
    ensures
        Dielectric::reflectance_spec(lower, ref_idx).raw >= Dielectric::reflectance_spec(
            higher,
            ref_idx,
        ).raw,
{
    let one = Fixed { raw: SCALE };
    let r0 = Dielectric::base_reflectance(ref_idx);
    lemma_base_reflectance_range(ref_idx);
    lemma_fifth_power_monotone(one.sub_spec(higher), one.sub_spec(lower));
    lemma_mul_monotone(
        Dielectric::fifth_power(one.sub_spec(higher)),
        Dielectric::fifth_power(one.sub_spec(lower)),
        one.sub_spec(r0),
    );
}

/// The mirror direction is one long up to rounding. For an incoming
/// direction that is at least a quarter long and a normal that is one long
/// within four units of the last place, the exact sum of the squares of the
/// reflected unit direction misses one by at most 4010 units of 2^-32,
/// which is a millionth. This is the direction in which a metal without
/// fuzz scatters, and in which a dielectric reflects.
pub proof fn lemma_mirror_direction_length(direction: Vec3, normal: Vec3)
    requires
        measurable(direction),
        direction.length_spec().raw >= QUARTER_RAW,
        -(16 * SCALE) <= normal.norm_spec() - SCALE * SCALE <= 16 * SCALE,
    ensures
        -(4010 * SCALE) <= direction.unit_vector_spec().reflect_spec(normal).norm_spec() - SCALE
            * SCALE <= 4010 * SCALE,
{
    let s = SCALE as int;
    let unit = direction.unit_vector_spec();
    lemma_unit_vector_length(direction);
    lemma_unit_vector_fits(direction);
    lemma_length_is_floor(unit);
    let r = unit.length_spec().raw as int;
    assert(r * r >= (s - 4) * (s - 4) && (r + 1) * (r + 1) <= (s + 4) * (s + 4))
        by (nonlinear_arith)
        requires
            s - 4 <= r <= s + 3,
            s == 0x1_0000_0000,
    ;
    assert((s - 4) * (s - 4) == s * s - 8 * s + 16 && (s + 4) * (s + 4) == s * s + 8 * s + 16)
        by (nonlinear_arith);
    lemma_reflect_keeps_length(unit, normal);
}

/// The refracted direction is one long up to rounding. For an incoming
/// direction that is at least a quarter long, a normal that is one long
/// within four units of the last place and a ratio of refractive indices
/// up to four, where the part of the refracted direction across the normal
/// is at most one long, the exact sum of the squares of the refracted unit
/// direction misses one by at most 330 units of 2^-32, which is a
/// ten-millionth. This is the direction in which a dielectric refracts.
pub proof fn lemma_refracted_direction_length(direction: Vec3, normal: Vec3, ratio: Fixed)
    requires
        measurable(direction),
        direction.length_spec().raw >= QUARTER_RAW,
        nearly_unit(normal),
        0 <= ratio.raw <= RATIO_MAX_RAW,
        direction.unit_vector_spec().refract_perpendicular(normal, ratio).length_squared_spec().raw
            <= SCALE,
    ensures
        -(330 * SCALE) <= direction.unit_vector_spec().refract_spec(normal, ratio).norm_spec()
            - SCALE * SCALE <= 330 * SCALE,
{
    let s = SCALE as int;
    let unit = direction.unit_vector_spec();
    lemma_unit_vector_length(direction);
    lemma_length_is_floor(unit);
    let r = unit.length_spec().raw as int;
    assert(r * r >= (s - 4) * (s - 4) && (r + 1) * (r + 1) <= (s + 4) * (s + 4))
        by (nonlinear_arith)
        requires
            s - 4 <= r <= s + 3,
            s == 0x1_0000_0000,
    ;
    assert((s - 4) * (s - 4) == s * s - 8 * s + 16 && (s + 4) * (s + 4) == s * s + 8 * s + 16)
        by (nonlinear_arith);
    lemma_refract_keeps_length(unit, normal, ratio);
}

} // verus!
