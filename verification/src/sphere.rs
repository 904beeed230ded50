//! Spheres, the one shape that the scene is made of.

use crate::arithmetic::lemma_quotient_monotone;
use crate::config::ConfigError;
use crate::fixed::clamp_raw;
use crate::fixed::floor_sqrt;
use crate::fixed::lemma_floor_sqrt_exists;
use crate::fixed::lemma_floor_sqrt_unique;
use crate::fixed::lemma_product_sign;
use crate::fixed::magnitude;
use crate::fixed::quotient_toward_zero;
use crate::fixed::unsigned_magnitude;
use crate::fixed::Fixed;
use crate::fixed::RAW_MAX;
use crate::fixed::SCALE;
use crate::hittable::HitRecord;
use crate::hittable::Hittable;
use crate::hittable::within;
use crate::material::Material;
use crate::ray::Ray;
use crate::vec3::lemma_length_nonnegative;
use crate::vec3::lemma_square_of_magnitude;
use crate::vec3::Point3;
use crate::vec3::Vec3;
use crate::wide::scaled_quotient;
use crate::wide::two_to_128;
use crate::wide::Wide;
use vstd::prelude::*;

verus! {

/// The largest magnitude that a coefficient of the quadratic is kept at:
/// 2^125 in units of 2^-64, which is 2^61. Of two representable numbers only
/// a product beyond that saturates.
pub const WIDE_MAX: i128 = 0x2000_0000_0000_0000_0000_0000_0000_0000;

/// Limits an integer to the range of a coefficient.
pub open spec fn wide_clamp(v: int) -> int {
    if v > WIDE_MAX {
        WIDE_MAX as int
    } else if v < -WIDE_MAX {
        -(WIDE_MAX as int)
    } else {
        v
    }
}

/// The dot product of the raw components, without any rounding.
pub open spec fn exact_dot(u: Vec3, v: Vec3) -> int {
    u.x.raw * v.x.raw + u.y.raw * v.y.raw + u.z.raw * v.z.raw
}

/// The raw value of a root: the quotient of `numerator` by the coefficient
/// `a`, rounded toward zero and saturated. Where `a` is zero, the root
/// saturates by the sign of the numerator, and zero by zero is zero.
pub open spec fn root_raw(numerator: int, a: int) -> int {
    if a > 0 {
        clamp_raw(quotient_toward_zero(numerator * SCALE, a))
    } else if numerator > 0 {
        RAW_MAX as int
    } else if numerator < 0 {
        -(RAW_MAX as int)
    } else {
        0
    }
}

/// The product of two raw values as a sign and a magnitude.
fn signed_product(a: i64, b: i64) -> (r: (bool, u128))
    ensures
        (if r.0 {
            -(r.1 as int)
        } else {
            r.1 as int
        }) == a * b,
        r.1 <= 0x4000_0000_0000_0000_0000_0000_0000_0000,
{
    let ma: u128 = unsigned_magnitude(a) as u128;
    let mb: u128 = unsigned_magnitude(b) as u128;
    proof {
        lemma_product_sign(a as int, b as int);
        assert(ma * mb <= 0x8000_0000_0000_0000 * 0x8000_0000_0000_0000) by (nonlinear_arith)
            requires
                ma <= 0x8000_0000_0000_0000,
                mb <= 0x8000_0000_0000_0000,
        ;
    }
    ((a < 0) != (b < 0), ma * mb)
}

/// The difference of two sums of products, limited to the range of a
/// coefficient.
fn balance(pos: u128, neg: u128) -> (r: i128)
    ensures
        r == wide_clamp(pos - neg),
{
    if pos >= neg {
        let size = pos - neg;
        if size > WIDE_MAX as u128 {
            WIDE_MAX
        } else {
            size as i128
        }
    } else {
        let size = neg - pos;
        if size > WIDE_MAX as u128 {
            -WIDE_MAX
        } else {
            -(size as i128)
        }
    }
}

/// The exact dot product of two vectors, limited to the range of a
/// coefficient.
fn clamped_dot(u: Vec3, v: Vec3) -> (r: i128)
    ensures
        r == wide_clamp(exact_dot(u, v)),
{
    let (nx, mx) = signed_product(u.x.raw, v.x.raw);
    let (ny, my) = signed_product(u.y.raw, v.y.raw);
    let (nz, mz) = signed_product(u.z.raw, v.z.raw);
    let mut pos: u128 = 0;
    let mut neg: u128 = 0;
    if nx {
        neg = neg + mx;
    } else {
        pos = pos + mx;
    }
    if ny {
        neg = neg + my;
    } else {
        pos = pos + my;
    }
    if nz {
        neg = neg + mz;
    } else {
        pos = pos + mz;
    }
    balance(pos, neg)
}

/// The root with the given numerator over the coefficient `a`.
fn solve(numerator: i128, a: u128) -> (r: Fixed)
    requires
        a <= WIDE_MAX,
        numerator > i128::MIN,
    ensures
        r.raw == root_raw(numerator as int, a as int),
{
    if a == 0 {
        if numerator > 0 {
            Fixed { raw: RAW_MAX }
        } else if numerator < 0 {
            Fixed { raw: -RAW_MAX }
        } else {
            Fixed { raw: 0 }
        }
    } else {
        let size: u128 = if numerator < 0 {
            (-numerator) as u128
        } else {
            numerator as u128
        };
        proof {
            lemma_product_sign(numerator as int, SCALE as int);
            assert(magnitude(SCALE as int) == SCALE);
            assert(magnitude(numerator as int) * SCALE == size * SCALE);
            assert(size * SCALE >= 0) by (nonlinear_arith)
                requires
                    size >= 0,
            ;
            vstd::arithmetic::div_mod::lemma_div_pos_is_pos(size * SCALE, a as int);
        }
        let q = scaled_quotient(size, a);
        if numerator < 0 {
            Fixed { raw: -(q as i64) }
        } else {
            Fixed { raw: q as i64 }
        }
    }
}

/// A sphere with a material of its own.
pub struct Sphere<T: Material> {
    pub center: Point3,
    pub radius: Fixed,
    pub material: T,
}

impl<T: Material> Sphere<T> {
    /// The sphere about `center` with the given radius, a positive number.
    pub fn new(center: Point3, radius: Fixed, material: T) -> (r: Sphere<T>)
        ensures
            r == (Sphere { center, radius, material }),
    {
        Sphere { center, radius, material }
    }

    /// The coefficient `a` of the quadratic `a t^2 + 2 b t + c` whose roots
    /// are the parameters at which `ray` meets the sphere: `D . D`, exactly,
    /// in units of 2^-64.
    pub open spec fn quadratic_a(ray: Ray) -> int {
        wide_clamp(ray.direction.norm_spec())
    }

    /// Half the linear coefficient: `(O - C) . D`, exactly, in units of
    /// 2^-64.
    pub open spec fn quadratic_half_b(&self, ray: Ray) -> int {
        wide_clamp(exact_dot(ray.origin.minus(self.center), ray.direction))
    }

    /// The constant coefficient: `|O - C|^2 - r^2`, exactly, in units of
    /// 2^-64.
    pub open spec fn quadratic_c(&self, ray: Ray) -> int {
        wide_clamp(ray.origin.minus(self.center).norm_spec() - self.radius.raw * self.radius.raw)
    }

    /// A quarter of the discriminant: `b^2 - a c`, exactly, in units of
    /// 2^-128.
    pub open spec fn discriminant(&self, ray: Ray) -> int {
        self.quadratic_half_b(ray) * self.quadratic_half_b(ray) - Sphere::<T>::quadratic_a(ray)
            * self.quadratic_c(ray)
    }

    /// The smaller root: `(-b - sqrt(disc)) / a`, where the root of the
    /// discriminant is rounded down and the quotient toward zero.
    pub open spec fn near_root(&self, ray: Ray) -> Fixed {
        Fixed {
            raw: root_raw(
                -self.quadratic_half_b(ray) - floor_sqrt(self.discriminant(ray)),
                Sphere::<T>::quadratic_a(ray),
            ) as i64,
        }
    }

    /// The larger root: `(-b + sqrt(disc)) / a`, rounded likewise.
    pub open spec fn far_root(&self, ray: Ray) -> Fixed {
        Fixed {
            raw: root_raw(
                -self.quadratic_half_b(ray) + floor_sqrt(self.discriminant(ray)),
                Sphere::<T>::quadratic_a(ray),
            ) as i64,
        }
    }

    /// The outward normal at the point `p` of the surface: `(p - C) / r`.
    pub open spec fn outward_normal(&self, p: Point3) -> Vec3 {
        p.minus(self.center).divided(self.radius)
    }

    /// The record of the hit of `ray` at parameter `t`.
    pub open spec fn record_at(&self, ray: Ray, t: Fixed) -> HitRecord<'_, T> {
        let p = ray.at_spec(t);
        let outward = self.outward_normal(p);
        HitRecord::new_spec(p, outward, t, ray.direction.dot_spec(outward).raw < 0, &self.material)
    }

    /// The normal of a record points against the ray: its dot product with
    /// the direction of the ray is never positive.
    pub proof fn lemma_normal_opposes_ray(&self, ray: Ray, t: Fixed)
        ensures
            ray.direction.dot_spec(self.record_at(ray, t).normal).raw <= 0,
    {
        crate::laws::lemma_dot_negated(ray.direction, self.outward_normal(ray.at_spec(t)));
    }

    /// The smaller root is not above the larger, where there are roots.
    pub proof fn lemma_roots_ordered(&self, ray: Ray)
        requires
            self.discriminant(ray) >= 0,
        ensures
            self.near_root(ray).raw <= self.far_root(ray).raw,
    {
        let a = Sphere::<T>::quadratic_a(ray);
        let root = floor_sqrt(self.discriminant(ray));
        lemma_floor_sqrt_exists(self.discriminant(ray));
        lemma_length_nonnegative(ray.direction);
        let low = -self.quadratic_half_b(ray) - root;
        let high = -self.quadratic_half_b(ray) + root;
        if a > 0 {
            assert(low * SCALE <= high * SCALE) by (nonlinear_arith)
                requires
                    low <= high,
            ;
            lemma_quotient_monotone(low * SCALE, high * SCALE, a);
        }
    }
}

impl<T: Material> Hittable for Sphere<T> {
    type Surface = T;

    /// The radius is positive, and the material is in order.
    open spec fn fault(&self) -> Option<ConfigError> {
        if self.radius.raw <= 0 {
            Some(ConfigError::RadiusNotPositive)
        } else {
            self.material.fault()
        }
    }

    fn check(&self) -> (r: Result<(), ConfigError>) {
        if self.radius.raw <= 0 {
            Err(ConfigError::RadiusNotPositive)
        } else {
            self.material.check()
        }
    }

    /// The hit at the smaller root of the quadratic where that lies within
    /// the interval, else at the larger root where that does; none where the
    /// discriminant is negative or neither root lies within.
    open spec fn hit_spec(&self, ray: Ray, t_max: Fixed, t_min: Fixed) -> Option<HitRecord<'_, T>> {
        if self.discriminant(ray) < 0 {
            None
        } else if within(self.near_root(ray), t_max, t_min) {
            Some(self.record_at(ray, self.near_root(ray)))
        } else if within(self.far_root(ray), t_max, t_min) {
            Some(self.record_at(ray, self.far_root(ray)))
        } else {
            None
        }
    }

    proof fn lemma_hit_within(&self, ray: Ray, t_max: Fixed, t_min: Fixed) {
    }

    proof fn lemma_hit_narrowed(&self, ray: Ray, t_max: Fixed, t_min: Fixed, limit: Fixed) {
        if self.discriminant(ray) >= 0 {
            self.lemma_roots_ordered(ray);
        }
    }

    /// Solves the quadratic for the parameters at which the ray meets the
    /// sphere and takes the smaller root that lies within the interval. The
    /// coefficients and the discriminant are formed without rounding; only
    /// the root of the discriminant and the quotient are rounded. The normal
    /// of the record points against the ray, and is one long up to the
    /// tolerance of `surface::lemma_hit_normal_length`.
    fn hit(&self, ray: &Ray, t_max: Fixed, t_min: Fixed) -> (r: Option<HitRecord<'_, T>>)
        ensures
            r matches Some(record) ==> within(record.t, t_max, t_min) && ray.direction.dot_spec(
                record.normal,
            ).raw <= 0,
    {
        proof {
            self.lemma_normal_opposes_ray(*ray, self.near_root(*ray));
            self.lemma_normal_opposes_ray(*ray, self.far_root(*ray));
        }
        let oc = ray.origin - self.center;
        let norm = ray.direction.norm();
        let a: u128 = if norm > WIDE_MAX as u128 {
            WIDE_MAX as u128
        } else {
            norm
        };
        let half_b: i128 = clamped_dot(oc, ray.direction);
        let radius: u128 = unsigned_magnitude(self.radius.raw) as u128;
        proof {
            lemma_square_of_magnitude(self.radius.raw as int);
        }
        let c: i128 = balance(oc.norm(), radius * radius);
        let half_b_size: u128 = if half_b < 0 {
            (-half_b) as u128
        } else {
            half_b as u128
        };
        let c_size: u128 = if c < 0 {
            (-c) as u128
        } else {
            c as u128
        };
        let bb = Wide::product(half_b_size, half_b_size);
        let ac = Wide::product(a, c_size);
        proof {
            lemma_length_nonnegative(ray.direction);
            assert(a == Sphere::<T>::quadratic_a(*ray));
            assert(half_b == self.quadratic_half_b(*ray));
            assert(radius * radius == self.radius.raw * self.radius.raw);
            assert(c == self.quadratic_c(*ray));
            let bound = WIDE_MAX as int;
            assert(half_b_size * half_b_size == half_b * half_b && half_b_size * half_b_size
                <= bound * bound) by (nonlinear_arith)
                requires
                    half_b_size == magnitude(half_b as int),
                    half_b_size <= bound,
            ;
            assert(a * c_size <= bound * bound && 0 <= a * c_size && (c < 0 ==> a * c == -(a
                * c_size)) && (c >= 0 ==> a * c == a * c_size)) by (nonlinear_arith)
                requires
                    0 <= a <= bound,
                    c_size == magnitude(c as int),
                    c_size <= bound,
            ;
            assert(bound * bound
                == 0x400_0000_0000_0000_0000_0000_0000_0000_0000_0000_0000_0000_0000_0000_0000_0000int);
            assert(two_to_128() * two_to_128()
                == 0x1_0000_0000_0000_0000_0000_0000_0000_0000_0000_0000_0000_0000_0000_0000_0000_0000int);
        }
        let discriminant = if c > 0 {
            if !ac.less_equal(&bb) {
                return None;
            }
            bb.minus(&ac)
        } else {
            bb.plus(&ac)
        };
        proof {
            let (ai, ci, hi, si) = (a as int, c as int, half_b as int, c_size as int);
            assert(bb@ == hi * hi);
            assert(ac@ == ai * si);
            if c > 0 {
                assert(si == ci);
                assert(discriminant@ == hi * hi - ai * ci);
            } else {
                assert(ai * ci == -(ai * si)) by (nonlinear_arith)
                    requires
                        si == -ci,
                ;
                assert(discriminant@ == hi * hi - ai * ci);
            }
            assert(discriminant@ == self.discriminant(*ray));
        }
        let sqrtd: i128 = discriminant.root() as i128;
        proof {
            lemma_floor_sqrt_unique(self.discriminant(*ray), sqrtd as int);
        }

        // The smaller root first, the larger one where that is out of range.
        let mut root = solve(-half_b - sqrtd, a);
        if root.raw <= t_min.raw || t_max.raw <= root.raw {
            root = solve(-half_b + sqrtd, a);
            if root.raw <= t_min.raw || t_max.raw <= root.raw {
                return None;
            }
        }
        let p = ray.at(root);
        let outward_normal = (p - self.center) / self.radius;
        let front_face = ray.direction.dot(outward_normal).raw < 0;
        Some(HitRecord::new(p, outward_normal, root, front_face, &self.material))
    }
}

} // verus!
