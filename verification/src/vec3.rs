//! Three-component vectors, used alike for points, directions and colours.

use crate::fixed::clamp_raw;
use crate::fixed::floor_sqrt;
use crate::fixed::integer_sqrt;
use crate::fixed::lemma_floor_sqrt_exists;
use crate::fixed::magnitude;
use crate::fixed::unsigned_magnitude;
use crate::fixed::Fixed;
use crate::fixed::RAW_MAX;
use crate::fixed::SCALE;
use crate::random::Sampler;
use core::ops::Neg;
use vstd::prelude::*;
use vstd::std_specs::ops::AddSpec;
use vstd::std_specs::ops::DivSpec;
use vstd::std_specs::ops::MulSpec;
use vstd::std_specs::ops::NegSpec;
use vstd::std_specs::ops::SubSpec;

verus! {

/// A point in space.
pub type Point3 = Vec3;

/// A vector counts as zero where the exact sum of the squares of its raw
/// components is below this value: where it is shorter than a millionth.
/// The square of a millionth is 18446744.07 units of 2^-64.
pub const NEAR_ZERO_NORM: u128 = 18446745;

/// How many candidates rejection sampling draws before it settles for the
/// centre. A candidate is accepted with a probability above one half.
pub const MAX_TRIES: u32 = 128;

/// A vector of three fixed-point numbers.
#[derive(Clone, Copy, Debug, PartialEq, Eq, Structural)]
pub struct Vec3 {
    pub x: Fixed,
    pub y: Fixed,
    pub z: Fixed,
}

impl vstd::std_specs::ops::NegSpecImpl for Vec3 {
    open spec fn obeys_neg_spec() -> bool {
        true
    }

    open spec fn neg_req(self) -> bool {
        true
    }

    open spec fn neg_spec(self) -> Vec3 {
        self.negated()
    }
}

impl vstd::std_specs::ops::AddSpecImpl<Vec3> for Vec3 {
    open spec fn obeys_add_spec() -> bool {
        true
    }

    open spec fn add_req(self, other: Vec3) -> bool {
        true
    }

    open spec fn add_spec(self, other: Vec3) -> Vec3 {
        self.plus(other)
    }
}

impl vstd::std_specs::ops::SubSpecImpl<Vec3> for Vec3 {
    open spec fn obeys_sub_spec() -> bool {
        true
    }

    open spec fn sub_req(self, other: Vec3) -> bool {
        true
    }

    open spec fn sub_spec(self, other: Vec3) -> Vec3 {
        self.minus(other)
    }
}

impl vstd::std_specs::ops::MulSpecImpl<Fixed> for Vec3 {
    open spec fn obeys_mul_spec() -> bool {
        true
    }

    open spec fn mul_req(self, t: Fixed) -> bool {
        true
    }

    open spec fn mul_spec(self, t: Fixed) -> Vec3 {
        self.scaled(t)
    }
}

impl vstd::std_specs::ops::MulSpecImpl<Vec3> for Fixed {
    open spec fn obeys_mul_spec() -> bool {
        true
    }

    open spec fn mul_req(self, vector: Vec3) -> bool {
        true
    }

    open spec fn mul_spec(self, vector: Vec3) -> Vec3 {
        vector.scaled(self)
    }
}

impl vstd::std_specs::ops::MulSpecImpl<Vec3> for Vec3 {
    open spec fn obeys_mul_spec() -> bool {
        true
    }

    open spec fn mul_req(self, other: Vec3) -> bool {
        true
    }

    open spec fn mul_spec(self, other: Vec3) -> Vec3 {
        self.hadamard(other)
    }
}

impl vstd::std_specs::ops::DivSpecImpl<Fixed> for Vec3 {
    open spec fn obeys_div_spec() -> bool {
        true
    }

    open spec fn div_req(self, t: Fixed) -> bool {
        true
    }

    open spec fn div_spec(self, t: Fixed) -> Vec3 {
        self.divided(t)
    }
}

impl core::ops::Neg for Vec3 {
    type Output = Vec3;

    /// The vector with each component negated.
    fn neg(self) -> (r: Vec3)
        ensures
            r == self.negated(),
    {
        Vec3 { x: self.x.neg(), y: self.y.neg(), z: self.z.neg() }
    }
}

impl core::ops::Add<Vec3> for Vec3 {
    type Output = Vec3;

    /// The sum component by component.
    fn add(self, other: Vec3) -> (r: Vec3)
        ensures
            r == self.plus(other),
    {
        Vec3 { x: self.x + other.x, y: self.y + other.y, z: self.z + other.z }
    }
}

impl core::ops::Sub<Vec3> for Vec3 {
    type Output = Vec3;

    /// The difference component by component.
    fn sub(self, other: Vec3) -> (r: Vec3)
        ensures
            r == self.minus(other),
    {
        Vec3 { x: self.x - other.x, y: self.y - other.y, z: self.z - other.z }
    }
}

impl core::ops::Mul<Fixed> for Vec3 {
    type Output = Vec3;

    /// The vector with each component multiplied by `t`.
    fn mul(self, t: Fixed) -> (r: Vec3)
        ensures
            r == self.scaled(t),
    {
        Vec3 { x: t * self.x, y: t * self.y, z: t * self.z }
    }
}

impl core::ops::Mul<Vec3> for Fixed {
    type Output = Vec3;

    /// The vector with each component multiplied by `self`.
    fn mul(self, vector: Vec3) -> (r: Vec3)
        ensures
            r == vector.scaled(self),
    {
        Vec3 { x: self * vector.x, y: self * vector.y, z: self * vector.z }
    }
}

impl core::ops::Mul<Vec3> for Vec3 {
    type Output = Vec3;

    /// The product component by component, as it attenuates a colour.
    fn mul(self, other: Vec3) -> (r: Vec3)
        ensures
            r == self.hadamard(other),
    {
        Vec3 { x: self.x * other.x, y: self.y * other.y, z: self.z * other.z }
    }
}

impl core::ops::Div<Fixed> for Vec3 {
    type Output = Vec3;

    /// The vector with each component divided by `t`.
    fn div(self, t: Fixed) -> (r: Vec3)
        ensures
            r == self.divided(t),
    {
        Vec3 { x: self.x / t, y: self.y / t, z: self.z / t }
    }
}

impl Vec3 {
    /// The vector with the given components.
    pub fn new(x: Fixed, y: Fixed, z: Fixed) -> (r: Vec3)
        ensures
            r == (Vec3 { x, y, z }),
    {
        Vec3 { x, y, z }
    }

    /// The zero vector.
    pub open spec fn zero_spec() -> Vec3 {
        Vec3 { x: Fixed { raw: 0 }, y: Fixed { raw: 0 }, z: Fixed { raw: 0 } }
    }

    /// The zero vector.
    pub fn zero() -> (r: Vec3)
        ensures
            r == Vec3::zero_spec(),
    {
        Vec3 { x: Fixed::zero(), y: Fixed::zero(), z: Fixed::zero() }
    }

    /// The vector with each component negated.
    pub open spec fn negated(self) -> Vec3 {
        Vec3 { x: self.x.neg_spec(), y: self.y.neg_spec(), z: self.z.neg_spec() }
    }

    /// The sum component by component.
    pub open spec fn plus(self, other: Vec3) -> Vec3 {
        Vec3 {
            x: self.x.add_spec(other.x),
            y: self.y.add_spec(other.y),
            z: self.z.add_spec(other.z),
        }
    }

    /// The difference component by component.
    pub open spec fn minus(self, other: Vec3) -> Vec3 {
        Vec3 {
            x: self.x.sub_spec(other.x),
            y: self.y.sub_spec(other.y),
            z: self.z.sub_spec(other.z),
        }
    }

    /// The vector with each component divided by `t`.
    pub open spec fn divided(self, t: Fixed) -> Vec3 {
        Vec3 { x: self.x.div_spec(t), y: self.y.div_spec(t), z: self.z.div_spec(t) }
    }

    /// The vector with each component multiplied by `t`.
    pub open spec fn scaled(self, t: Fixed) -> Vec3 {
        Vec3 { x: t.mul_spec(self.x), y: t.mul_spec(self.y), z: t.mul_spec(self.z) }
    }

    /// The product component by component.
    pub open spec fn hadamard(self, other: Vec3) -> Vec3 {
        Vec3 {
            x: self.x.mul_spec(other.x),
            y: self.y.mul_spec(other.y),
            z: self.z.mul_spec(other.z),
        }
    }

    /// The dot product: the sum of the products of the components.
    pub open spec fn dot_spec(self, other: Vec3) -> Fixed {
        self.x.mul_spec(other.x).add_spec(self.y.mul_spec(other.y)).add_spec(
            self.z.mul_spec(other.z),
        )
    }

    /// The dot product of `self` and `other`.
    pub fn dot(&self, other: Vec3) -> (r: Fixed)
        ensures
            r == self.dot_spec(other),
    {
        self.x * other.x + self.y * other.y + self.z * other.z
    }

    /// The cross product.
    pub open spec fn cross_spec(self, other: Vec3) -> Vec3 {
        Vec3 {
            x: self.y.mul_spec(other.z).sub_spec(self.z.mul_spec(other.y)),
            y: self.z.mul_spec(other.x).sub_spec(self.x.mul_spec(other.z)),
            z: self.x.mul_spec(other.y).sub_spec(self.y.mul_spec(other.x)),
        }
    }

    /// The cross product of `self` and `other`.
    pub fn cross(&self, other: Vec3) -> (r: Vec3)
        ensures
            r == self.cross_spec(other),
    {
        Vec3 {
            x: self.y * other.z - self.z * other.y,
            y: self.z * other.x - self.x * other.z,
            z: self.x * other.y - self.y * other.x,
        }
    }

    /// The squared length: the dot product of the vector with itself.
    pub open spec fn length_squared_spec(self) -> Fixed {
        self.dot_spec(self)
    }

    /// The squared length of the vector, as a number: each square is rounded
    /// to the last place before the sum, so that the square of a length
    /// below 2^-16 is zero. `norm` gives the sum without rounding, and
    /// `length` is the root of that.
    pub fn length_squared(&self) -> (r: Fixed)
        ensures
            r == self.length_squared_spec(),
            r.raw >= 0,
    {
        proof {
            lemma_square_nonnegative(self.x);
            lemma_square_nonnegative(self.y);
            lemma_square_nonnegative(self.z);
        }
        self.x * self.x + self.y * self.y + self.z * self.z
    }

    /// The sum of the squares of the raw components, without any rounding:
    /// the square of the length, in units of 2^-64.
    pub open spec fn norm_spec(self) -> int {
        self.x.raw * self.x.raw + self.y.raw * self.y.raw + self.z.raw * self.z.raw
    }

    /// The length: the square root of the exact sum of the squares, rounded
    /// down once to a representable value, and saturated.
    pub open spec fn length_spec(self) -> Fixed {
        Fixed { raw: clamp_raw(floor_sqrt(self.norm_spec())) as i64 }
    }

    /// The exact sum of the squares of the raw components.
    pub fn norm(&self) -> (n: u128)
        ensures
            n == self.norm_spec(),
            n <= 0xc000_0000_0000_0000_0000_0000_0000_0000,
    {
        let x: u128 = unsigned_magnitude(self.x.raw) as u128;
        let y: u128 = unsigned_magnitude(self.y.raw) as u128;
        let z: u128 = unsigned_magnitude(self.z.raw) as u128;
        proof {
            lemma_square_of_magnitude(self.x.raw as int);
            lemma_square_of_magnitude(self.y.raw as int);
            lemma_square_of_magnitude(self.z.raw as int);
        }
        x * x + y * y + z * z
    }

    /// The length of the vector. The squares are summed without rounding, so
    /// that the length of a short vector is as precise as that of a long
    /// one; only the root is rounded, and the result saturates.
    pub fn length(&self) -> (r: Fixed)
        ensures
            r == self.length_spec(),
            r.raw >= 0,
    {
        let root = integer_sqrt(self.norm());
        if root > RAW_MAX as u128 {
            Fixed { raw: RAW_MAX }
        } else {
            Fixed { raw: root as i64 }
        }
    }

    /// The vector divided by its length.
    pub open spec fn unit_vector_spec(self) -> Vec3 {
        self.divided(self.length_spec())
    }

    /// The vector scaled to length one. Only the zero vector has the length
    /// zero; its unit vector is the zero vector.
    pub fn unit_vector(self) -> (r: Vec3)
        ensures
            r == self.unit_vector_spec(),
    {
        self / self.length()
    }

    /// Whether the length is below a millionth.
    pub open spec fn near_zero_spec(self) -> bool {
        self.norm_spec() < NEAR_ZERO_NORM
    }

    /// Whether the vector is too short to give a direction: shorter than a
    /// millionth. The exact sum of the squares is compared with the square
    /// of a millionth, so nothing is rounded.
    pub fn near_zero(&self) -> (r: bool)
        ensures
            r == self.near_zero_spec(),
    {
        self.norm() < NEAR_ZERO_NORM
    }

    /// The mirror image of the vector at the plane with normal `n`:
    /// `v - 2 (v . n) n`.
    pub open spec fn reflect_spec(self, n: Vec3) -> Vec3 {
        self.minus(n.scaled(Fixed::int_spec(2).mul_spec(self.dot_spec(n))))
    }

    /// Reflects the vector at the plane with normal `n`.
    pub fn reflect(self, n: Vec3) -> (r: Vec3)
        ensures
            r == self.reflect_spec(n),
    {
        self - (Fixed::from_int(2) * self.dot(n)) * n
    }

    /// The cosine that refraction works with: `(-v) . n`, at most one.
    pub open spec fn incidence_cosine(self, n: Vec3) -> Fixed {
        self.negated().dot_spec(n).min_spec(Fixed { raw: SCALE })
    }

    /// The part of the refracted direction across the normal:
    /// `eta (v + cos n)`.
    pub open spec fn refract_perpendicular(self, n: Vec3, eta_ratio: Fixed) -> Vec3 {
        self.plus(n.scaled(self.incidence_cosine(n))).scaled(eta_ratio)
    }

    /// The part of the refracted direction along the normal:
    /// `-sqrt(|1 - |perp|^2|) n`, with `perp` the part across it.
    pub open spec fn refract_parallel(perpendicular: Vec3, n: Vec3) -> Vec3 {
        n.scaled(
            (Fixed { raw: SCALE }).sub_spec(
                perpendicular.length_squared_spec(),
            ).abs_spec().sqrt_spec().neg_spec(),
        )
    }

    /// The refracted direction by Snell's law: the sum of its parts across
    /// and along the normal.
    pub open spec fn refract_spec(self, n: Vec3, eta_ratio: Fixed) -> Vec3 {
        let perpendicular = self.refract_perpendicular(n, eta_ratio);
        perpendicular.plus(Vec3::refract_parallel(perpendicular, n))
    }

    /// Refracts the unit vector `self` at a surface with unit normal `n`,
    /// where `eta_ratio` is the ratio of the refractive indices. The radicand
    /// is taken by its absolute value before the root.
    pub fn refract(self, n: Vec3, eta_ratio: Fixed) -> (r: Vec3)
        ensures
            r == self.refract_spec(n, eta_ratio),
    {
        let cos_theta = self.neg().dot(n).min(Fixed::one());
        let perpendicular = eta_ratio * (self + cos_theta * n);
        let parallel = (Fixed::one() - perpendicular.length_squared()).abs().sqrt().neg() * n;
        perpendicular + parallel
    }

    /// Whether each component lies between minus one and one, one excluded.
    pub open spec fn in_unit_cube(self) -> bool {
        &&& -SCALE <= self.x.raw < SCALE
        &&& -SCALE <= self.y.raw < SCALE
        &&& -SCALE <= self.z.raw < SCALE
    }

    /// Whether the vector lies in the unit cube and is at most one long.
    pub open spec fn in_unit_ball(self) -> bool {
        self.in_unit_cube() && self.length_squared_spec().raw <= SCALE
    }

    /// Whether the vector lies in the unit ball and in the plane `z = 0`.
    pub open spec fn in_unit_disk(self) -> bool {
        self.in_unit_ball() && self.z.raw == 0
    }

    /// The number from minus one to one that a draw from zero to one stands
    /// for: `2 u - 1`.
    pub open spec fn spread_spec(u: Fixed) -> Fixed {
        Fixed::int_spec(2).mul_spec(u).sub_spec(Fixed { raw: SCALE })
    }

    /// Maps a draw `u` from the interval from zero to one onto the interval
    /// from minus one to one.
    pub fn spread(u: Fixed) -> (r: Fixed)
        ensures
            r == Vec3::spread_spec(u),
            0 <= u.raw < SCALE ==> r.raw == 2 * u.raw - SCALE,
    {
        proof {
            if 0 <= u.raw < SCALE {
                assert(2 * SCALE * u.raw == SCALE * (2 * u.raw) && 2 * u.raw >= 0)
                    by (nonlinear_arith)
                    requires
                        u.raw >= 0,
                ;
                vstd::arithmetic::div_mod::lemma_div_multiples_vanish(2 * u.raw, SCALE as int);
            }
        }
        Fixed::from_int(2) * u - Fixed::one()
    }

    /// What `random` gives with a replaying sampler, and the sampler
    /// afterwards: three draws, spread over the cube.
    pub open spec fn random_replayed(rng: Sampler) -> (Vec3, Sampler) {
        (
            Vec3 {
                x: Vec3::spread_spec(rng.upcoming_unit()),
                y: Vec3::spread_spec(rng.advanced().upcoming_unit()),
                z: Vec3::spread_spec(rng.advanced().advanced().upcoming_unit()),
            },
            rng.advanced().advanced().advanced(),
        )
    }

    /// A vector with each component drawn from minus one to one.
    pub fn random(rng: &mut Sampler) -> (r: Vec3)
        ensures
            r.in_unit_cube(),
            old(rng).replays() ==> (r, *final(rng)) == Vec3::random_replayed(*old(rng)),
            old(rng).replays() == final(rng).replays(),
    {
        let x = Vec3::spread(rng.next_unit());
        let y = Vec3::spread(rng.next_unit());
        let z = Vec3::spread(rng.next_unit());
        Vec3 { x, y, z }
    }

    /// What `random_in_unit_sphere` gives with a replaying sampler that has
    /// `tries` candidates left to draw, and the sampler afterwards: the
    /// first candidate that is at most one long, or else the centre.
    pub open spec fn random_in_unit_sphere_replayed(rng: Sampler, tries: nat) -> (Vec3, Sampler)
        decreases tries,
    {
        if tries == 0 {
            (Vec3::zero_spec(), rng)
        } else {
            let (candidate, next) = Vec3::random_replayed(rng);
            if candidate.length_squared_spec().raw <= SCALE {
                (candidate, next)
            } else {
                Vec3::random_in_unit_sphere_replayed(next, (tries - 1) as nat)
            }
        }
    }

    /// A vector in the unit ball: candidates from the cube are drawn until
    /// one is at most one long. After `MAX_TRIES` rejections the centre is
    /// returned.
    pub fn random_in_unit_sphere(rng: &mut Sampler) -> (r: Vec3)
        ensures
            r.in_unit_ball(),
            old(rng).replays() ==> (r, *final(rng)) == Vec3::random_in_unit_sphere_replayed(
                *old(rng),
                MAX_TRIES as nat,
            ),
            old(rng).replays() == final(rng).replays(),
    {
        let mut tries: u32 = 0;
        while tries < MAX_TRIES
            invariant
                tries <= MAX_TRIES,
                old(rng).replays() == rng.replays(),
                old(rng).replays() ==> Vec3::random_in_unit_sphere_replayed(
                    *rng,
                    (MAX_TRIES - tries) as nat,
                ) == Vec3::random_in_unit_sphere_replayed(*old(rng), MAX_TRIES as nat),
            decreases MAX_TRIES - tries,
        {
            let candidate = Vec3::random(rng);
            if candidate.length_squared().raw <= SCALE {
                return candidate;
            }
            tries = tries + 1;
        }
        Vec3::zero()
    }

    /// What a candidate for the unit disk is with a replaying sampler, and
    /// the sampler afterwards: two draws, spread over the square.
    pub open spec fn disk_candidate_replayed(rng: Sampler) -> (Vec3, Sampler) {
        (
            Vec3 {
                x: Vec3::spread_spec(rng.upcoming_unit()),
                y: Vec3::spread_spec(rng.advanced().upcoming_unit()),
                z: Fixed { raw: 0 },
            },
            rng.advanced().advanced(),
        )
    }

    /// What `random_in_unit_disk` gives with a replaying sampler that has
    /// `tries` candidates left to draw, and the sampler afterwards.
    pub open spec fn random_in_unit_disk_replayed(rng: Sampler, tries: nat) -> (Vec3, Sampler)
        decreases tries,
    {
        if tries == 0 {
            (Vec3::zero_spec(), rng)
        } else {
            let (candidate, next) = Vec3::disk_candidate_replayed(rng);
            if candidate.length_squared_spec().raw <= SCALE {
                (candidate, next)
            } else {
                Vec3::random_in_unit_disk_replayed(next, (tries - 1) as nat)
            }
        }
    }

    /// A vector in the unit disk of the plane `z = 0`, drawn like one in the
    /// unit ball.
    pub fn random_in_unit_disk(rng: &mut Sampler) -> (r: Vec3)
        ensures
            r.in_unit_disk(),
            old(rng).replays() ==> (r, *final(rng)) == Vec3::random_in_unit_disk_replayed(
                *old(rng),
                MAX_TRIES as nat,
            ),
            old(rng).replays() == final(rng).replays(),
    {
        let mut tries: u32 = 0;
        while tries < MAX_TRIES
            invariant
                tries <= MAX_TRIES,
                old(rng).replays() == rng.replays(),
                old(rng).replays() ==> Vec3::random_in_unit_disk_replayed(
                    *rng,
                    (MAX_TRIES - tries) as nat,
                ) == Vec3::random_in_unit_disk_replayed(*old(rng), MAX_TRIES as nat),
            decreases MAX_TRIES - tries,
        {
            let x = Vec3::spread(rng.next_unit());
            let y = Vec3::spread(rng.next_unit());
            let candidate = Vec3 { x, y, z: Fixed::zero() };
            if candidate.length_squared().raw <= SCALE {
                return candidate;
            }
            tries = tries + 1;
        }
        Vec3::zero()
    }

    /// What `random_unit_vector` gives with a replaying sampler, and the
    /// sampler afterwards.
    pub open spec fn random_unit_vector_replayed(rng: Sampler) -> (Vec3, Sampler) {
        let (sample, next) = Vec3::random_in_unit_sphere_replayed(rng, MAX_TRIES as nat);
        (sample.unit_vector_spec(), next)
    }

    /// A direction: a vector drawn from the unit ball, scaled to length one.
    pub fn random_unit_vector(rng: &mut Sampler) -> (r: Vec3)
        ensures
            exists|v: Vec3| v.in_unit_ball() && r == #[trigger] v.unit_vector_spec(),
            old(rng).replays() ==> (r, *final(rng)) == Vec3::random_unit_vector_replayed(
                *old(rng),
            ),
            old(rng).replays() == final(rng).replays(),
    {
        Vec3::random_in_unit_sphere(rng).unit_vector()
    }

    /// The vector itself, or its negation where it points away from `normal`.
    pub open spec fn toward_spec(self, normal: Vec3) -> Vec3 {
        if self.dot_spec(normal).raw < 0 {
            self.negated()
        } else {
            self
        }
    }

    /// Turns the vector into the half-space that `normal` points to: it is
    /// negated where its dot product with `normal` is negative.
    pub fn toward(self, normal: Vec3) -> (r: Vec3)
        ensures
            r == self.toward_spec(normal),
    {
        if self.dot(normal).raw < 0 {
            self.neg()
        } else {
            self
        }
    }

    /// What `random_in_hemishpere` gives with a replaying sampler, and the
    /// sampler afterwards.
    pub open spec fn random_in_hemishpere_replayed(normal: Vec3, rng: Sampler) -> (Vec3, Sampler) {
        let (sample, next) = Vec3::random_in_unit_sphere_replayed(rng, MAX_TRIES as nat);
        (sample.toward_spec(normal), next)
    }

    /// A vector drawn from the unit ball and turned into the half-space that
    /// `normal` points to.
    pub fn random_in_hemishpere(normal: Vec3, rng: &mut Sampler) -> (r: Vec3)
        ensures
            exists|v: Vec3| v.in_unit_ball() && r == #[trigger] v.toward_spec(normal),
            old(rng).replays() ==> (r, *final(rng)) == Vec3::random_in_hemishpere_replayed(
                normal,
                *old(rng),
            ),
            old(rng).replays() == final(rng).replays(),
    {
        Vec3::random_in_unit_sphere(rng).toward(normal)
    }
}

/// The square of a raw value is the square of its magnitude, and at most
/// 2^126.
pub proof fn lemma_square_of_magnitude(v: int)
    requires
        -0x8000_0000_0000_0000 <= v <= 0x8000_0000_0000_0000,
    ensures
        magnitude(v) * magnitude(v) == v * v,
        0 <= v * v <= 0x4000_0000_0000_0000_0000_0000_0000_0000,
{
    assert(magnitude(v) * magnitude(v) == v * v && 0 <= v * v && v * v
        <= 0x8000_0000_0000_0000 * 0x8000_0000_0000_0000) by (nonlinear_arith)
        requires
            -0x8000_0000_0000_0000 <= v <= 0x8000_0000_0000_0000,
    ;
}

/// The length of a vector is not negative.
pub proof fn lemma_length_nonnegative(a: Vec3)
    ensures
        a.norm_spec() >= 0,
        a.length_spec().raw >= 0,
{
    lemma_square_of_magnitude(a.x.raw as int);
    lemma_square_of_magnitude(a.y.raw as int);
    lemma_square_of_magnitude(a.z.raw as int);
    lemma_floor_sqrt_exists(a.norm_spec());
}

/// The square of a number is not negative.
pub proof fn lemma_square_nonnegative(a: Fixed)
    ensures
        a.mul_spec(a).raw >= 0,
{
    assert(a.raw * a.raw >= 0) by (nonlinear_arith);
}

} // verus!
