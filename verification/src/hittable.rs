//! What a ray can hit, and the record of a hit.

use crate::config::reports;
use crate::config::ConfigError;
use crate::fixed::Fixed;
use crate::ray::Ray;
use crate::vec3::Point3;
use crate::vec3::Vec3;
use core::ops::Neg;
use vstd::prelude::*;

verus! {

/// Where a ray met a surface.
pub struct HitRecord<'a, M> {
    /// The point of the hit.
    pub p: Point3,
    /// The surface normal at `p`, turned against the ray.
    pub normal: Vec3,
    /// The parameter of the ray at `p`.
    pub t: Fixed,
    /// Whether the ray came from outside the surface.
    pub front_face: bool,
    /// The material of the surface, which belongs to the object that was hit.
    pub material: &'a M,
}

impl<'a, M> HitRecord<'a, M> {
    /// The record of a hit at `p` with the outward normal `normal`: the
    /// normal is kept for a ray from outside and negated for one from inside.
    pub open spec fn new_spec(
        p: Point3,
        normal: Vec3,
        t: Fixed,
        front_face: bool,
        material: &'a M,
    ) -> HitRecord<'a, M> {
        HitRecord {
            p,
            normal: if front_face {
                normal
            } else {
                normal.negated()
            },
            t,
            front_face,
            material,
        }
    }

    /// Records a hit at `p`, where `normal` is the outward normal of the
    /// surface. The stored normal points against the incoming ray.
    pub fn new(p: Point3, normal: Vec3, t: Fixed, front_face: bool, material: &'a M) -> (r:
        HitRecord<'a, M>)
        ensures
            r == HitRecord::new_spec(p, normal, t, front_face, material),
    {
        HitRecord {
            p,
            normal: if front_face {
                normal
            } else {
                normal.neg()
            },
            t,
            front_face,
            material,
        }
    }
}

/// Whether `t` lies strictly between `t_min` and `t_max`.
pub open spec fn within(t: Fixed, t_max: Fixed, t_min: Fixed) -> bool {
    t_min.raw < t.raw < t_max.raw
}

/// A hit as it is seen through a search interval that ends at `limit`: kept
/// where its parameter is below the limit, and lost otherwise.
pub open spec fn below<'a, M>(hit: Option<HitRecord<'a, M>>, limit: Fixed) -> Option<
    HitRecord<'a, M>,
> {
    match hit {
        Some(record) => if record.t.raw < limit.raw {
            Some(record)
        } else {
            None
        },
        None => None,
    }
}

/// Something that a ray can hit.
pub trait Hittable {
    /// The material of the surfaces.
    type Surface;

    /// What is wrong with the parameters of the object, if anything.
    spec fn fault(&self) -> Option<ConfigError>;

    /// Checks that the parameters of the object are in range.
    fn check(&self) -> (r: Result<(), ConfigError>)
        ensures
            reports(r, self.fault()),
    ;

    /// The nearest hit of `ray` with a parameter strictly between `t_min`
    /// and `t_max`, if there is one.
    spec fn hit_spec(&self, ray: Ray, t_max: Fixed, t_min: Fixed) -> Option<
        HitRecord<'_, Self::Surface>,
    >;

    /// No hit is reported outside the search interval.
    proof fn lemma_hit_within(&self, ray: Ray, t_max: Fixed, t_min: Fixed)
        ensures
            self.hit_spec(ray, t_max, t_min) matches Some(record) ==> within(
                record.t,
                t_max,
                t_min,
            ),
    ;

    /// A shorter search interval finds the same hit or none: what is found
    /// up to `limit` is what is found up to `t_max`, where that lies below
    /// `limit`.
    proof fn lemma_hit_narrowed(&self, ray: Ray, t_max: Fixed, t_min: Fixed, limit: Fixed)
        requires
            limit.raw <= t_max.raw,
        ensures
            self.hit_spec(ray, limit, t_min) == below(self.hit_spec(ray, t_max, t_min), limit),
    ;

    /// Finds the nearest hit of `ray` within the open interval from `t_min`
    /// to `t_max`.
    fn hit(&self, ray: &Ray, t_max: Fixed, t_min: Fixed) -> (r: Option<
        HitRecord<'_, Self::Surface>,
    >)
        ensures
            r == self.hit_spec(*ray, t_max, t_min),
    ;
}

} // verus!
