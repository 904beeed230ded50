//! The scene: a list of objects that answers with the nearest hit.

use crate::config::ConfigError;
use crate::fixed::Fixed;
use crate::hittable::below;
use crate::hittable::within;
use crate::hittable::HitRecord;
use crate::hittable::Hittable;
use crate::material::AnyMaterial;
use crate::ray::Ray;
use crate::sphere::Sphere;
use vstd::prelude::*;

verus! {

/// A list of objects, in the order in which they were added.
pub struct HittableList<H: Hittable> {
    pub objects: Vec<H>,
}

/// A scene: a list of spheres, each of any of the materials.
pub type Scene = HittableList<Sphere<AnyMaterial>>;

/// Where a search goes on after `found`: up to the parameter of the hit, or
/// up to `t_max` where nothing was found yet.
pub open spec fn search_limit<'a, M>(found: Option<HitRecord<'a, M>>, t_max: Fixed) -> Fixed {
    match found {
        Some(record) => record.t,
        None => t_max,
    }
}

impl<H: Hittable> HittableList<H> {
    /// The empty list.
    pub fn new() -> (r: HittableList<H>)
        ensures
            r.objects@.len() == 0,
    {
        HittableList { objects: Vec::new() }
    }

    /// Appends an object.
    pub fn add(&mut self, hittable: H)
        ensures
            final(self).objects@ == old(self).objects@.push(hittable),
    {
        self.objects.push(hittable);
    }

    /// What is wrong with the first of the first `n` objects that is not in
    /// order, if any is not.
    pub open spec fn fault_among(&self, n: int) -> Option<ConfigError>
        decreases n,
    {
        if n <= 0 {
            None
        } else {
            match self.fault_among(n - 1) {
                Some(error) => Some(error),
                None => self.objects@[n - 1].fault(),
            }
        }
    }

    /// An object that is not in order decides the check of every longer
    /// part of the list.
    pub proof fn lemma_fault_among_stays(&self, k: int, n: int)
        requires
            k <= n,
            self.fault_among(k) is Some,
        ensures
            self.fault_among(n) == self.fault_among(k),
        decreases n - k,
    {
        if k < n {
            self.lemma_fault_among_stays(k, n - 1);
        }
    }

    /// The nearest hit among the first `n` objects: each object is searched
    /// only up to the nearest hit before it.
    pub open spec fn nearest_among(&self, n: int, ray: Ray, t_max: Fixed, t_min: Fixed) -> Option<
        HitRecord<'_, H::Surface>,
    >
        decreases n,
    {
        if n <= 0 {
            None
        } else {
            let before = self.nearest_among(n - 1, ray, t_max, t_min);
            match self.objects@[n - 1].hit_spec(ray, search_limit(before, t_max), t_min) {
                Some(record) => Some(record),
                None => before,
            }
        }
    }

    /// Whether `record` is the hit of the object at `index` and the nearest
    /// among the hits of the first `n` objects, each searched in the whole
    /// interval; of several that are equally near, the first.
    pub open spec fn is_nearest_among(
        &self,
        n: int,
        ray: Ray,
        t_max: Fixed,
        t_min: Fixed,
        record: HitRecord<'_, H::Surface>,
        index: int,
    ) -> bool {
        &&& 0 <= index < n
        &&& self.objects@[index].hit_spec(ray, t_max, t_min) == Some(record)
        &&& forall|j: int|
            0 <= j < n ==> (#[trigger] self.objects@[j].hit_spec(ray, t_max, t_min) matches Some(
                other,
            ) ==> record.t.raw <= other.t.raw && (j < index ==> record.t.raw < other.t.raw))
    }

    /// A list without objects is never hit.
    pub proof fn lemma_empty_list_is_missed(&self, ray: Ray, t_max: Fixed, t_min: Fixed)
        requires
            self.objects@.len() == 0,
        ensures
            self.hit_spec(ray, t_max, t_min) is None,
    {
    }

    /// What the scan over the first `n` objects finds: nothing exactly where
    /// no object among them is hit within the interval, and otherwise the
    /// nearest of their hits.
    pub proof fn lemma_nearest_among(&self, n: int, ray: Ray, t_max: Fixed, t_min: Fixed)
        requires
            0 <= n <= self.objects@.len(),
        ensures
            self.nearest_among(n, ray, t_max, t_min) is None <==> forall|j: int|
                0 <= j < n ==> (#[trigger] self.objects@[j].hit_spec(ray, t_max, t_min)) is None,
            self.nearest_among(n, ray, t_max, t_min) matches Some(record) ==> within(
                record.t,
                t_max,
                t_min,
            ) && exists|index: int| #[trigger]
                self.is_nearest_among(n, ray, t_max, t_min, record, index),
        decreases n,
    {
        if n > 0 {
            let m = n - 1;
            self.lemma_nearest_among(m, ray, t_max, t_min);
            let before = self.nearest_among(m, ray, t_max, t_min);
            let limit = search_limit(before, t_max);
            let object = self.objects@[n - 1];
            object.lemma_hit_narrowed(ray, t_max, t_min, limit);
            object.lemma_hit_within(ray, t_max, t_min);
            object.lemma_hit_within(ray, limit, t_min);
            match object.hit_spec(ray, limit, t_min) {
                Some(record) => {
                    assert(self.is_nearest_among(n, ray, t_max, t_min, record, n - 1)) by {
                        if let Some(old_record) = before {
                            let index = choose|index: int| #[trigger]
                                self.is_nearest_among(m, ray, t_max, t_min, old_record, index);
                            assert(self.is_nearest_among(m, ray, t_max, t_min, old_record, index));
                        }
                    }
                },
                None => {
                    if let Some(old_record) = before {
                        let index = choose|index: int| #[trigger]
                            self.is_nearest_among(m, ray, t_max, t_min, old_record, index);
                        assert(self.is_nearest_among(n, ray, t_max, t_min, old_record, index));
                    }
                },
            }
        }
    }

    /// A shorter search interval finds, among the first `n` objects, the same
    /// hit or none.
    pub proof fn lemma_nearest_among_narrowed(
        &self,
        n: int,
        ray: Ray,
        t_max: Fixed,
        t_min: Fixed,
        limit: Fixed,
    )
        requires
            0 <= n <= self.objects@.len(),
            limit.raw <= t_max.raw,
        ensures
            self.nearest_among(n, ray, limit, t_min) == below(
                self.nearest_among(n, ray, t_max, t_min),
                limit,
            ),
        decreases n,
    {
        if n > 0 {
            self.lemma_nearest_among_narrowed(n - 1, ray, t_max, t_min, limit);
            self.lemma_nearest_among(n - 1, ray, t_max, t_min);
            let wide = self.nearest_among(n - 1, ray, t_max, t_min);
            let narrow = self.nearest_among(n - 1, ray, limit, t_min);
            let object = self.objects@[n - 1];
            let wide_limit = search_limit(wide, t_max);
            let narrow_limit = search_limit(narrow, limit);
            object.lemma_hit_within(ray, wide_limit, t_min);
            if narrow_limit.raw <= wide_limit.raw {
                object.lemma_hit_narrowed(ray, wide_limit, t_min, narrow_limit);
            }
        }
    }
}

impl<H: Hittable> Hittable for HittableList<H> {
    type Surface = H::Surface;

    /// What is wrong with the first object that is not in order.
    open spec fn fault(&self) -> Option<ConfigError> {
        self.fault_among(self.objects@.len() as int)
    }

    fn check(&self) -> (r: Result<(), ConfigError>) {
        let mut i: usize = 0;
        while i < self.objects.len()
            invariant
                0 <= i <= self.objects@.len(),
                self.fault_among(i as int) is None,
            decreases self.objects@.len() - i,
        {
            match self.objects[i].check() {
                Err(error) => {
                    proof {
                        self.lemma_fault_among_stays(i + 1, self.objects@.len() as int);
                    }
                    return Err(error);
                },
                Ok(_) => {},
            }
            i = i + 1;
        }
        Ok(())
    }

    /// The nearest hit among all objects of the list.
    open spec fn hit_spec(&self, ray: Ray, t_max: Fixed, t_min: Fixed) -> Option<
        HitRecord<'_, H::Surface>,
    > {
        self.nearest_among(self.objects@.len() as int, ray, t_max, t_min)
    }

    proof fn lemma_hit_within(&self, ray: Ray, t_max: Fixed, t_min: Fixed) {
        self.lemma_nearest_among(self.objects@.len() as int, ray, t_max, t_min);
    }

    proof fn lemma_hit_narrowed(&self, ray: Ray, t_max: Fixed, t_min: Fixed, limit: Fixed) {
        self.lemma_nearest_among_narrowed(self.objects@.len() as int, ray, t_max, t_min, limit);
    }

    /// Scans the objects in order and keeps the nearest hit, searching each
    /// object only up to the nearest hit so far.
    fn hit(&self, ray: &Ray, t_max: Fixed, t_min: Fixed) -> (r: Option<HitRecord<'_, H::Surface>>)
        ensures
            r is None <==> forall|j: int|
                0 <= j < self.objects@.len() ==> (#[trigger] self.objects@[j].hit_spec(
                    *ray,
                    t_max,
                    t_min,
                )) is None,
            r matches Some(record) ==> within(record.t, t_max, t_min) && exists|index: int|
                #[trigger] self.is_nearest_among(
                    self.objects@.len() as int,
                    *ray,
                    t_max,
                    t_min,
                    record,
                    index,
                ),
    {
        proof {
            self.lemma_nearest_among(self.objects@.len() as int, *ray, t_max, t_min);
        }
        let mut nearest: Option<HitRecord<'_, H::Surface>> = None;
        let mut closest = t_max;
        let mut i: usize = 0;
        while i < self.objects.len()
            invariant
                0 <= i <= self.objects@.len(),
                nearest == self.nearest_among(i as int, *ray, t_max, t_min),
                closest == search_limit(nearest, t_max),
            decreases self.objects@.len() - i,
        {
            match self.objects[i].hit(ray, closest, t_min) {
                Some(record) => {
                    closest = record.t;
                    nearest = Some(record);
                },
                None => {},
            }
            i = i + 1;
        }
        nearest
    }
}

} // verus!
