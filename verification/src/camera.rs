//! The camera: from a position on the image to a ray into the scene.

use crate::config::reports;
use crate::config::ConfigError;
use crate::fixed::Fixed;
use crate::random::Sampler;
use crate::ray::Ray;
use crate::vec3::Point3;
use crate::vec3::Vec3;
use crate::vec3::MAX_TRIES;
use vstd::prelude::*;
use vstd::std_specs::ops::DivSpec;
use vstd::std_specs::ops::MulSpec;

verus! {

/// A thin-lens camera. The fields are derived once from the configuration.
#[derive(Clone, Copy, Debug, PartialEq, Eq, Structural)]
pub struct Camera {
    /// The centre of the lens.
    pub origin: Point3,
    /// The lower left corner of the viewport in the plane of focus.
    pub lower_left_corner: Point3,
    /// The viewport's extent to the right.
    pub horizontal: Vec3,
    /// The viewport's extent upward.
    pub vertical: Vec3,
    /// The unit vector to the right.
    pub u: Vec3,
    /// The unit vector upward.
    pub v: Vec3,
    /// The unit vector against the direction of view.
    pub w: Vec3,
    /// The radius of the lens.
    pub lens_radius: Fixed,
}

impl Camera {
    /// The camera that the configuration describes.
    pub open spec fn new_spec(
        look_from: Point3,
        look_at: Point3,
        view_up: Vec3,
        half_height: Fixed,
        aspect_ratio: Fixed,
        aperture: Fixed,
        focus_distance: Fixed,
    ) -> Camera {
        let w = look_from.minus(look_at).unit_vector_spec();
        let u = view_up.cross_spec(w).unit_vector_spec();
        let v = w.cross_spec(u);
        let viewport_height = Fixed::int_spec(2).mul_spec(half_height);
        let viewport_width = aspect_ratio.mul_spec(viewport_height);
        let horizontal = u.scaled(focus_distance.mul_spec(viewport_width));
        let vertical = v.scaled(focus_distance.mul_spec(viewport_height));
        Camera {
            origin: look_from,
            lower_left_corner: look_from.minus(horizontal.divided(Fixed::int_spec(2))).minus(
                vertical.divided(Fixed::int_spec(2)),
            ).minus(w.scaled(focus_distance)),
            horizontal,
            vertical,
            u,
            v,
            w,
            lens_radius: aperture.div_spec(Fixed::int_spec(2)),
        }
    }

    /// A camera at `look_from` that looks at `look_at`, with `view_up`
    /// upward in the image. `half_height` is the tangent of half the vertical
    /// field of view, `aspect_ratio` the width of the image over its height,
    /// `aperture` the diameter of the lens, and `focus_distance` the distance
    /// of the plane that is in focus.
    pub fn new(
        look_from: Point3,
        look_at: Point3,
        view_up: Vec3,
        half_height: Fixed,
        aspect_ratio: Fixed,
        aperture: Fixed,
        focus_distance: Fixed,
    ) -> (r: Camera)
        ensures
            r == Camera::new_spec(
                look_from,
                look_at,
                view_up,
                half_height,
                aspect_ratio,
                aperture,
                focus_distance,
            ),
    {
        let w = (look_from - look_at).unit_vector();
        let u = view_up.cross(w).unit_vector();
        let v = w.cross(u);
        let viewport_height = Fixed::from_int(2) * half_height;
        let viewport_width = aspect_ratio * viewport_height;
        let horizontal = (focus_distance * viewport_width) * u;
        let vertical = (focus_distance * viewport_height) * v;
        let two = Fixed::from_int(2);
        Camera {
            origin: look_from,
            lower_left_corner: look_from - horizontal / two - vertical / two - focus_distance * w,
            horizontal,
            vertical,
            u,
            v,
            w,
            lens_radius: aperture / two,
        }
    }

    /// What is wrong with the camera, if anything: it looks from the point
    /// that it looks at, or its upward direction lies along its view (or is
    /// zero), so that one of the vectors of its basis is zero and rays would
    /// have no direction.
    pub open spec fn fault(self) -> Option<ConfigError> {
        if self.u == Vec3::zero_spec() || self.v == Vec3::zero_spec() || self.w
            == Vec3::zero_spec() {
            Some(ConfigError::CameraDegenerate)
        } else {
            None
        }
    }

    /// Checks that the camera has a basis.
    pub fn check(&self) -> (r: Result<(), ConfigError>)
        ensures
            reports(r, self.fault()),
    {
        let zero = Vec3::zero();
        if self.u == zero || self.v == zero || self.w == zero {
            Err(ConfigError::CameraDegenerate)
        } else {
            Ok(())
        }
    }

    /// The ray from the point of the lens that `lens_sample` picks to the
    /// point `(s, t)` of the viewport.
    pub open spec fn ray_from_lens_spec(self, s: Fixed, t: Fixed, lens_sample: Vec3) -> Ray {
        let rd = lens_sample.scaled(self.lens_radius);
        let offset = self.u.scaled(rd.x).plus(self.v.scaled(rd.y));
        Ray {
            origin: self.origin.plus(offset),
            direction: self.lower_left_corner.plus(self.horizontal.scaled(s)).plus(
                self.vertical.scaled(t),
            ).minus(self.origin).minus(offset),
        }
    }

    /// The ray through the point `(s, t)` of the viewport, where both run
    /// from zero at the lower left to one at the upper right, that starts at
    /// the point of the lens which `lens_sample`, a vector in the unit disk,
    /// picks.
    pub fn ray_from_lens(&self, s: Fixed, t: Fixed, lens_sample: Vec3) -> (r: Ray)
        ensures
            r == self.ray_from_lens_spec(s, t, lens_sample),
    {
        let rd = self.lens_radius * lens_sample;
        let offset = rd.x * self.u + rd.y * self.v;
        Ray::new(
            self.origin + offset,
            self.lower_left_corner + s * self.horizontal + t * self.vertical - self.origin
                - offset,
        )
    }

    /// Whether `ray` can be the ray through `(s, t)`: it starts somewhere on
    /// the lens.
    pub open spec fn may_cast(self, s: Fixed, t: Fixed, ray: Ray) -> bool {
        exists|lens_sample: Vec3|
            lens_sample.in_unit_disk() && ray == #[trigger] self.ray_from_lens_spec(
                s,
                t,
                lens_sample,
            )
    }

    /// What `get_ray` gives with a replaying sampler, and the sampler
    /// afterwards.
    pub open spec fn get_ray_replayed(self, s: Fixed, t: Fixed, rng: Sampler) -> (Ray, Sampler) {
        let (lens_sample, next) = Vec3::random_in_unit_disk_replayed(rng, MAX_TRIES as nat);
        (self.ray_from_lens_spec(s, t, lens_sample), next)
    }

    /// A ray through the point `(s, t)` of the viewport from a random point
    /// of the lens, which blurs what is out of focus.
    pub fn get_ray(&self, s: Fixed, t: Fixed, rng: &mut Sampler) -> (r: Ray)
        ensures
            self.may_cast(s, t, r),
            old(rng).replays() ==> (r, *final(rng)) == self.get_ray_replayed(s, t, *old(rng)),
            old(rng).replays() == final(rng).replays(),
    {
        let lens_sample = Vec3::random_in_unit_disk(rng);
        self.ray_from_lens(s, t, lens_sample)
    }
}

} // verus!
