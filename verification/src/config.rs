//! What a rendering is configured with, and what makes a configuration
//! invalid.

use vstd::prelude::*;

verus! {

/// Why a configuration is refused.
#[derive(Clone, Copy, Debug, PartialEq, Eq, Structural)]
pub enum ConfigError {
    /// The image has no pixels: its width or its height is not positive.
    EmptyImage,
    /// The number of samples per pixel is not positive.
    NoSamples,
    /// The number of bounces is not positive.
    NoDepth,
    /// The camera has no direction of view, or no upward direction across
    /// it: one of the vectors of its basis is zero.
    CameraDegenerate,
    /// A sphere has a radius that is not positive.
    RadiusNotPositive,
    /// A metal has a fuzz outside the interval from zero to one.
    FuzzOutOfRange,
    /// A dielectric has a refractive index that is not positive.
    IndexNotPositive,
}

/// Whether the outcome `r` of a check reports exactly the fault `fault`.
pub open spec fn reports(r: Result<(), ConfigError>, fault: Option<ConfigError>) -> bool {
    match r {
        Ok(_) => fault is None,
        Err(error) => fault == Some(error),
    }
}

/// The size of the image and the effort spent on each pixel.
#[derive(Clone, Copy, Debug, PartialEq, Eq, Structural)]
pub struct Settings {
    /// The number of pixels in a row.
    pub image_width: i32,
    /// The number of rows.
    pub image_height: i32,
    /// The number of rays that are averaged for one pixel.
    pub samples_per_pixel: i32,
    /// The number of bounces after which a ray is given up.
    pub max_depth: i32,
}

impl Settings {
    /// What is wrong with the first of the settings that is not positive, if
    /// one is not.
    pub open spec fn fault(self) -> Option<ConfigError> {
        if self.image_width <= 0 || self.image_height <= 0 {
            Some(ConfigError::EmptyImage)
        } else if self.samples_per_pixel <= 0 {
            Some(ConfigError::NoSamples)
        } else if self.max_depth <= 0 {
            Some(ConfigError::NoDepth)
        } else {
            None
        }
    }

    /// Checks that the image is not empty and that the numbers of samples and
    /// of bounces are positive.
    pub fn check(&self) -> (r: Result<(), ConfigError>)
        ensures
            reports(r, self.fault()),
    {
        if self.image_width <= 0 || self.image_height <= 0 {
            Err(ConfigError::EmptyImage)
        } else if self.samples_per_pixel <= 0 {
            Err(ConfigError::NoSamples)
        } else if self.max_depth <= 0 {
            Err(ConfigError::NoDepth)
        } else {
            Ok(())
        }
    }
}

} // verus!
