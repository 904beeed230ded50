//! A Monte Carlo ray tracer for scenes of spheres, over fixed-point
//! arithmetic.
//!
//! Every number is a [`fixed::Fixed`], a signed fixed-point number with 32
//! fractional bits whose operations round toward zero and saturate. Nothing
//! depends on the floating-point unit of the machine, so each function has
//! one result for each input, and its contract states that result.
//!
//! The parts, from the leaves to the root:
//!
//! - [`fixed`], [`arithmetic`] and [`wide`]: the numbers, lemmas about
//!   them, and integers of 256 bits for what must not be rounded;
//! - [`vec3`], [`laws`] and [`accuracy`]: vectors, the laws of their algebra,
//!   and a bound on what rounding does to a unit vector;
//! - [`random`]: the stream of random words that sampling draws from, taken
//!   from the `rand` crate or replayed from a list;
//! - [`ray`], [`hittable`], [`sphere`], [`surface`] and [`hittable_list`]:
//!   rays, what they hit, and how near a hit lies to the surface;
//! - [`material`] and [`refraction`]: how surfaces scatter light, and that
//!   a refracted direction stays one long;
//! - [`camera`]: from a position on the image to a ray;
//! - [`color`], [`config`], [`render`] and [`radiance`]: the integrator, the
//!   loop that writes the image as a plain pixmap, and that the light stays
//!   in range.
//!
//! What depends on chance is specified twice: by what holds of every draw,
//! and exactly for a sampler that replays given words.
//!
//! Lengths and intersections are rounded once: the length of a vector is
//! the root of the exact sum of its squares, and the parameters of a hit
//! are computed from exact coefficients. So a vector of any length that is
//! not zero has a unit vector, and a sphere of any radius has unit normals,
//! up to the tolerances that [`accuracy`] and [`surface`] prove. Reflection
//! and refraction keep a unit vector one long, up to the tolerances that
//! [`laws`] and [`refraction`] prove.

// The two arithmetic modules come first: all others build on their operators.
pub mod fixed;
pub mod vec3;
pub mod wide;
pub mod accuracy;
pub mod arithmetic;
pub mod camera;
pub mod color;
pub mod config;
pub mod hittable;
pub mod hittable_list;
pub mod laws;
pub mod material;
pub mod radiance;
pub mod random;
pub mod refraction;
pub mod ray;
pub mod render;
pub mod sphere;
pub mod surface;
