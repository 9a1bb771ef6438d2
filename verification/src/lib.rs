//! A small Whitted-style ray tracer over verified fixed-point arithmetic.
//!
//! Geometry, the closest-hit scene query, shading and the recursive
//! illumination integrator all live here, each proved equal to a
//! specification-level mirror; an unverified front end turns the resulting
//! color grid into an image file.

pub mod fixed;
pub mod geom;
pub mod scene;
pub mod trace;
pub mod vec3;
