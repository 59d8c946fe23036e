//! The decision core of a small Monte Carlo path tracer.
//!
//! Everything here works on integers: image coordinates, byte offsets,
//! bounce counts, and the bit patterns of IEEE-754 doubles. The caller does
//! the floating-point arithmetic and hands its results over as [`Real`]
//! values; every comparison, selection and index computation of the
//! renderer is made here.

pub mod framebuffer;
pub mod geometry;
pub mod integrator;
pub mod material;
pub mod math;
pub mod render;

pub use framebuffer::{assemble, Framebuffer};
pub use geometry::{intersect, Roots};
pub use material::MaterialType;
pub use math::{clamp, Real};
