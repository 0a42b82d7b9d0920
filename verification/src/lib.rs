//! Exact-arithmetic core of a planar N-body gravity simulation.
//!
//! A fixed set of point masses attracts one another pairwise; each discrete
//! step runs three stages in order — force accumulation, velocity
//! integration, position integration (semi-implicit Euler) — over an owned
//! list of bodies.  All state is kept as exact rational numbers, so a step
//! either completes with exactly the values the scheme defines or reports
//! that a magnitude left the representable range; there is no rounding, no
//! infinity and no hidden nondeterminism.

pub mod laws;
pub mod model;
pub mod rational;
pub mod sim;
pub mod vec2;
