//! Index arithmetic for a closed ring of point masses.
//!
//! A soft body is simulated as `N` vertices joined in a cycle. Every force on
//! a vertex is computed from a handful of its neighbours along that cycle, so
//! the simulation is only as sound as the arithmetic that turns "the vertex
//! two places behind vertex 0" into a position in the vertex buffer. This
//! crate holds that arithmetic, proved free of overflow and out-of-range
//! results.

pub mod layout;
pub mod ring;
pub mod wrap;
