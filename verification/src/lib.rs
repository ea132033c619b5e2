//! Stack blur: a separable triangular-kernel approximation of a Gaussian
//! blur over raw 8-bit pixel buffers, computed with an O(1)-per-pixel
//! sliding window and an integer multiply-shift in place of division.
//!
//! A `radius` is the kernel half-width: each output sample averages the
//! `2 * radius + 1` samples around it, weighted `1, 2, .., radius + 1,
//! .., 2, 1`, with taps past an edge clamped to the edge sample. Radius
//! zero is the identity.

pub mod direct;
pub mod grid;
pub mod laws;
pub mod model;
pub mod passes;
pub mod recip;
pub mod sums;
pub mod window;

pub use passes::blur;
pub use passes::blur_partitioned;
pub use passes::Channels;
pub use direct::unoptimized_blur;
pub use direct::unoptimized_blur_2;
