//! Stochastic room impulse responses from perceptual parameters.
//!
//! The library holds the discrete side of the synthesis: how many samples a
//! duration spans, where the direct sound and the early reflections lie in a
//! shaped buffer, how the initial time delay gap is cut, how reflections are
//! thinned out, and when thinning stops. Samples are held as levels: the bit
//! pattern of a non-negative single-precision energy, which orders as the
//! energy does and is zero exactly for a silent sample.

pub mod timing;
pub mod levels;
pub mod random;
pub mod thinning;
pub mod improved;

pub use timing::SampleCounts;
pub use improved::{ConfigurationError, ImpulseResponseImproved, ImpulseResponseView, WindowIndices};
pub use thinning::{Rate, ThinStep};
