//! A fixed-size, in-place, radix-2 fast Fourier transform on interleaved
//! real/imaginary buffers, with a window step.
//!
//! The engine is generic over the scalar type of its samples. Validation,
//! index arithmetic and the order of every arithmetic operation are
//! verified; what an operation computes is taken from the operator
//! specifications of the scalar type.
//!
//! - [`engine`]: the engine and its operations.
//! - [`size`], [`error`]: which sizes are accepted, and what is reported.
//! - [`bit_reverse`], [`butterfly`], [`window`]: the phases of the
//!   transform and the window, each with its statement on sequences.
//! - [`split`]: the transform stated by splitting into even and odd
//!   samples, and the proof that the engine computes it.
//! - [`ring`], [`linearity`], [`energy`]: what holds of the transform where
//!   the scalar type is a ring.

pub mod error;
pub mod size;
pub mod scalar;
pub mod bit_reverse;
pub mod butterfly;
pub mod split;
pub mod ring;
pub mod linearity;
pub mod energy;
pub mod window;
pub mod engine;

pub use engine::FFTProcessor;
pub use error::{FftError, SizeConstraint};
pub use size::MAX_FFT_SIZE;
