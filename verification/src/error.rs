use vstd::prelude::*;

verus! {

/// The constraint on the transform size that a rejected size violates.
#[derive(Clone, Copy, Debug, PartialEq, Eq, Structural)]
pub enum SizeConstraint {
    /// The size must be a power of two.
    PowerOfTwo,
    /// The size must not exceed [`crate::size::MAX_FFT_SIZE`].
    UpperBound,
}

/// Why an operation of the engine was refused. A refused operation has
/// changed nothing.
#[derive(Clone, Copy, Debug, PartialEq, Eq, Structural)]
pub enum FftError {
    /// The requested transform size was rejected at construction.
    InvalidSize { constraint: SizeConstraint, size: usize },
    /// A buffer did not hold exactly two scalars per sample.
    BufferLengthMismatch { expected: usize, actual: usize },
}

} // verus!
