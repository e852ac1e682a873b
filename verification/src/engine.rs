use vstd::prelude::*;
use core::ops::{Add, Mul, Sub};
use num_complex::Complex;
use crate::bit_reverse::{bit_reversed, permute};
use crate::butterfly::{run_stages, transformed};
use crate::error::FftError;
use crate::scalar::{exact_arithmetic, total_arithmetic};
use crate::size::{check_size, size_error, valid_size};
use crate::split::{lemma_transformed_is_split_transform, split_transform};
use crate::window::{scale_by_window, windowed};

verus! {

/// A transform engine for buffers of a fixed number of samples.
///
/// The engine owns two tables that are filled once, at construction, and
/// never change: one rotation factor and one window coefficient per sample
/// index. A buffer belongs to its caller and is borrowed for one call.
#[verifier::reject_recursive_types(T)]
pub struct FFTProcessor<T> {
    size: usize,
    twiddle_factors: Vec<Complex<T>>,
    window: Vec<T>,
}

/// What an engine is to its contracts: its size and its two tables.
#[verifier::reject_recursive_types(T)]
pub ghost struct EngineView<T> {
    pub size: nat,
    pub twiddle_factors: Seq<Complex<T>>,
    pub window: Seq<T>,
}

impl<T> EngineView<T> {
    /// The size is a valid one and both tables have one entry per sample.
    pub open spec fn valid(self) -> bool {
        &&& valid_size(self.size)
        &&& self.twiddle_factors.len() == self.size
        &&& self.window.len() == self.size
    }
}

impl<T> View for FFTProcessor<T> {
    type V = EngineView<T>;

    closed spec fn view(&self) -> EngineView<T> {
        EngineView {
            size: self.size as nat,
            twiddle_factors: self.twiddle_factors@,
            window: self.window@,
        }
    }
}

/// The error that an operation reports for a buffer of `actual` scalars when
/// the engine holds `size` samples.
pub open spec fn length_error(size: nat, actual: usize) -> FftError {
    FftError::BufferLengthMismatch { expected: (2 * size) as usize, actual }
}

/// Builds the table whose entry `k` is `entry(k, size)`.
fn tabulate<U, F: Fn(usize, usize) -> U>(size: usize, entry: &F) -> (table: Vec<U>)
    requires
        forall|k: usize| k < size ==> call_requires(*entry, (k, size)),
    ensures
        table.len() == size,
        forall|k: usize| k < size ==> call_ensures(*entry, (k, size), #[trigger] table[k as int]),
{
    let mut table: Vec<U> = Vec::with_capacity(size);
    let mut k: usize = 0;
    while k < size
        invariant
            k <= size,
            table.len() == k,
            forall|i: usize| i < size ==> call_requires(*entry, (i, size)),
            forall|i: usize| i < k ==> call_ensures(*entry, (i, size), #[trigger] table[i as int]),
        decreases size - k,
    {
        let value = entry(k, size);
        table.push(value);
        k += 1;
    }
    table
}

impl<T> FFTProcessor<T> {
    #[verifier::type_invariant]
    spec fn well_formed(&self) -> bool {
        &&& valid_size(self.size as nat)
        &&& self.twiddle_factors.len() == self.size
        &&& self.window.len() == self.size
    }
}

impl<T: Copy> FFTProcessor<T> {
    /// Builds an engine for `size` samples.
    ///
    /// The size must be a power of two and must not exceed
    /// [`crate::size::MAX_FFT_SIZE`]; the power-of-two constraint is checked
    /// first. For a valid size, entry `k` of the rotation table is
    /// `unit_root(k, size)` and coefficient `k` of the window is
    /// `hann(k, size)`, each computed once, in order of `k`. For a size that
    /// is refused neither function is called.
    pub fn new<F, G>(size: usize, unit_root: F, hann: G) -> (r: Result<Self, FftError>) where
        F: Fn(usize, usize) -> Complex<T>,
        G: Fn(usize, usize) -> T,

        requires
            valid_size(size as nat) ==> forall|k: usize|
                k < size ==> call_requires(unit_root, (k, size)),
            valid_size(size as nat) ==> forall|k: usize| k < size ==> call_requires(hann, (k, size)),
        ensures
            r is Ok <==> valid_size(size as nat),
            r matches Ok(engine) ==> {
                &&& engine@.valid()
                &&& engine@.size == size
                &&& forall|k: usize|
                    k < size ==> call_ensures(
                        unit_root,
                        (k, size),
                        #[trigger] engine@.twiddle_factors[k as int],
                    )
                &&& forall|k: usize|
                    k < size ==> call_ensures(hann, (k, size), #[trigger] engine@.window[k as int])
            },
            r matches Err(e) ==> e == size_error(size),
    {
        match check_size(size) {
            Err(e) => Err(e),
            Ok(()) => {
                let twiddle_factors = tabulate(size, &unit_root);
                let window = tabulate(size, &hann);
                Ok(FFTProcessor { size, twiddle_factors, window })
            },
        }
    }

    /// The number of samples per buffer.
    pub fn get_size(&self) -> (size: usize)
        ensures
            size == self@.size,
            self@.valid(),
    {
        proof {
            use_type_invariant(self);
        }
        self.size
    }

    /// Reorders the samples of `buffer` into bit-reversed index order: the
    /// first phase of the transform, on its own.
    pub fn bit_reverse_permute(&self, buffer: &mut Vec<T>) -> (r: Result<(), FftError>)
        ensures
            r is Ok <==> old(buffer).len() == 2 * self@.size,
            r is Ok ==> final(buffer)@ == bit_reversed(old(buffer)@, self@.size),
            r matches Err(e) ==> e == length_error(self@.size, old(buffer).len()) && final(buffer)@
                == old(buffer)@,
    {
        proof {
            use_type_invariant(self);
        }
        if buffer.len() != self.size * 2 {
            return Err(
                FftError::BufferLengthMismatch { expected: self.size * 2, actual: buffer.len() },
            );
        }
        permute(buffer, self.size);
        Ok(())
    }
}

impl<T> FFTProcessor<T> where T: Copy + Add<Output = T> + Sub<Output = T> + Mul<Output = T> {
    /// Multiplies both scalars of every sample by the window coefficient of
    /// its index, in place. Applying the window twice windows twice.
    pub fn apply_window(&self, buffer: &mut Vec<T>) -> (r: Result<(), FftError>)
        requires
            total_arithmetic::<T>(),
        ensures
            r is Ok <==> old(buffer).len() == 2 * self@.size,
            r is Ok ==> final(buffer).len() == old(buffer).len(),
            r is Ok && exact_arithmetic::<T>() ==> final(buffer)@ == windowed(
                old(buffer)@,
                self@.window,
            ),
            r matches Err(e) ==> e == length_error(self@.size, old(buffer).len()) && final(buffer)@
                == old(buffer)@,
    {
        proof {
            use_type_invariant(self);
        }
        if buffer.len() != self.size * 2 {
            return Err(
                FftError::BufferLengthMismatch { expected: self.size * 2, actual: buffer.len() },
            );
        }
        scale_by_window(buffer, &self.window);
        Ok(())
    }

    /// Transforms `buffer` in place: the bit-reversal permutation, then every
    /// butterfly stage. The result is in natural order and is not scaled. It
    /// is the transform stated by splitting into even and odd samples.
    pub fn apply_fft(&self, buffer: &mut Vec<T>) -> (r: Result<(), FftError>)
        requires
            total_arithmetic::<T>(),
        ensures
            r is Ok <==> old(buffer).len() == 2 * self@.size,
            r is Ok ==> final(buffer).len() == old(buffer).len(),
            r is Ok && exact_arithmetic::<T>() ==> final(buffer)@ == transformed(
                old(buffer)@,
                self@.twiddle_factors,
            ),
            r is Ok && exact_arithmetic::<T>() ==> final(buffer)@ == split_transform(
                old(buffer)@,
                self@.twiddle_factors,
            ),
            r matches Err(e) ==> e == length_error(self@.size, old(buffer).len()) && final(buffer)@
                == old(buffer)@,
    {
        proof {
            use_type_invariant(self);
        }
        if buffer.len() != self.size * 2 {
            return Err(
                FftError::BufferLengthMismatch { expected: self.size * 2, actual: buffer.len() },
            );
        }
        proof {
            lemma_transformed_is_split_transform(buffer@, self.twiddle_factors@);
        }
        permute(buffer, self.size);
        run_stages(buffer, &self.twiddle_factors);
        Ok(())
    }

    /// Windows and transforms a copy of `input`, which is left as it is.
    pub fn process_buffer(&self, input: &Vec<T>) -> (r: Result<Vec<T>, FftError>)
        requires
            total_arithmetic::<T>(),
        ensures
            r is Ok <==> input.len() == 2 * self@.size,
            r matches Ok(output) ==> {
                &&& output.len() == input.len()
                &&& exact_arithmetic::<T>() ==> output@ == transformed(
                    windowed(input@, self@.window),
                    self@.twiddle_factors,
                )
                &&& exact_arithmetic::<T>() ==> output@ == split_transform(
                    windowed(input@, self@.window),
                    self@.twiddle_factors,
                )
            },
            r matches Err(e) ==> e == length_error(self@.size, input.len()),
    {
        proof {
            use_type_invariant(self);
        }
        let input_length = input.len();
        if input_length != self.size * 2 {
            return Err(
                FftError::BufferLengthMismatch { expected: self.size * 2, actual: input_length },
            );
        }
        let mut buffer: Vec<T> = Vec::with_capacity(input_length);
        let mut i: usize = 0;
        while i < input_length
            invariant
                input_length == input.len(),
                i <= input_length,
                buffer.len() == i,
                forall|p: int| 0 <= p < i ==> buffer@[p] == input@[p],
            decreases input_length - i,
        {
            buffer.push(input[i]);
            i += 1;
        }
        assert(buffer@ =~= input@);
        scale_by_window(&mut buffer, &self.window);
        proof {
            lemma_transformed_is_split_transform(buffer@, self.twiddle_factors@);
        }
        permute(&mut buffer, self.size);
        run_stages(&mut buffer, &self.twiddle_factors);
        Ok(buffer)
    }
}

} // verus!
