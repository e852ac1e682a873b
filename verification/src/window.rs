use vstd::prelude::*;
use core::ops::{Add, Mul, Sub};
use vstd::std_specs::ops::MulSpec;
use crate::scalar::{exact_arithmetic, total_arithmetic};

verus! {

/// The buffer in which both scalars of sample `i` are multiplied by
/// coefficient `i` of the window.
pub open spec fn windowed<T>(buf: Seq<T>, window: Seq<T>) -> Seq<T> where
    T: Add<Output = T> + Sub<Output = T> + Mul<Output = T>,
 {
    Seq::new(buf.len(), |p: int| buf[p].mul_spec(window[p / 2]))
}

/// The window as a buffer: both scalars of sample `i` are coefficient `i`.
pub open spec fn window_buffer<T>(window: Seq<T>) -> Seq<T> {
    Seq::new(2 * window.len(), |p: int| window[p / 2])
}

/// Windowing a buffer of ones gives the window itself: where every scalar
/// of the buffer is `one`, and `one` times any scalar is that scalar, each
/// sample of the result holds its window coefficient, exactly.
pub proof fn lemma_window_of_ones<T>(buf: Seq<T>, window: Seq<T>, one: T) where
    T: Add<Output = T> + Sub<Output = T> + Mul<Output = T>,

    requires
        buf.len() == 2 * window.len(),
        forall|p: int| 0 <= p < buf.len() ==> buf[p] == one,
        forall|w: T| #[trigger] one.mul_spec(w) == w,
    ensures
        windowed(buf, window) == window_buffer(window),
{
    assert(windowed(buf, window) =~= window_buffer(window));
}

/// Scales every sample of an interleaved buffer by its window coefficient,
/// in place.
pub(crate) fn scale_by_window<T>(buffer: &mut Vec<T>, window: &Vec<T>) where
    T: Copy + Add<Output = T> + Sub<Output = T> + Mul<Output = T>,

    requires
        total_arithmetic::<T>(),
        old(buffer).len() == 2 * window.len(),
    ensures
        final(buffer).len() == old(buffer).len(),
        exact_arithmetic::<T>() ==> final(buffer)@ == windowed(old(buffer)@, window@),
{
    let ghost orig = buffer@;
    let size = window.len();
    let mut i: usize = 0;
    while i < size
        invariant
            total_arithmetic::<T>(),
            size == window.len(),
            buffer.len() == 2 * size,
            orig.len() == 2 * size,
            i <= size,
            exact_arithmetic::<T>() ==> forall|p: int|
                0 <= p < 2 * size ==> #[trigger] buffer@[p] == if p < 2 * i {
                    orig[p].mul_spec(window@[p / 2])
                } else {
                    orig[p]
                },
        decreases size - i,
    {
        let window_coeff = window[i];
        let re = buffer[i * 2];
        let im = buffer[i * 2 + 1];
        buffer[i * 2] = re * window_coeff;
        buffer[i * 2 + 1] = im * window_coeff;
        i += 1;
    }
    proof {
        if exact_arithmetic::<T>() {
            assert(buffer@ =~= windowed(orig, window@));
        }
    }
}

} // verus!
