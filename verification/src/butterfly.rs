use vstd::prelude::*;
use core::ops::{Add, Mul, Sub};
use num_complex::Complex;
use vstd::arithmetic::div_mod::lemma_fundamental_div_mod_converse;
use vstd::arithmetic::power2::pow2;
use vstd::std_specs::ops::{AddSpec, SubSpec};
use crate::bit_reverse::bit_reversed;
use crate::scalar::{exact_arithmetic, rotated_im, rotated_re, total_arithmetic};
use crate::size::{
    lemma_power_of_two_divides, lemma_power_of_two_halves, power_of_two, MAX_FFT_SIZE,
};

verus! {

/// Entry `p` of the buffer after the stage whose groups span `step` scalars.
///
/// A group holds `step / 2` samples. Sample `j` of its lower half is combined
/// with sample `j` of its upper half, which is first multiplied by the table
/// entry `j * (n / step)`, `n` being the length of the table: the lower sample
/// becomes their sum, the upper sample their difference. A stage of two
/// scalars per group holds one sample per group and changes nothing.
pub open spec fn stage_entry<T>(buf: Seq<T>, tw: Seq<Complex<T>>, step: int, p: int) -> T where
    T: Add<Output = T> + Sub<Output = T> + Mul<Output = T>,
 {
    let half = step / 2;
    let off = p % step;
    let j = (off % half) / 2;
    let lo = p - off + 2 * j;
    let hi = lo + half;
    let w = tw[j * (tw.len() as int / step)];
    let t_re = rotated_re(buf[hi], buf[hi + 1], w);
    let t_im = rotated_im(buf[hi], buf[hi + 1], w);
    if step < 4 {
        buf[p]
    } else if off < half {
        if p % 2 == 0 {
            buf[lo].add_spec(t_re)
        } else {
            buf[lo + 1].add_spec(t_im)
        }
    } else {
        if p % 2 == 0 {
            buf[lo].sub_spec(t_re)
        } else {
            buf[lo + 1].sub_spec(t_im)
        }
    }
}

/// The buffer after the stage whose groups span `step` scalars.
pub open spec fn stage<T>(buf: Seq<T>, tw: Seq<Complex<T>>, step: int) -> Seq<T> where
    T: Add<Output = T> + Sub<Output = T> + Mul<Output = T>,
 {
    Seq::new(buf.len(), |p: int| stage_entry(buf, tw, step, p))
}

/// The buffer after the stages `step`, `2 * step`, ... up to the stage whose
/// single group spans the whole buffer.
pub open spec fn stages_from<T>(buf: Seq<T>, tw: Seq<Complex<T>>, step: int) -> Seq<T> where
    T: Add<Output = T> + Sub<Output = T> + Mul<Output = T>,

    decreases 4 * tw.len() - step,
{
    if step < 2 || step > 2 * tw.len() {
        buf
    } else {
        stages_from(stage(buf, tw, step), tw, 2 * step)
    }
}

/// The transform of `buf` with the table `tw`: the bit-reversal permutation
/// followed by every stage, from two scalars per group upwards.
pub open spec fn transformed<T>(buf: Seq<T>, tw: Seq<Complex<T>>) -> Seq<T> where
    T: Add<Output = T> + Sub<Output = T> + Mul<Output = T>,
 {
    stages_from(bit_reversed(buf, tw.len()), tw, 2)
}

/// The buffer in the middle of a stage: the groups that start below `g` are
/// done, and so are the first `j` butterflies of the group that starts at `g`.
pub open spec fn partly_staged<T>(
    buf: Seq<T>,
    tw: Seq<Complex<T>>,
    step: int,
    g: int,
    j: int,
) -> Seq<T> where T: Add<Output = T> + Sub<Output = T> + Mul<Output = T> {
    Seq::new(
        buf.len(),
        |p: int|
            if p < g || (g <= p < g + 2 * j) || (g + step / 2 <= p < g + step / 2 + 2 * j) {
                stage_entry(buf, tw, step, p)
            } else {
                buf[p]
            },
    )
}

/// Entry `r` of group `k` of a stage, read off the group: the butterfly it
/// belongs to, and whether it is the sum or the difference. The four scalars
/// of a butterfly lie inside its group.
pub proof fn lemma_stage_entry_in_group<T>(
    buf: Seq<T>,
    tw: Seq<Complex<T>>,
    step: int,
    k: int,
    r: int,
) where T: Add<Output = T> + Sub<Output = T> + Mul<Output = T>
    requires
        step >= 4,
        step % 4 == 0,
        k >= 0,
        0 <= r < step,
    ensures
        ({
            let half = step / 2;
            let j = (if r < half {
                r
            } else {
                r - half
            }) / 2;
            let lo = k * step + 2 * j;
            let hi = lo + half;
            let w = tw[j * (tw.len() as int / step)];
            let t_re = rotated_re(buf[hi], buf[hi + 1], w);
            let t_im = rotated_im(buf[hi], buf[hi + 1], w);
            &&& 0 <= j < step / 4
            &&& stage_entry(buf, tw, step, k * step + r) == if r < half {
                if r % 2 == 0 {
                    buf[lo].add_spec(t_re)
                } else {
                    buf[lo + 1].add_spec(t_im)
                }
            } else {
                if r % 2 == 0 {
                    buf[lo].sub_spec(t_re)
                } else {
                    buf[lo + 1].sub_spec(t_im)
                }
            }
        }),
{
    let half = step / 2;
    let g = k * step;
    assert(g == 2 * (k * half)) by (nonlinear_arith)
        requires
            g == k * step,
            step == 2 * half,
    ;
    lemma_fundamental_div_mod_converse(g + r, step, k, r);
    if r < half {
        lemma_fundamental_div_mod_converse(r, half, 0, r);
    } else {
        lemma_fundamental_div_mod_converse(r, half, 1, r - half);
    }
}

/// The table entry of every butterfly of a stage exists.
pub proof fn lemma_twiddle_index(size: int, step: int, j: int)
    requires
        size >= 1,
        step >= 2,
        0 <= j < step,
    ensures
        0 <= j * (size / step) < size,
{
    let stride = size / step;
    vstd::arithmetic::div_mod::lemma_fundamental_div_mod(size, step);
    assert(0 <= stride);
    assert(step * stride <= size);
    assert(0 <= j * stride < size) by (nonlinear_arith)
        requires
            0 <= j < step,
            0 <= stride,
            step * stride <= size,
            size >= 1,
    ;
}

/// Runs one stage in place, group by group and butterfly by butterfly. Both
/// scalars of the lower sample are read before either is overwritten.
pub(crate) fn run_stage<T>(buffer: &mut Vec<T>, twiddles: &Vec<Complex<T>>, step: usize) where
    T: Copy + Add<Output = T> + Sub<Output = T> + Mul<Output = T>,

    requires
        total_arithmetic::<T>(),
        power_of_two(twiddles.len() as nat),
        twiddles.len() <= MAX_FFT_SIZE,
        power_of_two(step as nat),
        2 <= step <= 2 * twiddles.len(),
        old(buffer).len() == 2 * twiddles.len(),
    ensures
        final(buffer).len() == old(buffer).len(),
        exact_arithmetic::<T>() ==> final(buffer)@ == stage(old(buffer)@, twiddles@, step as int),
{
    let ghost orig = buffer@;
    let ghost tw = twiddles@;
    let size = twiddles.len();
    let total = size * 2;
    let half_step = step / 2;
    let stride = size / step;
    let ghost groups: nat;
    let ghost mut k: int = 0;
    proof {
        crate::size::lemma_power_of_two_doubles(size as nat);
        groups = lemma_power_of_two_divides(step as nat, (2 * size) as nat);
        lemma_power_of_two_halves(step as nat);
        if step >= 4 {
            lemma_power_of_two_halves((step / 2) as nat);
        }
        assert(buffer@ =~= partly_staged(orig, tw, step as int, 0, 0));
    }
    let mut g: usize = 0;
    while g < total
        invariant
            total_arithmetic::<T>(),
            tw == twiddles@,
            size == twiddles.len(),
            size >= 1,
            size <= MAX_FFT_SIZE,
            total == 2 * size,
            buffer.len() == total,
            orig.len() == total,
            2 <= step <= total,
            step % 2 == 0,
            step >= 4 ==> step % 4 == 0,
            half_step == step / 2,
            stride == size / step,
            groups * step == total,
            0 <= k <= groups,
            g == k * step,
            exact_arithmetic::<T>() ==> buffer@ == partly_staged(orig, tw, step as int, g as int, 0),
        decreases groups - k,
    {
        proof {
            assert(k < groups) by (nonlinear_arith)
                requires
                    k * step < groups * step,
                    step >= 2,
            ;
            assert((k + 1) * step <= groups * step) by (nonlinear_arith)
                requires
                    k + 1 <= groups,
                    step >= 2,
            ;
            assert((k + 1) * step == k * step + step) by (nonlinear_arith);
        }
        let mut j: usize = 0;
        while j < half_step / 2
            invariant
                total_arithmetic::<T>(),
                tw == twiddles@,
                size == twiddles.len(),
                size >= 1,
                total == 2 * size,
                buffer.len() == total,
                orig.len() == total,
                2 <= step <= total,
                step >= 4 ==> step % 4 == 0,
                half_step == step / 2,
                stride == size / step,
                k >= 0,
                g == k * step,
                g + step <= total,
                0 <= j <= half_step / 2,
                exact_arithmetic::<T>() ==> buffer@ == partly_staged(
                    orig,
                    tw,
                    step as int,
                    g as int,
                    j as int,
                ),
            decreases half_step / 2 - j,
        {
            proof {
                lemma_twiddle_index(size as int, step as int, j as int);
                let h = half_step as int;
                lemma_stage_entry_in_group(orig, tw, step as int, k, 2 * j);
                lemma_stage_entry_in_group(orig, tw, step as int, k, 2 * j + 1);
                lemma_stage_entry_in_group(orig, tw, step as int, k, h + 2 * j);
                lemma_stage_entry_in_group(orig, tw, step as int, k, h + 2 * j + 1);
            }
            let w = twiddles[j * stride];
            let idx1 = g + j * 2;
            let idx2 = idx1 + half_step;
            let ghost before = buffer@;

            let temp_real = buffer[idx2] * w.re - buffer[idx2 + 1] * w.im;
            let temp_imag = buffer[idx2] * w.im + buffer[idx2 + 1] * w.re;

            let old_real1 = buffer[idx1];
            let old_imag1 = buffer[idx1 + 1];
            buffer[idx2] = old_real1 - temp_real;
            buffer[idx2 + 1] = old_imag1 - temp_imag;
            buffer[idx1] = old_real1 + temp_real;
            buffer[idx1 + 1] = old_imag1 + temp_imag;
            j += 1;
            proof {
                if exact_arithmetic::<T>() {
                    assert(before[idx1 as int] == orig[idx1 as int]);
                    assert(before[idx1 + 1] == orig[idx1 + 1]);
                    assert(before[idx2 as int] == orig[idx2 as int]);
                    assert(before[idx2 + 1] == orig[idx2 + 1]);
                    assert(buffer@ =~= partly_staged(orig, tw, step as int, g as int, j as int));
                }
            }
        }
        proof {
            if exact_arithmetic::<T>() {
                assert(buffer@ =~= partly_staged(orig, tw, step as int, g + step, 0));
            }
            k = k + 1;
        }
        g += step;
    }
    proof {
        assert(k == groups) by (nonlinear_arith)
            requires
                k * step >= groups * step,
                k <= groups,
                step >= 2,
        ;
        if exact_arithmetic::<T>() {
            assert(buffer@ =~= stage(orig, tw, step as int));
        }
    }
}

/// Runs every stage in place on a buffer that is already in bit-reversed
/// order.
pub(crate) fn run_stages<T>(buffer: &mut Vec<T>, twiddles: &Vec<Complex<T>>) where
    T: Copy + Add<Output = T> + Sub<Output = T> + Mul<Output = T>,

    requires
        total_arithmetic::<T>(),
        power_of_two(twiddles.len() as nat),
        twiddles.len() <= MAX_FFT_SIZE,
        old(buffer).len() == 2 * twiddles.len(),
    ensures
        final(buffer).len() == old(buffer).len(),
        exact_arithmetic::<T>() ==> final(buffer)@ == stages_from(old(buffer)@, twiddles@, 2),
{
    let ghost orig = buffer@;
    let size = twiddles.len();
    let mut step: usize = 2;
    proof {
        crate::size::lemma_power_of_two_positive(size as nat);
        vstd::arithmetic::power2::lemma2_to64();
        assert(2 == pow2(1));
    }
    while step <= size * 2
        invariant
            total_arithmetic::<T>(),
            size == twiddles.len(),
            power_of_two(size as nat),
            1 <= size <= MAX_FFT_SIZE,
            power_of_two(step as nat),
            2 <= step <= 4 * size,
            buffer.len() == 2 * size,
            exact_arithmetic::<T>() ==> stages_from(buffer@, twiddles@, step as int) == stages_from(
                orig,
                twiddles@,
                2,
            ),
        decreases 4 * size - step,
    {
        run_stage(buffer, twiddles, step);
        proof {
            crate::size::lemma_power_of_two_doubles(step as nat);
        }
        step *= 2;
    }
}

} // verus!
