use vstd::prelude::*;
use core::ops::{Add, Mul, Sub};
use num_complex::Complex;
use vstd::arithmetic::div_mod::{lemma_fundamental_div_mod, lemma_mod_bound};
use vstd::std_specs::ops::{AddSpec, SubSpec};
use crate::bit_reverse::{
    bit_reversed, lemma_reverse_index_bound, lemma_reverse_index_from_top, reverse_index,
};
use crate::butterfly::{lemma_stage_entry_in_group, stage, stages_from, transformed};
use crate::scalar::{rotated_im, rotated_re};
use crate::size::{
    lemma_power_of_two_divides, lemma_power_of_two_doubles, lemma_power_of_two_halves,
    lemma_power_of_two_positive, power_of_two,
};

verus! {

/// The samples of `x` with even index, in order.
pub open spec fn even_samples<T>(x: Seq<T>) -> Seq<T> {
    Seq::new((x.len() / 2) as nat, |p: int| x[4 * (p / 2) + p % 2])
}

/// The samples of `x` with odd index, in order.
pub open spec fn odd_samples<T>(x: Seq<T>) -> Seq<T> {
    Seq::new((x.len() / 2) as nat, |p: int| x[4 * (p / 2) + 2 + p % 2])
}

/// Two transforms of equal length combined into one of twice the length:
/// sample `j` of `o` is multiplied by entry `j * (n / step)` of the table,
/// where `step` is the number of scalars of the result; the sum with sample
/// `j` of `e` is sample `j` of the result, the difference is sample `j` of
/// its upper half.
pub open spec fn combined<T>(e: Seq<T>, o: Seq<T>, tw: Seq<Complex<T>>) -> Seq<T> where
    T: Add<Output = T> + Sub<Output = T> + Mul<Output = T>,
 {
    Seq::new(
        2 * e.len(),
        |p: int|
            {
                let half = e.len() as int;
                let j = (if p < half {
                    p
                } else {
                    p - half
                }) / 2;
                let w = tw[j * (tw.len() as int / (2 * half))];
                let t_re = rotated_re(o[2 * j], o[2 * j + 1], w);
                let t_im = rotated_im(o[2 * j], o[2 * j + 1], w);
                if p < half {
                    if p % 2 == 0 {
                        e[2 * j].add_spec(t_re)
                    } else {
                        e[2 * j + 1].add_spec(t_im)
                    }
                } else {
                    if p % 2 == 0 {
                        e[2 * j].sub_spec(t_re)
                    } else {
                        e[2 * j + 1].sub_spec(t_im)
                    }
                }
            },
    )
}

/// The transform stated by splitting: a single sample is its own transform;
/// a longer buffer is split into its even and its odd samples, the two
/// halves are transformed on their own, and the results are combined.
pub open spec fn split_transform<T>(x: Seq<T>, tw: Seq<Complex<T>>) -> Seq<T> where
    T: Add<Output = T> + Sub<Output = T> + Mul<Output = T>,

    decreases x.len(),
{
    if x.len() <= 2 {
        x
    } else {
        combined(split_transform(even_samples(x), tw), split_transform(odd_samples(x), tw), tw)
    }
}

/// The buffer after the stages from two scalars per group up to `top`
/// scalars per group.
pub open spec fn staged_upto<T>(buf: Seq<T>, tw: Seq<Complex<T>>, top: int) -> Seq<T> where
    T: Add<Output = T> + Sub<Output = T> + Mul<Output = T>,

    decreases top,
{
    if top < 2 {
        buf
    } else {
        stage(staged_upto(buf, tw, top / 2), tw, top)
    }
}

/// The transform stated by splitting keeps the length of a buffer of a
/// power-of-two number of samples.
pub proof fn lemma_split_transform_len<T>(x: Seq<T>, tw: Seq<Complex<T>>, m: nat) where
    T: Add<Output = T> + Sub<Output = T> + Mul<Output = T>,

    requires
        power_of_two(m),
        x.len() == 2 * m,
    ensures
        split_transform(x, tw).len() == x.len(),
    decreases m,
{
    if m > 1 {
        lemma_power_of_two_halves(m);
        lemma_split_transform_len(even_samples(x), tw, m / 2);
    }
}

/// A power of two from four upwards is a multiple of four.
proof fn lemma_multiple_of_four(step: nat)
    requires
        power_of_two(step),
        step >= 4,
    ensures
        step % 4 == 0,
{
    lemma_power_of_two_halves(step);
    lemma_power_of_two_halves(step / 2);
}

/// The stages keep the length of the buffer.
proof fn lemma_staged_upto_len<T>(buf: Seq<T>, tw: Seq<Complex<T>>, top: int) where
    T: Add<Output = T> + Sub<Output = T> + Mul<Output = T>,

    ensures
        staged_upto(buf, tw, top).len() == buf.len(),
    decreases top,
{
    if top >= 2 {
        lemma_staged_upto_len(buf, tw, top / 2);
    }
}

/// A stage works on each group by itself: where a buffer is cut between two
/// groups, the stage of the whole is the stage of the parts.
proof fn lemma_stage_concat<T>(a: Seq<T>, b: Seq<T>, tw: Seq<Complex<T>>, step: int, qa: int, qb: int) where
    T: Add<Output = T> + Sub<Output = T> + Mul<Output = T>,

    requires
        step >= 2,
        step >= 4 ==> step % 4 == 0,
        qa >= 0,
        qb >= 0,
        a.len() == qa * step,
        b.len() == qb * step,
    ensures
        stage(a + b, tw, step) == stage(a, tw, step) + stage(b, tw, step),
{
    let ab = a + b;
    let whole = stage(ab, tw, step);
    let parts = stage(a, tw, step) + stage(b, tw, step);
    assert forall|p: int| 0 <= p < ab.len() implies whole[p] == parts[p] by {
        if step >= 4 {
            let k = p / step;
            let r = p % step;
            lemma_fundamental_div_mod(p, step);
            lemma_mod_bound(p, step);
            assert(p == k * step + r) by (nonlinear_arith)
                requires
                    p == step * k + r,
            ;
            assert(k >= 0) by (nonlinear_arith)
                requires
                    p == k * step + r,
                    p >= 0,
                    r < step,
                    step >= 4,
            ;
            lemma_stage_entry_in_group(ab, tw, step, k, r);
            if p < a.len() {
                assert((k + 1) * step <= qa * step) by (nonlinear_arith)
                    requires
                        k * step + r < qa * step,
                        r >= 0,
                        step >= 4,
                ;
                assert((k + 1) * step == k * step + step) by (nonlinear_arith);
                lemma_stage_entry_in_group(a, tw, step, k, r);
            } else {
                let k2 = k - qa;
                assert(k2 * step == k * step - qa * step) by (nonlinear_arith)
                    requires
                        k2 == k - qa,
                ;
                assert(k2 >= 0) by (nonlinear_arith)
                    requires
                        k2 * step + r >= 0,
                        r < step,
                        step >= 4,
                ;
                assert((k2 + 1) * step <= qb * step) by (nonlinear_arith)
                    requires
                        k2 * step + r < qb * step,
                        r >= 0,
                        step >= 4,
                ;
                assert((k2 + 1) * step == k2 * step + step) by (nonlinear_arith);
                lemma_stage_entry_in_group(b, tw, step, k2, r);
            }
        }
    }
    assert(whole =~= parts);
}

/// Where a buffer is cut in two halves of a power-of-two length, the stages
/// whose groups fit into a half work on each half by itself.
proof fn lemma_staged_upto_concat<T>(a: Seq<T>, b: Seq<T>, tw: Seq<Complex<T>>, top: int) where
    T: Add<Output = T> + Sub<Output = T> + Mul<Output = T>,

    requires
        top >= 1,
        power_of_two(top as nat),
        power_of_two(a.len()),
        a.len() == b.len(),
        top <= a.len(),
    ensures
        staged_upto(a + b, tw, top) == staged_upto(a, tw, top) + staged_upto(b, tw, top),
    decreases top,
{
    if top >= 2 {
        lemma_power_of_two_halves(top as nat);
        lemma_staged_upto_concat(a, b, tw, top / 2);
        lemma_staged_upto_len(a, tw, top / 2);
        lemma_staged_upto_len(b, tw, top / 2);
        let q = lemma_power_of_two_divides(top as nat, a.len());
        if top >= 4 {
            lemma_multiple_of_four(top as nat);
        }
        lemma_stage_concat(
            staged_upto(a, tw, top / 2),
            staged_upto(b, tw, top / 2),
            tw,
            top,
            q as int,
            q as int,
        );
    }
}

/// The bit-reversal permutation of a buffer is that of its even samples
/// followed by that of its odd samples.
proof fn lemma_bit_reversed_split<T>(x: Seq<T>, m: nat)
    requires
        power_of_two(m),
        m >= 2,
        x.len() == 2 * m,
    ensures
        bit_reversed(x, m) == bit_reversed(even_samples(x), m / 2) + bit_reversed(
            odd_samples(x),
            m / 2,
        ),
{
    lemma_power_of_two_halves(m);
    let h = m / 2;
    let ev = even_samples(x);
    let od = odd_samples(x);
    let whole = bit_reversed(x, m);
    let parts = bit_reversed(ev, h) + bit_reversed(od, h);
    assert forall|p: int| 0 <= p < 2 * m implies whole[p] == parts[p] by {
        let k = (p / 2) as nat;
        lemma_reverse_index_from_top(m, k);
        if p < m {
            lemma_reverse_index_bound(h, k);
            let r = reverse_index(h, k) as int;
            assert(parts[p] == ev[2 * r + p % 2]);
            assert((2 * r + p % 2) / 2 == r);
        } else {
            let k2 = (k - h) as nat;
            assert(((p - m) / 2) as nat == k2);
            lemma_reverse_index_bound(h, k2);
            let r = reverse_index(h, k2) as int;
            assert(parts[p] == od[2 * r + (p - m) % 2]);
            assert((2 * r + p % 2) / 2 == r);
        }
    }
    assert(whole =~= parts);
}

/// The stage whose single group is the whole buffer combines its two halves.
proof fn lemma_stage_combines<T>(e: Seq<T>, o: Seq<T>, tw: Seq<Complex<T>>) where
    T: Add<Output = T> + Sub<Output = T> + Mul<Output = T>,

    requires
        e.len() == o.len(),
        e.len() >= 2,
        e.len() % 2 == 0,
    ensures
        stage(e + o, tw, 2 * (e.len() as int)) == combined(e, o, tw),
{
    let half = e.len() as int;
    let step = 2 * half;
    let eo = e + o;
    let whole = stage(eo, tw, step);
    let both = combined(e, o, tw);
    assert forall|p: int| 0 <= p < step implies whole[p] == both[p] by {
        lemma_stage_entry_in_group(eo, tw, step, 0, p);
    }
    assert(whole =~= both);
}

/// On a buffer in bit-reversed order, the stages up to the one whose single
/// group is the whole buffer give the transform stated by splitting.
proof fn lemma_staged_is_split<T>(x: Seq<T>, tw: Seq<Complex<T>>, m: nat) where
    T: Add<Output = T> + Sub<Output = T> + Mul<Output = T>,

    requires
        power_of_two(m),
        x.len() == 2 * m,
    ensures
        staged_upto(bit_reversed(x, m), tw, 2 * (m as int)) == split_transform(x, tw),
    decreases m,
{
    lemma_power_of_two_positive(m);
    if m == 1 {
        let b = bit_reversed(x, 1);
        assert(reverse_index(1, 0) == 0);
        assert(b =~= x);
        assert(staged_upto(b, tw, 1) == b);
        assert(stage(b, tw, 2) =~= b);
    } else {
        lemma_power_of_two_halves(m);
        let h = m / 2;
        let ev = even_samples(x);
        let od = odd_samples(x);
        lemma_staged_is_split(ev, tw, h);
        lemma_staged_is_split(od, tw, h);
        lemma_bit_reversed_split(x, m);
        let be = bit_reversed(ev, h);
        let bo = bit_reversed(od, h);
        lemma_power_of_two_doubles(h);
        lemma_staged_upto_concat(be, bo, tw, m as int);
        lemma_staged_upto_len(be, tw, m as int);
        lemma_staged_upto_len(bo, tw, m as int);
        lemma_stage_combines(staged_upto(be, tw, m as int), staged_upto(bo, tw, m as int), tw);
        assert((2 * m) / 2 == m);
    }
}

/// Running the stages upwards from `step`, after those below it, is running
/// them all.
proof fn lemma_stages_from_upto<T>(buf: Seq<T>, tw: Seq<Complex<T>>, step: nat) where
    T: Add<Output = T> + Sub<Output = T> + Mul<Output = T>,

    requires
        power_of_two(tw.len()),
        power_of_two(step),
        2 <= step <= 4 * tw.len(),
    ensures
        stages_from(staged_upto(buf, tw, step as int / 2), tw, step as int) == staged_upto(
            buf,
            tw,
            2 * (tw.len() as int),
        ),
    decreases 4 * tw.len() - step,
{
    let n = tw.len();
    lemma_power_of_two_halves(step);
    if step > 2 * n {
        lemma_power_of_two_doubles(n);
        lemma_power_of_two_doubles(2 * n);
        let q = lemma_power_of_two_divides(2 * n, step);
        assert(q >= 2 ==> q * (2 * n) >= 2 * (2 * n)) by (nonlinear_arith);
    } else {
        lemma_power_of_two_doubles(step);
        lemma_stages_from_upto(buf, tw, 2 * step);
        assert((2 * step) as int / 2 == step);
    }
}

/// The transform, which runs the bit-reversal permutation and then the
/// stages in place, computes the transform stated by splitting into even and
/// odd samples: the same operations on the same operands, for every scalar
/// type.
pub proof fn lemma_transformed_is_split_transform<T>(x: Seq<T>, tw: Seq<Complex<T>>) where
    T: Add<Output = T> + Sub<Output = T> + Mul<Output = T>,

    requires
        power_of_two(tw.len()),
        x.len() == 2 * tw.len(),
    ensures
        transformed(x, tw) == split_transform(x, tw),
{
    let n = tw.len();
    vstd::arithmetic::power2::lemma2_to64();
    assert(2 == vstd::arithmetic::power2::pow2(1));
    lemma_power_of_two_positive(n);
    let b = bit_reversed(x, n);
    lemma_stages_from_upto(b, tw, 2);
    assert(staged_upto(b, tw, 1) == b);
    lemma_staged_is_split(x, tw, n);
}

} // verus!
