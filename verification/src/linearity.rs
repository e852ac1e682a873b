use vstd::prelude::*;
use core::ops::{Add, Mul, Sub};
use num_complex::Complex;
use vstd::std_specs::ops::{AddSpec, MulSpec, SubSpec};
use crate::butterfly::transformed;
use crate::ring::{
    lemma_differences_interchange, lemma_mul_associates, lemma_mul_distributes_left,
    lemma_mul_distributes_over_difference, lemma_mul_distributes_right, lemma_sums_interchange,
    ring_arithmetic,
};
use crate::scalar::{rotated_im, rotated_re};
use crate::size::{lemma_power_of_two_halves, lemma_power_of_two_positive, power_of_two};
use crate::split::{
    combined, even_samples, lemma_split_transform_len, lemma_transformed_is_split_transform,
    odd_samples, split_transform,
};

verus! {

/// `a * x + b * y`.
pub open spec fn mixed<T>(a: T, b: T, x: T, y: T) -> T where
    T: Add<Output = T> + Sub<Output = T> + Mul<Output = T>,
 {
    a.mul_spec(x).add_spec(b.mul_spec(y))
}

/// The buffer `a * x + b * y`, entry by entry.
pub open spec fn mixed_buffers<T>(a: T, b: T, x: Seq<T>, y: Seq<T>) -> Seq<T> where
    T: Add<Output = T> + Sub<Output = T> + Mul<Output = T>,
 {
    Seq::new(x.len(), |p: int| mixed(a, b, x[p], y[p]))
}

proof fn lemma_mixed_times<T>(a: T, b: T, x: T, y: T, w: T) where
    T: Add<Output = T> + Sub<Output = T> + Mul<Output = T>,

    requires
        ring_arithmetic::<T>(),
    ensures
        mixed(a, b, x, y).mul_spec(w) == mixed(a, b, x.mul_spec(w), y.mul_spec(w)),
{
    lemma_mul_distributes_right(a.mul_spec(x), b.mul_spec(y), w);
    lemma_mul_associates(a, x, w);
    lemma_mul_associates(b, y, w);
}

proof fn lemma_mixed_sum<T>(a: T, b: T, p: T, q: T, r: T, s: T) where
    T: Add<Output = T> + Sub<Output = T> + Mul<Output = T>,

    requires
        ring_arithmetic::<T>(),
    ensures
        mixed(a, b, p, q).add_spec(mixed(a, b, r, s)) == mixed(a, b, p.add_spec(r), q.add_spec(s)),
{
    lemma_sums_interchange(a.mul_spec(p), b.mul_spec(q), a.mul_spec(r), b.mul_spec(s));
    lemma_mul_distributes_left(a, p, r);
    lemma_mul_distributes_left(b, q, s);
}

proof fn lemma_mixed_difference<T>(a: T, b: T, p: T, q: T, r: T, s: T) where
    T: Add<Output = T> + Sub<Output = T> + Mul<Output = T>,

    requires
        ring_arithmetic::<T>(),
    ensures
        mixed(a, b, p, q).sub_spec(mixed(a, b, r, s)) == mixed(a, b, p.sub_spec(r), q.sub_spec(s)),
{
    lemma_differences_interchange(a.mul_spec(p), b.mul_spec(q), a.mul_spec(r), b.mul_spec(s));
    lemma_mul_distributes_over_difference(a, p, r);
    lemma_mul_distributes_over_difference(b, q, s);
}

/// Multiplying by a table entry is linear in the sample.
proof fn lemma_rotation_is_linear<T>(a: T, b: T, x_re: T, x_im: T, y_re: T, y_im: T, w: Complex<T>) where
    T: Add<Output = T> + Sub<Output = T> + Mul<Output = T>,

    requires
        ring_arithmetic::<T>(),
    ensures
        rotated_re(mixed(a, b, x_re, y_re), mixed(a, b, x_im, y_im), w) == mixed(
            a,
            b,
            rotated_re(x_re, x_im, w),
            rotated_re(y_re, y_im, w),
        ),
        rotated_im(mixed(a, b, x_re, y_re), mixed(a, b, x_im, y_im), w) == mixed(
            a,
            b,
            rotated_im(x_re, x_im, w),
            rotated_im(y_re, y_im, w),
        ),
{
    lemma_mixed_times(a, b, x_re, y_re, w.re);
    lemma_mixed_times(a, b, x_im, y_im, w.im);
    lemma_mixed_times(a, b, x_re, y_re, w.im);
    lemma_mixed_times(a, b, x_im, y_im, w.re);
    lemma_mixed_difference(
        a,
        b,
        x_re.mul_spec(w.re),
        y_re.mul_spec(w.re),
        x_im.mul_spec(w.im),
        y_im.mul_spec(w.im),
    );
    lemma_mixed_sum(
        a,
        b,
        x_re.mul_spec(w.im),
        y_re.mul_spec(w.im),
        x_im.mul_spec(w.re),
        y_im.mul_spec(w.re),
    );
}

/// Combining two transforms is linear in the pair.
proof fn lemma_combined_is_linear<T>(
    a: T,
    b: T,
    e1: Seq<T>,
    o1: Seq<T>,
    e2: Seq<T>,
    o2: Seq<T>,
    tw: Seq<Complex<T>>,
) where T: Add<Output = T> + Sub<Output = T> + Mul<Output = T>
    requires
        ring_arithmetic::<T>(),
        e1.len() == o1.len(),
        e1.len() == e2.len(),
        e1.len() == o2.len(),
        e1.len() % 2 == 0,
    ensures
        combined(mixed_buffers(a, b, e1, e2), mixed_buffers(a, b, o1, o2), tw) == mixed_buffers(
            a,
            b,
            combined(e1, o1, tw),
            combined(e2, o2, tw),
        ),
{
    let half = e1.len() as int;
    let left = combined(mixed_buffers(a, b, e1, e2), mixed_buffers(a, b, o1, o2), tw);
    let right = mixed_buffers(a, b, combined(e1, o1, tw), combined(e2, o2, tw));
    assert forall|p: int| 0 <= p < 2 * half implies left[p] == right[p] by {
        let j = (if p < half {
            p
        } else {
            p - half
        }) / 2;
        let w = tw[j * (tw.len() as int / (2 * half))];
        lemma_rotation_is_linear(a, b, o1[2 * j], o1[2 * j + 1], o2[2 * j], o2[2 * j + 1], w);
        let t1_re = rotated_re(o1[2 * j], o1[2 * j + 1], w);
        let t1_im = rotated_im(o1[2 * j], o1[2 * j + 1], w);
        let t2_re = rotated_re(o2[2 * j], o2[2 * j + 1], w);
        let t2_im = rotated_im(o2[2 * j], o2[2 * j + 1], w);
        lemma_mixed_sum(a, b, e1[2 * j], e2[2 * j], t1_re, t2_re);
        lemma_mixed_sum(a, b, e1[2 * j + 1], e2[2 * j + 1], t1_im, t2_im);
        lemma_mixed_difference(a, b, e1[2 * j], e2[2 * j], t1_re, t2_re);
        lemma_mixed_difference(a, b, e1[2 * j + 1], e2[2 * j + 1], t1_im, t2_im);
    }
    assert(left =~= right);
}

proof fn lemma_split_transform_is_linear<T>(
    a: T,
    b: T,
    x: Seq<T>,
    y: Seq<T>,
    tw: Seq<Complex<T>>,
    m: nat,
) where T: Add<Output = T> + Sub<Output = T> + Mul<Output = T>
    requires
        ring_arithmetic::<T>(),
        power_of_two(m),
        x.len() == 2 * m,
        y.len() == 2 * m,
    ensures
        split_transform(mixed_buffers(a, b, x, y), tw) == mixed_buffers(
            a,
            b,
            split_transform(x, tw),
            split_transform(y, tw),
        ),
    decreases m,
{
    let xy = mixed_buffers(a, b, x, y);
    lemma_power_of_two_positive(m);
    if m == 1 {
        assert(mixed_buffers(a, b, split_transform(x, tw), split_transform(y, tw)) =~= xy);
    } else {
        lemma_power_of_two_halves(m);
        let h = m / 2;
        assert(even_samples(xy) =~= mixed_buffers(a, b, even_samples(x), even_samples(y)));
        assert(odd_samples(xy) =~= mixed_buffers(a, b, odd_samples(x), odd_samples(y)));
        lemma_split_transform_is_linear(a, b, even_samples(x), even_samples(y), tw, h);
        lemma_split_transform_is_linear(a, b, odd_samples(x), odd_samples(y), tw, h);
        lemma_split_transform_len(even_samples(x), tw, h);
        lemma_split_transform_len(odd_samples(x), tw, h);
        lemma_split_transform_len(even_samples(y), tw, h);
        lemma_split_transform_len(odd_samples(y), tw, h);
        if h > 1 {
            lemma_power_of_two_halves(h);
        }
        lemma_combined_is_linear(
            a,
            b,
            split_transform(even_samples(x), tw),
            split_transform(odd_samples(x), tw),
            split_transform(even_samples(y), tw),
            split_transform(odd_samples(y), tw),
            tw,
        );
    }
}

/// The transform is linear: where the scalar type is a ring, the transform
/// of `a * x + b * y` is `a` times the transform of `x` plus `b` times the
/// transform of `y`, entry by entry and exactly.
pub proof fn lemma_transform_is_linear<T>(a: T, b: T, x: Seq<T>, y: Seq<T>, tw: Seq<Complex<T>>) where
    T: Add<Output = T> + Sub<Output = T> + Mul<Output = T>,

    requires
        ring_arithmetic::<T>(),
        power_of_two(tw.len()),
        x.len() == 2 * tw.len(),
        y.len() == x.len(),
    ensures
        transformed(mixed_buffers(a, b, x, y), tw) == mixed_buffers(
            a,
            b,
            transformed(x, tw),
            transformed(y, tw),
        ),
{
    lemma_transformed_is_split_transform(x, tw);
    lemma_transformed_is_split_transform(y, tw);
    lemma_transformed_is_split_transform(mixed_buffers(a, b, x, y), tw);
    lemma_split_transform_is_linear(a, b, x, y, tw, tw.len());
}

} // verus!
