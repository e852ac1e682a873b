use vstd::prelude::*;
use core::ops::{Add, Mul, Sub};
use num_complex::Complex;
use vstd::std_specs::ops::{AddSpec, MulSpec, SubSpec};
use crate::butterfly::{lemma_twiddle_index, transformed};
use crate::ring::{
    lemma_add_associates, lemma_add_commutes, lemma_mul_distributes_left,
    lemma_mul_distributes_right, lemma_sub_then_add, lemma_sums_interchange, ring_arithmetic,
};
use crate::scalar::{rotated_im, rotated_re};
use crate::size::{lemma_power_of_two_halves, lemma_power_of_two_positive, power_of_two};
use crate::split::{
    combined, even_samples, lemma_split_transform_len, lemma_transformed_is_split_transform,
    odd_samples, split_transform,
};

verus! {

/// `re * re + im * im`.
pub open spec fn squared_magnitude<T>(re: T, im: T) -> T where
    T: Add<Output = T> + Sub<Output = T> + Mul<Output = T>,
 {
    re.mul_spec(re).add_spec(im.mul_spec(im))
}

/// The sum of the entries of a sequence that is not empty, from the left.
pub open spec fn total<T>(s: Seq<T>) -> T where T: Add<Output = T> + Sub<Output = T> + Mul<Output = T>
    decreases s.len(),
{
    if s.len() <= 1 {
        s[0]
    } else {
        total(s.drop_last()).add_spec(s.last())
    }
}

/// The squared magnitude of each sample of a buffer.
pub open spec fn magnitudes<T>(buf: Seq<T>) -> Seq<T> where
    T: Add<Output = T> + Sub<Output = T> + Mul<Output = T>,
 {
    Seq::new((buf.len() / 2) as nat, |k: int| squared_magnitude(buf[2 * k], buf[2 * k + 1]))
}

/// The sum of the squared magnitudes of the samples of a buffer.
pub open spec fn energy<T>(buf: Seq<T>) -> T where
    T: Add<Output = T> + Sub<Output = T> + Mul<Output = T>,
 {
    total(magnitudes(buf))
}

/// `v + v + ... + v`, with `n` summands.
pub open spec fn times<T>(n: nat, v: T) -> T where T: Add<Output = T> + Sub<Output = T> + Mul<Output = T>
    decreases n,
{
    if n <= 1 {
        v
    } else {
        times((n - 1) as nat, v).add_spec(v)
    }
}

/// Every entry of the table is a rotation: multiplying a sample by it keeps
/// the squared magnitude of the sample.
pub open spec fn rotation_table<T>(tw: Seq<Complex<T>>) -> bool where
    T: Add<Output = T> + Sub<Output = T> + Mul<Output = T>,
 {
    forall|k: int, re: T, im: T|
        0 <= k < tw.len() ==> squared_magnitude(
            #[trigger] rotated_re(re, im, tw[k]),
            rotated_im(re, im, tw[k]),
        ) == squared_magnitude(re, im)
}

/// The entries of `a` and `b` added in pairs.
pub open spec fn sums<T>(a: Seq<T>, b: Seq<T>) -> Seq<T> where
    T: Add<Output = T> + Sub<Output = T> + Mul<Output = T>,
 {
    Seq::new(a.len(), |k: int| a[k].add_spec(b[k]))
}

/// `(u + v) * (u + v) == (u * u + v * v) + (u * v + v * u)`.
proof fn lemma_square_of_sum<T>(u: T, v: T) where T: Add<Output = T> + Sub<Output = T> + Mul<Output = T>
    requires
        ring_arithmetic::<T>(),
    ensures
        u.add_spec(v).mul_spec(u.add_spec(v)) == u.mul_spec(u).add_spec(v.mul_spec(v)).add_spec(
            u.mul_spec(v).add_spec(v.mul_spec(u)),
        ),
{
    let uv = u.add_spec(v);
    lemma_mul_distributes_right(u, v, uv);
    lemma_mul_distributes_left(u, u, v);
    lemma_mul_distributes_left(v, u, v);
    lemma_add_commutes(v.mul_spec(u), v.mul_spec(v));
    lemma_sums_interchange(u.mul_spec(u), u.mul_spec(v), v.mul_spec(v), v.mul_spec(u));
}

/// `(x + y)^2 + (x - y)^2 == (x^2 + y^2) + (x^2 + y^2)`.
proof fn lemma_parallelogram<T>(x: T, y: T) where T: Add<Output = T> + Sub<Output = T> + Mul<Output = T>
    requires
        ring_arithmetic::<T>(),
    ensures
        x.add_spec(y).mul_spec(x.add_spec(y)).add_spec(x.sub_spec(y).mul_spec(x.sub_spec(y)))
            == x.mul_spec(x).add_spec(y.mul_spec(y)).add_spec(
            x.mul_spec(x).add_spec(y.mul_spec(y)),
        ),
{
    let d = x.sub_spec(y);
    lemma_sub_then_add(x, y);
    let dd = d.mul_spec(d);
    let dy = d.mul_spec(y);
    let yd = y.mul_spec(d);
    let yy = y.mul_spec(y);
    let xx = x.mul_spec(x);
    let xy = x.mul_spec(y);
    let yx = y.mul_spec(x);
    let cross = dy.add_spec(yd);
    // x * x, x * y and y * x in terms of d and y
    lemma_square_of_sum(d, y);
    assert(xx == dd.add_spec(yy).add_spec(cross));
    lemma_mul_distributes_right(d, y, y);
    assert(xy == dy.add_spec(yy));
    lemma_mul_distributes_left(y, d, y);
    assert(yx == yd.add_spec(yy));
    // d * d + (x * y + y * x) == x * x + y * y
    lemma_sums_interchange(dy, yy, yd, yy);
    assert(xy.add_spec(yx) == cross.add_spec(yy.add_spec(yy)));
    lemma_add_associates(dd.add_spec(yy), cross, yy);
    lemma_add_associates(dd, yy, cross.add_spec(yy));
    lemma_add_commutes(cross, yy);
    lemma_add_associates(yy, yy, cross);
    lemma_add_commutes(yy.add_spec(yy), cross);
    lemma_add_associates(yy, cross, yy);
    assert(yy.add_spec(cross.add_spec(yy)) == cross.add_spec(yy.add_spec(yy)));
    assert(dd.add_spec(xy.add_spec(yx)) == xx.add_spec(yy));
    // the sum of the two squares
    lemma_square_of_sum(x, y);
    let s = xx.add_spec(yy);
    lemma_add_associates(s, xy.add_spec(yx), dd);
    lemma_add_commutes(xy.add_spec(yx), dd);
}

/// The sum of a sequence made of two parts is the sum of the sums of the
/// parts.
proof fn lemma_total_of_parts<T>(a: Seq<T>, b: Seq<T>) where
    T: Add<Output = T> + Sub<Output = T> + Mul<Output = T>,

    requires
        ring_arithmetic::<T>(),
        a.len() >= 1,
        b.len() >= 1,
    ensures
        total(a + b) == total(a).add_spec(total(b)),
    decreases b.len(),
{
    let ab = a + b;
    if b.len() == 1 {
        assert(ab.drop_last() =~= a);
    } else {
        assert(ab.drop_last() =~= a + b.drop_last());
        lemma_total_of_parts(a, b.drop_last());
        lemma_add_associates(total(a), total(b.drop_last()), b.last());
    }
}

/// The sum of pairwise sums is the sum of the two sums.
proof fn lemma_total_of_sums<T>(a: Seq<T>, b: Seq<T>) where
    T: Add<Output = T> + Sub<Output = T> + Mul<Output = T>,

    requires
        ring_arithmetic::<T>(),
        a.len() >= 1,
        a.len() == b.len(),
    ensures
        total(sums(a, b)) == total(a).add_spec(total(b)),
    decreases a.len(),
{
    if a.len() > 1 {
        assert(sums(a, b).drop_last() =~= sums(a.drop_last(), b.drop_last()));
        lemma_total_of_sums(a.drop_last(), b.drop_last());
        lemma_sums_interchange(
            total(a.drop_last()),
            total(b.drop_last()),
            a.last(),
            b.last(),
        );
    }
}

/// The sum of a sequence of even length is the sum of its entries at even
/// places plus the sum of its entries at odd places.
proof fn lemma_total_by_parity<T>(c: Seq<T>, ev: Seq<T>, od: Seq<T>) where
    T: Add<Output = T> + Sub<Output = T> + Mul<Output = T>,

    requires
        ring_arithmetic::<T>(),
        ev.len() >= 1,
        ev.len() == od.len(),
        c.len() == 2 * ev.len(),
        forall|k: int| 0 <= k < ev.len() ==> ev[k] == c[2 * k] && od[k] == c[2 * k + 1],
    ensures
        total(c) == total(ev).add_spec(total(od)),
    decreases ev.len(),
{
    let c1 = c.drop_last();
    if ev.len() == 1 {
        assert(c1.len() == 1);
        assert(total(c1) == c[0]);
    } else {
        let c2 = c1.drop_last();
        assert(c1.len() == c.len() - 1 && c2.len() == c.len() - 2);
        assert(total(c) == total(c1).add_spec(c.last()));
        assert(total(c1) == total(c2).add_spec(c1.last()));
        assert(c1.last() == ev.last() && c.last() == od.last());
        assert(total(ev) == total(ev.drop_last()).add_spec(ev.last()));
        assert(total(od) == total(od.drop_last()).add_spec(od.last()));
        lemma_total_by_parity(c2, ev.drop_last(), od.drop_last());
        lemma_sums_interchange(
            total(ev.drop_last()),
            total(od.drop_last()),
            ev.last(),
            od.last(),
        );
        lemma_add_associates(total(c2), ev.last(), od.last());
    }
}

/// `n` summands of `u` plus `n` summands of `v` are `n` summands of `u + v`.
proof fn lemma_times_of_sum<T>(n: nat, u: T, v: T) where
    T: Add<Output = T> + Sub<Output = T> + Mul<Output = T>,

    requires
        ring_arithmetic::<T>(),
        n >= 1,
    ensures
        times(n, u).add_spec(times(n, v)) == times(n, u.add_spec(v)),
    decreases n,
{
    if n > 1 {
        lemma_times_of_sum((n - 1) as nat, u, v);
        lemma_sums_interchange(times((n - 1) as nat, u), u, times((n - 1) as nat, v), v);
    }
}

/// Twice `n` summands are `2 * n` summands.
proof fn lemma_times_doubles<T>(n: nat, v: T) where T: Add<Output = T> + Sub<Output = T> + Mul<Output = T>
    requires
        ring_arithmetic::<T>(),
        n >= 1,
    ensures
        times(n, v).add_spec(times(n, v)) == times(2 * n, v),
    decreases n,
{
    if n == 1 {
        assert(times(2, v) == times(1, v).add_spec(v));
    } else {
        let t = times((n - 1) as nat, v);
        lemma_times_doubles((n - 1) as nat, v);
        assert(times(2 * n, v) == times((2 * n - 1) as nat, v).add_spec(v));
        assert(times((2 * n - 1) as nat, v) == times((2 * n - 2) as nat, v).add_spec(v));
        assert((2 * n - 2) as nat == 2 * ((n - 1) as nat));
        lemma_add_associates(t.add_spec(t), v, v);
        lemma_sums_interchange(t, t, v, v);
    }
}

/// The squared magnitudes of sample `k` of the lower half and of the upper
/// half of a combined transform add up to twice the sum of those of sample
/// `k` of its two parts.
proof fn lemma_combined_magnitudes<T>(e: Seq<T>, o: Seq<T>, tw: Seq<Complex<T>>, k: int) where
    T: Add<Output = T> + Sub<Output = T> + Mul<Output = T>,

    requires
        ring_arithmetic::<T>(),
        rotation_table(tw),
        tw.len() >= 1,
        e.len() == o.len(),
        e.len() >= 2,
        e.len() % 2 == 0,
        0 <= k < e.len() / 2,
    ensures
        ({
            let c = magnitudes(combined(e, o, tw));
            let d = magnitudes(e)[k].add_spec(magnitudes(o)[k]);
            c[k].add_spec(c[e.len() / 2 + k]) == d.add_spec(d)
        }),
{
    let half = e.len() as int;
    let c = combined(e, o, tw);
    let index = k * (tw.len() as int / (2 * half));
    lemma_twiddle_index(tw.len() as int, 2 * half, k);
    let w = tw[index];
    let e_re = e[2 * k];
    let e_im = e[2 * k + 1];
    let t_re = rotated_re(o[2 * k], o[2 * k + 1], w);
    let t_im = rotated_im(o[2 * k], o[2 * k + 1], w);
    assert(c[2 * k] == e_re.add_spec(t_re));
    assert(c[2 * k + 1] == e_im.add_spec(t_im));
    assert(c[half + 2 * k] == e_re.sub_spec(t_re));
    assert(c[half + 2 * k + 1] == e_im.sub_spec(t_im));
    let lower = magnitudes(c)[k];
    let upper = magnitudes(c)[half / 2 + k];
    assert(2 * (half / 2 + k) == half + 2 * k);
    assert(lower == squared_magnitude(e_re.add_spec(t_re), e_im.add_spec(t_im)));
    assert(upper == squared_magnitude(e_re.sub_spec(t_re), e_im.sub_spec(t_im)));
    let p_re = e_re.add_spec(t_re).mul_spec(e_re.add_spec(t_re));
    let p_im = e_im.add_spec(t_im).mul_spec(e_im.add_spec(t_im));
    let m_re = e_re.sub_spec(t_re).mul_spec(e_re.sub_spec(t_re));
    let m_im = e_im.sub_spec(t_im).mul_spec(e_im.sub_spec(t_im));
    lemma_sums_interchange(p_re, p_im, m_re, m_im);
    lemma_parallelogram(e_re, t_re);
    lemma_parallelogram(e_im, t_im);
    let a = e_re.mul_spec(e_re).add_spec(t_re.mul_spec(t_re));
    let b = e_im.mul_spec(e_im).add_spec(t_im.mul_spec(t_im));
    lemma_sums_interchange(a, a, b, b);
    lemma_sums_interchange(
        e_re.mul_spec(e_re),
        t_re.mul_spec(t_re),
        e_im.mul_spec(e_im),
        t_im.mul_spec(t_im),
    );
    assert(squared_magnitude(t_re, t_im) == squared_magnitude(o[2 * k], o[2 * k + 1]));
    assert(a.add_spec(b) == magnitudes(e)[k].add_spec(magnitudes(o)[k]));
}

/// Combining two transforms doubles the sum of their energies.
proof fn lemma_combined_energy<T>(e: Seq<T>, o: Seq<T>, tw: Seq<Complex<T>>) where
    T: Add<Output = T> + Sub<Output = T> + Mul<Output = T>,

    requires
        ring_arithmetic::<T>(),
        rotation_table(tw),
        tw.len() >= 1,
        e.len() == o.len(),
        e.len() >= 2,
        e.len() % 2 == 0,
    ensures
        ({
            let d = energy(e).add_spec(energy(o));
            energy(combined(e, o, tw)) == d.add_spec(d)
        }),
{
    let h = e.len() as int / 2;
    let c = magnitudes(combined(e, o, tw));
    let lower = c.subrange(0, h);
    let upper = c.subrange(h, 2 * h);
    let d = sums(magnitudes(e), magnitudes(o));
    assert(c =~= lower + upper);
    lemma_total_of_parts(lower, upper);
    lemma_total_of_sums(lower, upper);
    assert forall|k: int| 0 <= k < h implies sums(lower, upper)[k] == sums(d, d)[k] by {
        lemma_combined_magnitudes(e, o, tw, k);
    }
    assert(sums(lower, upper) =~= sums(d, d));
    lemma_total_of_sums(d, d);
    lemma_total_of_sums(magnitudes(e), magnitudes(o));
}

/// The energy of a buffer is that of its even samples plus that of its odd
/// samples.
proof fn lemma_energy_by_parity<T>(x: Seq<T>) where T: Add<Output = T> + Sub<Output = T> + Mul<Output = T>
    requires
        ring_arithmetic::<T>(),
        x.len() >= 4,
        x.len() % 4 == 0,
    ensures
        energy(x) == energy(even_samples(x)).add_spec(energy(odd_samples(x))),
{
    let ev = magnitudes(even_samples(x));
    let od = magnitudes(odd_samples(x));
    lemma_total_by_parity(magnitudes(x), ev, od);
}

proof fn lemma_split_transform_energy<T>(x: Seq<T>, tw: Seq<Complex<T>>, m: nat) where
    T: Add<Output = T> + Sub<Output = T> + Mul<Output = T>,

    requires
        ring_arithmetic::<T>(),
        rotation_table(tw),
        tw.len() >= 1,
        power_of_two(m),
        x.len() == 2 * m,
    ensures
        energy(split_transform(x, tw)) == times(m, energy(x)),
    decreases m,
{
    lemma_power_of_two_positive(m);
    if m > 1 {
        lemma_power_of_two_halves(m);
        let h = m / 2;
        let ev = even_samples(x);
        let od = odd_samples(x);
        lemma_split_transform_energy(ev, tw, h);
        lemma_split_transform_energy(od, tw, h);
        lemma_split_transform_len(ev, tw, h);
        lemma_split_transform_len(od, tw, h);
        lemma_combined_energy(split_transform(ev, tw), split_transform(od, tw), tw);
        lemma_times_of_sum(h, energy(ev), energy(od));
        lemma_energy_by_parity(x);
        lemma_times_doubles(h, energy(x));
    }
}

/// The transform multiplies the energy by the number of samples: where the
/// scalar type is a ring and every entry of the table is a rotation, the
/// energy of the transform of `x` is the energy of `x` added up as many
/// times as there are samples, exactly.
pub proof fn lemma_transform_scales_energy<T>(x: Seq<T>, tw: Seq<Complex<T>>) where
    T: Add<Output = T> + Sub<Output = T> + Mul<Output = T>,

    requires
        ring_arithmetic::<T>(),
        rotation_table(tw),
        power_of_two(tw.len()),
        x.len() == 2 * tw.len(),
    ensures
        energy(transformed(x, tw)) == times(tw.len(), energy(x)),
{
    lemma_power_of_two_positive(tw.len());
    lemma_transformed_is_split_transform(x, tw);
    lemma_split_transform_energy(x, tw, tw.len());
}

} // verus!
