use vstd::prelude::*;
use core::ops::{Add, Mul, Sub};
use vstd::std_specs::ops::{AddSpec, MulSpec, SubSpec};

verus! {

/// The laws of a ring that the algebraic laws of the transform rest on,
/// stated of the operator specifications of the scalar type: sums commute and
/// associate, products
/// associate and distribute over sums from both sides, a difference is what
/// must be added to the subtrahend to give the minuend, and a summand can be
/// cancelled.
#[verifier::opaque]
pub open spec fn ring_arithmetic<T>() -> bool where
    T: Add<Output = T> + Sub<Output = T> + Mul<Output = T>,
 {
    &&& forall|a: T, b: T| #[trigger] a.add_spec(b) == b.add_spec(a)
    &&& forall|a: T, b: T, c: T| #[trigger] a.add_spec(b).add_spec(c) == a.add_spec(b.add_spec(c))
    &&& forall|a: T, b: T, c: T| #[trigger] a.mul_spec(b).mul_spec(c) == a.mul_spec(b.mul_spec(c))
    &&& forall|a: T, b: T, c: T| #[trigger]
        a.mul_spec(b.add_spec(c)) == a.mul_spec(b).add_spec(a.mul_spec(c))
    &&& forall|a: T, b: T, c: T| #[trigger]
        a.add_spec(b).mul_spec(c) == a.mul_spec(c).add_spec(b.mul_spec(c))
    &&& forall|a: T, b: T| #[trigger] a.sub_spec(b).add_spec(b) == a
    &&& forall|a: T, b: T, c: T|
        #![trigger a.add_spec(c), b.add_spec(c)]
        a.add_spec(c) == b.add_spec(c) ==> a == b
}

/// `a + b == b + a`.
pub proof fn lemma_add_commutes<T>(a: T, b: T) where T: Add<Output = T> + Sub<Output = T> + Mul<Output = T>
    requires
        ring_arithmetic::<T>(),
    ensures
        a.add_spec(b) == b.add_spec(a),
{
    reveal(ring_arithmetic);
}

/// `(a + b) + c == a + (b + c)`.
pub proof fn lemma_add_associates<T>(a: T, b: T, c: T) where
    T: Add<Output = T> + Sub<Output = T> + Mul<Output = T>,

    requires
        ring_arithmetic::<T>(),
    ensures
        a.add_spec(b).add_spec(c) == a.add_spec(b.add_spec(c)),
{
    reveal(ring_arithmetic);
}

/// `(a * b) * c == a * (b * c)`.
pub proof fn lemma_mul_associates<T>(a: T, b: T, c: T) where
    T: Add<Output = T> + Sub<Output = T> + Mul<Output = T>,

    requires
        ring_arithmetic::<T>(),
    ensures
        a.mul_spec(b).mul_spec(c) == a.mul_spec(b.mul_spec(c)),
{
    reveal(ring_arithmetic);
}

/// `a * (b + c) == a * b + a * c`.
pub proof fn lemma_mul_distributes_left<T>(a: T, b: T, c: T) where
    T: Add<Output = T> + Sub<Output = T> + Mul<Output = T>,

    requires
        ring_arithmetic::<T>(),
    ensures
        a.mul_spec(b.add_spec(c)) == a.mul_spec(b).add_spec(a.mul_spec(c)),
{
    reveal(ring_arithmetic);
}

/// `(a + b) * c == a * c + b * c`.
pub proof fn lemma_mul_distributes_right<T>(a: T, b: T, c: T) where
    T: Add<Output = T> + Sub<Output = T> + Mul<Output = T>,

    requires
        ring_arithmetic::<T>(),
    ensures
        a.add_spec(b).mul_spec(c) == a.mul_spec(c).add_spec(b.mul_spec(c)),
{
    reveal(ring_arithmetic);
}

/// `(a - b) + b == a`.
pub proof fn lemma_sub_then_add<T>(a: T, b: T) where
    T: Add<Output = T> + Sub<Output = T> + Mul<Output = T>,

    requires
        ring_arithmetic::<T>(),
    ensures
        a.sub_spec(b).add_spec(b) == a,
{
    reveal(ring_arithmetic);
}

/// If `a + c == b + c` then `a == b`.
pub proof fn lemma_add_cancels<T>(a: T, b: T, c: T) where
    T: Add<Output = T> + Sub<Output = T> + Mul<Output = T>,

    requires
        ring_arithmetic::<T>(),
        a.add_spec(c) == b.add_spec(c),
    ensures
        a == b,
{
    reveal(ring_arithmetic);
}

/// `(u + v) + (s + t) == (u + s) + (v + t)`.
pub proof fn lemma_sums_interchange<T>(u: T, v: T, s: T, t: T) where
    T: Add<Output = T> + Sub<Output = T> + Mul<Output = T>,

    requires
        ring_arithmetic::<T>(),
    ensures
        u.add_spec(v).add_spec(s.add_spec(t)) == u.add_spec(s).add_spec(v.add_spec(t)),
{
    lemma_add_associates(u, v, s.add_spec(t));
    lemma_add_associates(v, s, t);
    lemma_add_commutes(v, s);
    lemma_add_associates(s, v, t);
    lemma_add_associates(u, s, v.add_spec(t));
}

/// `(u + v) - (s + t) == (u - s) + (v - t)`.
pub proof fn lemma_differences_interchange<T>(u: T, v: T, s: T, t: T) where
    T: Add<Output = T> + Sub<Output = T> + Mul<Output = T>,

    requires
        ring_arithmetic::<T>(),
    ensures
        u.add_spec(v).sub_spec(s.add_spec(t)) == u.sub_spec(s).add_spec(v.sub_spec(t)),
{
    let st = s.add_spec(t);
    lemma_sums_interchange(u.sub_spec(s), v.sub_spec(t), s, t);
    lemma_sub_then_add(u, s);
    lemma_sub_then_add(v, t);
    lemma_sub_then_add(u.add_spec(v), st);
    lemma_add_cancels(u.add_spec(v).sub_spec(st), u.sub_spec(s).add_spec(v.sub_spec(t)), st);
}

/// `a * (p - r) == a * p - a * r`.
pub proof fn lemma_mul_distributes_over_difference<T>(a: T, p: T, r: T) where
    T: Add<Output = T> + Sub<Output = T> + Mul<Output = T>,

    requires
        ring_arithmetic::<T>(),
    ensures
        a.mul_spec(p.sub_spec(r)) == a.mul_spec(p).sub_spec(a.mul_spec(r)),
{
    let ar = a.mul_spec(r);
    lemma_mul_distributes_left(a, p.sub_spec(r), r);
    lemma_sub_then_add(p, r);
    lemma_sub_then_add(a.mul_spec(p), ar);
    lemma_add_cancels(a.mul_spec(p.sub_spec(r)), a.mul_spec(p).sub_spec(ar), ar);
}

} // verus!
