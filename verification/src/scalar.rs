use vstd::prelude::*;
use core::ops::{Add, Mul, Sub};
use num_complex::Complex;
use vstd::std_specs::ops::{AddSpec, MulSpec, SubSpec};

verus! {

/// `num_complex::Complex`, a pair of the public fields `re` and `im`. It is
/// declared with its fields, which the engine reads directly; no function of
/// the crate is called.
#[verifier::external_type_specification]
#[verifier::reject_recursive_types(T)]
pub struct ExComplex<T>(Complex<T>);

/// Sums, differences and products of the scalar type are defined for all
/// operands, so that no operation of the engine can be refused.
pub open spec fn total_arithmetic<T>() -> bool where
    T: Add<Output = T> + Sub<Output = T> + Mul<Output = T>,
 {
    &&& forall|a: T, b: T| #[trigger] a.add_req(b)
    &&& forall|a: T, b: T| #[trigger] a.sub_req(b)
    &&& forall|a: T, b: T| #[trigger] a.mul_req(b)
}

/// The operators of the scalar type compute what their specifications say.
/// Where this does not hold of a scalar type, the engine performs the same
/// operations in the same order, and nothing is claimed of their results.
pub open spec fn exact_arithmetic<T>() -> bool where
    T: Add<Output = T> + Sub<Output = T> + Mul<Output = T>,
 {
    T::obeys_add_spec() && T::obeys_sub_spec() && T::obeys_mul_spec()
}

/// Real part of the product of the sample `(re, im)` and the factor `w`.
pub open spec fn rotated_re<T>(re: T, im: T, w: Complex<T>) -> T where
    T: Add<Output = T> + Sub<Output = T> + Mul<Output = T>,
 {
    re.mul_spec(w.re).sub_spec(im.mul_spec(w.im))
}

/// Imaginary part of the product of the sample `(re, im)` and the factor `w`.
pub open spec fn rotated_im<T>(re: T, im: T, w: Complex<T>) -> T where
    T: Add<Output = T> + Sub<Output = T> + Mul<Output = T>,
 {
    re.mul_spec(w.im).add_spec(im.mul_spec(w.re))
}

} // verus!
