use vstd::prelude::*;
use vstd::arithmetic::power2::{
    lemma2_to64, lemma_pow2_adds, lemma_pow2_pos, lemma_pow2_strictly_increases,
    lemma_pow2_unfold, pow2,
};
use crate::error::{FftError, SizeConstraint};

verus! {

/// The largest transform size the engine accepts. It keeps allocation and
/// running time within reason; nothing in the transform itself depends on it.
pub const MAX_FFT_SIZE: usize = 1_000_000;

/// `n` is `2^k` for some natural number `k`.
pub open spec fn power_of_two(n: nat) -> bool {
    exists|k: nat| n == pow2(k)
}

/// The sizes for which an engine can be built.
pub open spec fn valid_size(n: nat) -> bool {
    power_of_two(n) && n <= MAX_FFT_SIZE
}

/// The error that construction reports for a size that is not valid. The
/// power-of-two constraint is reported first.
pub open spec fn size_error(size: usize) -> FftError {
    if !power_of_two(size as nat) {
        FftError::InvalidSize { constraint: SizeConstraint::PowerOfTwo, size }
    } else {
        FftError::InvalidSize { constraint: SizeConstraint::UpperBound, size }
    }
}

/// `usize::is_power_of_two` of the standard library, which documents that it
/// returns `true` if and only if the value is `2^k` for some `k`.
pub assume_specification[ usize::is_power_of_two ](x: usize) -> (r: bool)
    ensures
        r == power_of_two(x as nat),
;

/// Decides whether an engine of `size` samples can be built.
pub fn check_size(size: usize) -> (r: Result<(), FftError>)
    ensures
        r is Ok <==> valid_size(size as nat),
        r is Err ==> r == Err::<(), FftError>(size_error(size)),
{
    if !size.is_power_of_two() {
        return Err(FftError::InvalidSize { constraint: SizeConstraint::PowerOfTwo, size });
    }
    if size > MAX_FFT_SIZE {
        return Err(FftError::InvalidSize { constraint: SizeConstraint::UpperBound, size });
    }
    Ok(())
}

/// One is a power of two.
pub proof fn lemma_one_is_power_of_two()
    ensures
        power_of_two(1),
{
    lemma2_to64();
    assert(1 == pow2(0));
}

/// A power of two is positive.
pub proof fn lemma_power_of_two_positive(n: nat)
    requires
        power_of_two(n),
    ensures
        n >= 1,
{
    let k = choose|k: nat| n == pow2(k);
    lemma_pow2_pos(k);
}

/// A power of two above one is even, and its half is a power of two.
pub proof fn lemma_power_of_two_halves(n: nat)
    requires
        power_of_two(n),
        n > 1,
    ensures
        n % 2 == 0,
        power_of_two(n / 2),
        n / 2 >= 1,
{
    let k = choose|k: nat| n == pow2(k);
    lemma2_to64();
    assert(k > 0);
    lemma_pow2_unfold(k);
    lemma_pow2_pos((k - 1) as nat);
    assert(n / 2 == pow2((k - 1) as nat));
}

/// A number is a power of two exactly if it is one, or is even with a half
/// that is a power of two. This decides the question for any given number.
pub proof fn lemma_power_of_two_by_halving(n: nat)
    ensures
        power_of_two(n) <==> (n == 1 || (n > 1 && n % 2 == 0 && power_of_two(n / 2))),
{
    if power_of_two(n) {
        lemma_power_of_two_positive(n);
        if n > 1 {
            lemma_power_of_two_halves(n);
        }
    }
    if n == 1 {
        lemma_one_is_power_of_two();
    }
    if n > 1 && n % 2 == 0 && power_of_two(n / 2) {
        lemma_power_of_two_doubles(n / 2);
    }
}

/// Twice a power of two is a power of two.
pub proof fn lemma_power_of_two_doubles(n: nat)
    requires
        power_of_two(n),
    ensures
        power_of_two(2 * n),
{
    let k = choose|k: nat| n == pow2(k);
    lemma_pow2_unfold(k + 1);
    assert(2 * n == pow2(k + 1));
}

/// Of two powers of two, the smaller divides the larger.
pub proof fn lemma_power_of_two_divides(a: nat, b: nat) -> (q: nat)
    requires
        power_of_two(a),
        power_of_two(b),
        a <= b,
    ensures
        q * a == b,
        q >= 1,
{
    let x = choose|x: nat| a == pow2(x);
    let y = choose|y: nat| b == pow2(y);
    if y < x {
        lemma_pow2_strictly_increases(y, x);
    }
    let d = (y - x) as nat;
    lemma_pow2_adds(d, x);
    lemma_pow2_pos(d);
    pow2(d)
}

/// Every power of two up to `2^19` is a valid size: these are all the powers
/// of two that do not exceed [`MAX_FFT_SIZE`].
pub proof fn lemma_valid_sizes(k: nat)
    ensures
        valid_size(pow2(k)) <==> k <= 19,
{
    lemma2_to64();
    assert(pow2(19) == 524288);
    assert(power_of_two(pow2(k)));
    if k < 19 {
        lemma_pow2_strictly_increases(k, 19);
        assert(pow2(k) <= MAX_FFT_SIZE);
    } else if k > 19 {
        lemma_pow2_strictly_increases(19, k);
        assert(pow2(k) > MAX_FFT_SIZE) by {
            if k > 20 {
                lemma_pow2_strictly_increases(20, k);
            }
        }
    }
}

} // verus!
