use vstd::prelude::*;
use crate::size::{power_of_two, lemma_power_of_two_halves, lemma_power_of_two_positive};

verus! {

/// The index whose binary digits are those of `i` in reverse order, where the
/// indices below `n` are written with as many digits as `n - 1` has. The
/// lowest digit of `i` becomes the highest digit of the result.
pub open spec fn reverse_index(n: nat, i: nat) -> nat
    decreases n,
{
    if n <= 1 {
        0
    } else if i % 2 == 1 {
        n / 2 + reverse_index(n / 2, i / 2)
    } else {
        reverse_index(n / 2, i / 2)
    }
}

/// The interleaved buffer of `n` samples in which sample `k` is sample
/// `reverse_index(n, k)` of `buf`.
pub open spec fn bit_reversed<T>(buf: Seq<T>, n: nat) -> Seq<T> {
    Seq::new(buf.len(), |p: int| buf[2 * (reverse_index(n, (p / 2) as nat) as int) + p % 2])
}

/// Where sample `k` comes from once every exchange for the indices below
/// `done` has been made: a pair is exchanged as soon as its smaller index is
/// reached.
pub open spec fn source_index(n: nat, done: nat, k: nat) -> nat {
    if k < done || reverse_index(n, k) < done {
        reverse_index(n, k)
    } else {
        k
    }
}

/// Sample `k` of `cur` is sample `s` of `orig`.
pub open spec fn sample_is<T>(cur: Seq<T>, orig: Seq<T>, k: nat, s: nat) -> bool {
    &&& cur[2 * (k as int)] == orig[2 * (s as int)]
    &&& cur[2 * (k as int) + 1] == orig[2 * (s as int) + 1]
}

/// Reversal maps the indices below `n` to indices below `n`.
pub proof fn lemma_reverse_index_bound(n: nat, i: nat)
    requires
        power_of_two(n),
        i < n,
    ensures
        reverse_index(n, i) < n,
    decreases n,
{
    if n > 1 {
        lemma_power_of_two_halves(n);
        lemma_reverse_index_bound(n / 2, i / 2);
    }
}

/// Index zero stays where it is.
pub proof fn lemma_reverse_index_zero(n: nat)
    ensures
        reverse_index(n, 0) == 0,
    decreases n,
{
    if n > 1 {
        lemma_reverse_index_zero(n / 2);
    }
}

/// Reversal read from the highest digit: the highest digit of `i` becomes the
/// lowest digit of the result.
pub proof fn lemma_reverse_index_from_top(n: nat, i: nat)
    requires
        power_of_two(n),
        n >= 2,
        i < n,
    ensures
        reverse_index(n, i) == if i >= n / 2 {
            2 * reverse_index(n / 2, (i - n / 2) as nat) + 1
        } else {
            2 * reverse_index(n / 2, i)
        },
    decreases n,
{
    lemma_power_of_two_halves(n);
    let h = n / 2;
    if h == 1 {
        assert(reverse_index(1, i / 2) == 0);
        assert(reverse_index(1, i) == 0);
        assert(reverse_index(1, (i - 1) as nat) == 0);
    } else {
        lemma_power_of_two_halves(h);
        lemma_reverse_index_from_top(h, i / 2);
        if i >= h {
            assert(((i - h) as nat) / 2 == i / 2 - h / 2);
            assert(((i - h) as nat) % 2 == i % 2);
        }
    }
}

/// Reversing twice gives the index back.
pub proof fn lemma_reverse_index_involution(n: nat, i: nat)
    requires
        power_of_two(n),
        i < n,
    ensures
        reverse_index(n, reverse_index(n, i)) == i,
    decreases n,
{
    if n > 1 {
        lemma_power_of_two_halves(n);
        let h = n / 2;
        let s = reverse_index(h, i / 2);
        lemma_reverse_index_bound(h, i / 2);
        lemma_reverse_index_involution(h, i / 2);
        lemma_reverse_index_from_top(n, reverse_index(n, i));
    } else {
        lemma_power_of_two_positive(n);
    }
}

/// Applying the permutation twice restores the buffer.
pub proof fn lemma_bit_reversed_twice<T>(buf: Seq<T>, n: nat)
    requires
        power_of_two(n),
        buf.len() == 2 * n,
    ensures
        bit_reversed(bit_reversed(buf, n), n) == buf,
{
    let once = bit_reversed(buf, n);
    let twice = bit_reversed(once, n);
    assert forall|p: int| 0 <= p < buf.len() implies twice[p] == buf[p] by {
        let k = (p / 2) as nat;
        lemma_reverse_index_bound(n, k);
        lemma_reverse_index_involution(n, k);
        let q = 2 * reverse_index(n, k) + p % 2;
        assert(twice[p] == once[q]);
        assert((q / 2) as nat == reverse_index(n, k));
        assert(q % 2 == p % 2);
    }
    assert(twice =~= buf);
}

/// Advances `j` from the reversal of `i - 1` to the reversal of `i`: walking
/// down from the highest digit, the leading ones are cleared and the first
/// zero is set.
fn next_reversed(size: usize, i: usize, j: usize) -> (r: usize)
    requires
        power_of_two(size as nat),
        1 <= i < size,
        j == reverse_index(size as nat, (i - 1) as nat),
    ensures
        r == reverse_index(size as nat, i as nat),
        r < size,
{
    let ghost n = size as nat;
    let ghost mut m: nat = n;
    let ghost mut x: nat = (i - 1) as nat;
    let mut j = j;
    let mut bit = size >> 1;
    assert(size >> 1 == size / 2) by (bit_vector);
    while j >= bit
        invariant
            power_of_two(m),
            m <= n,
            x + 1 < m,
            bit == m / 2,
            j == reverse_index(m, x),
            reverse_index(n, i as nat) == reverse_index(m, x + 1),
        decreases bit,
    {
        proof {
            lemma_power_of_two_halves(m);
            lemma_reverse_index_bound(m / 2, x / 2);
            assert(x % 2 == 1);
            assert((x + 1) / 2 == x / 2 + 1);
        }
        j -= bit;
        assert(bit >> 1 == bit / 2) by (bit_vector);
        bit >>= 1;
        proof {
            m = m / 2;
            x = x / 2;
        }
    }
    proof {
        lemma_power_of_two_halves(m);
        lemma_reverse_index_bound(m / 2, x / 2);
        assert(x % 2 == 0);
        assert((x + 1) / 2 == x / 2);
        lemma_reverse_index_bound(n, i as nat);
    }
    j += bit;
    j
}

/// Reorders the samples of an interleaved buffer into bit-reversed index
/// order, exchanging each pair of samples once.
pub(crate) fn permute<T: Copy>(buffer: &mut Vec<T>, size: usize)
    requires
        power_of_two(size as nat),
        old(buffer).len() == 2 * size,
    ensures
        final(buffer)@ == bit_reversed(old(buffer)@, size as nat),
{
    let ghost orig = buffer@;
    let ghost n = size as nat;
    let mut j: usize = 0;
    let mut i: usize = 1;
    proof {
        lemma_power_of_two_positive(n);
        lemma_reverse_index_zero(n);
        assert forall|k: nat| k < n implies sample_is(
            buffer@,
            orig,
            k,
            #[trigger] source_index(n, 1, k),
        ) by {
            lemma_reverse_index_involution(n, k);
        }
    }
    while i < size
        invariant
            power_of_two(n),
            n == size,
            1 <= i <= size,
            buffer.len() == 2 * size,
            orig.len() == 2 * size,
            j == reverse_index(n, (i - 1) as nat),
            forall|k: nat|
                k < n ==> sample_is(buffer@, orig, k, #[trigger] source_index(n, i as nat, k)),
        decreases size - i,
    {
        j = next_reversed(size, i, j);
        let ghost before = buffer@;
        if i < j {
            let i2 = i * 2;
            let j2 = j * 2;
            let a_re = buffer[i2];
            let a_im = buffer[i2 + 1];
            let b_re = buffer[j2];
            let b_im = buffer[j2 + 1];
            buffer[i2] = b_re;
            buffer[i2 + 1] = b_im;
            buffer[j2] = a_re;
            buffer[j2 + 1] = a_im;
        }
        i += 1;
        proof {
            let done = (i - 1) as nat;
            lemma_reverse_index_involution(n, done);
            assert forall|k: nat| k < n implies sample_is(
                buffer@,
                orig,
                k,
                #[trigger] source_index(n, i as nat, k),
            ) by {
                lemma_reverse_index_involution(n, k);
                assert(sample_is(before, orig, k, source_index(n, done, k)));
                assert(sample_is(before, orig, done, source_index(n, done, done)));
                assert(sample_is(before, orig, j as nat, source_index(n, done, j as nat)));
            }
        }
    }
    proof {
        assert forall|p: int| 0 <= p < buffer@.len() implies buffer@[p] == bit_reversed(orig, n)[p] by {
            let k = (p / 2) as nat;
            assert(sample_is(buffer@, orig, k, source_index(n, n, k)));
        }
        assert(buffer@ =~= bit_reversed(orig, n));
    }
}

} // verus!
