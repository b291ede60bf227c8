//! Bit sequences and their integer values.
//!
//! The circuit packs and unpacks field elements through bit vectors in two
//! orders: little-endian (index 0 is the least significant bit, as the fee
//! gadgets produce) and big-endian (index 0 is the most significant bit, as
//! the field-element packing gadget consumes). Both readings are modelled
//! here, together with the executable conversions the prover needs.

use vstd::prelude::*;
use vstd::arithmetic::div_mod::{
    lemma_breakdown, lemma_fundamental_div_mod, lemma_mod_multiples_vanish, lemma_small_mod,
};
use vstd::arithmetic::power2::{lemma2_to64, lemma_pow2_pos, lemma_pow2_unfold, pow2};

verus! {

/// The value of a bit sequence read most-significant bit first.
pub open spec fn be_value(s: Seq<bool>) -> nat
    decreases s.len(),
{
    if s.len() == 0 {
        0
    } else {
        2 * be_value(s.drop_last()) + (if s.last() {
            1nat
        } else {
            0nat
        })
    }
}

/// The value of a bit sequence read least-significant bit first.
pub open spec fn le_value(s: Seq<bool>) -> nat
    decreases s.len(),
{
    if s.len() == 0 {
        0
    } else {
        (if s[0] {
            1nat
        } else {
            0nat
        }) + 2 * le_value(s.skip(1))
    }
}

/// The `width` low bits of `n`, least-significant first.
pub open spec fn le_bits(n: nat, width: nat) -> Seq<bool>
    decreases width,
{
    if width == 0 {
        Seq::empty()
    } else {
        seq![n % 2 == 1] + le_bits(n / 2, (width - 1) as nat)
    }
}

/// A big-endian reading never reaches the power of two of its length.
pub proof fn lemma_be_value_bound(s: Seq<bool>)
    ensures
        be_value(s) < pow2(s.len()),
    decreases s.len(),
{
    if s.len() == 0 {
        lemma2_to64();
    } else {
        lemma_be_value_bound(s.drop_last());
        lemma_pow2_unfold(s.len());
    }
}

/// Reversing a sequence exchanges the two readings.
pub proof fn lemma_reverse_value(s: Seq<bool>)
    ensures
        be_value(s.reverse()) == le_value(s),
    decreases s.len(),
{
    if s.len() > 0 {
        assert(s.reverse().drop_last() =~= s.skip(1).reverse());
        assert(s.reverse().last() == s[0]);
        lemma_reverse_value(s.skip(1));
    }
}

/// `le_bits` has the width it was asked for.
pub proof fn lemma_le_bits_len(n: nat, width: nat)
    ensures
        le_bits(n, width).len() == width,
    decreases width,
{
    if width > 0 {
        lemma_le_bits_len(n / 2, (width - 1) as nat);
    }
}

/// The low bits of `n` read back as `n` reduced by the corresponding power of
/// two.
pub proof fn lemma_le_bits_value(n: nat, width: nat)
    ensures
        le_value(le_bits(n, width)) == n % pow2(width),
    decreases width,
{
    if width == 0 {
        lemma2_to64();
        lemma_small_mod(0, 1);
        assert(n % 1 == 0) by {
            lemma_fundamental_div_mod(n as int, 1);
        }
    } else {
        let tail = le_bits(n / 2, (width - 1) as nat);
        assert((seq![n % 2 == 1] + tail)[0] == (n % 2 == 1));
        assert((seq![n % 2 == 1] + tail).skip(1) =~= tail);
        lemma_le_bits_value(n / 2, (width - 1) as nat);
        lemma_pow2_unfold(width);
        lemma_pow2_pos((width - 1) as nat);
        assert(n % (2 * pow2((width - 1) as nat)) == 2 * ((n / 2) % pow2((width - 1) as nat)) + n
            % 2) by {
            lemma_breakdown(n as int, 2, pow2((width - 1) as nat) as int);
        }
        assert((if n % 2 == 1 {
            1nat
        } else {
            0nat
        }) == n % 2);
    }
}

/// Every value below `pow2(width)` is the big-endian reading of exactly the
/// reversed low-bit sequence, so a `width`-bit witness for it exists.
pub proof fn lemma_nat_to_be_bits(n: nat, width: nat)
    requires
        n < pow2(width),
    ensures
        le_bits(n, width).reverse().len() == width,
        be_value(le_bits(n, width).reverse()) == n,
{
    lemma_le_bits_len(n, width);
    lemma_le_bits_value(n, width);
    lemma_reverse_value(le_bits(n, width));
    lemma_small_mod(n, pow2(width));
}

/// Converts the `width` low bits of `x` to a vector, least-significant first.
pub fn u64_le_bits(x: u64, width: usize) -> (r: Vec<bool>)
    requires
        width <= 64,
    ensures
        r@ == le_bits(x as nat, width as nat),
        r@.len() == width,
{
    let mut r: Vec<bool> = Vec::new();
    let mut cur: u64 = x;
    let mut i: usize = 0;
    proof {
        lemma_le_bits_len(x as nat, width as nat);
        assert(le_bits(x as nat, width as nat) =~= r@ + le_bits(
            cur as nat,
            (width - i) as nat,
        ));
    }
    while i < width
        invariant
            i <= width,
            r@.len() == i,
            le_bits(x as nat, width as nat) == r@ + le_bits(cur as nat, (width - i) as nat),
        decreases width - i,
    {
        let bit = cur % 2 == 1;
        proof {
            assert(le_bits(cur as nat, (width - i) as nat) == seq![cur as nat % 2 == 1] + le_bits(
                cur as nat / 2,
                (width - i - 1) as nat,
            ));
            assert(r@.push(bit) + le_bits(cur as nat / 2, (width - i - 1) as nat) =~= r@ + le_bits(
                cur as nat,
                (width - i) as nat,
            ));
        }
        r.push(bit);
        cur = cur / 2;
        i = i + 1;
    }
    proof {
        assert(le_bits(cur as nat, 0) =~= Seq::<bool>::empty());
        assert(r@ + le_bits(cur as nat, 0) =~= r@);
        lemma_le_bits_len(x as nat, width as nat);
    }
    r
}

/// Reverses a bit vector.
pub fn reverse_bits(v: &Vec<bool>) -> (r: Vec<bool>)
    ensures
        r@ == v@.reverse(),
{
    let mut r: Vec<bool> = Vec::new();
    let mut i: usize = 0;
    while i < v.len()
        invariant
            i <= v@.len(),
            r@.len() == i,
            forall|j: int| 0 <= j < i ==> r@[j] == v@[v@.len() - 1 - j],
        decreases v@.len() - i,
    {
        r.push(v[v.len() - 1 - i]);
        i = i + 1;
    }
    proof {
        assert(r@ =~= v@.reverse());
    }
    r
}

/// Reads a short big-endian bit vector back into a machine word.
pub fn be_bits_to_u64(bits: &Vec<bool>) -> (r: u64)
    requires
        bits@.len() <= 64,
    ensures
        r == be_value(bits@),
{
    let mut r: u64 = 0;
    let mut i: usize = 0;
    proof {
        assert(bits@.take(0) =~= Seq::<bool>::empty());
        lemma2_to64();
    }
    while i < bits.len()
        invariant
            i <= bits@.len() <= 64,
            r == be_value(bits@.take(i as int)),
            r < pow2(i as nat),
        decreases bits@.len() - i,
    {
        proof {
            assert(bits@.take(i + 1).drop_last() =~= bits@.take(i as int));
            assert(bits@.take(i + 1).last() == bits@[i as int]);
            lemma_pow2_unfold((i + 1) as nat);
            lemma2_to64();
            let next: nat = (i + 1) as nat;
            if next < 64 {
                vstd::arithmetic::power2::lemma_pow2_strictly_increases(next, 64);
            }
        }
        let bit: u64 = if bits[i] {
            1
        } else {
            0
        };
        r = 2 * r + bit;
        i = i + 1;
    }
    proof {
        assert(bits@.take(bits@.len() as int) =~= bits@);
    }
    r
}

/// How many of the bits are set, in order of the sequence.
pub open spec fn count_true(s: Seq<bool>) -> nat
    decreases s.len(),
{
    if s.len() == 0 {
        0
    } else {
        count_true(s.drop_last()) + (if s.last() {
            1nat
        } else {
            0nat
        })
    }
}

/// No more bits are set than there are bits.
pub proof fn lemma_count_true_bound(s: Seq<bool>)
    ensures
        count_true(s) <= s.len(),
    decreases s.len(),
{
    if s.len() > 0 {
        lemma_count_true_bound(s.drop_last());
    }
}

/// Counts the set bits of a vector of verdicts.
pub fn count_true_exec(v: &Vec<bool>) -> (r: u64)
    requires
        v@.len() <= u64::MAX,
    ensures
        r == count_true(v@),
{
    let mut r: u64 = 0;
    let mut i: usize = 0;
    proof {
        assert(v@.take(0) =~= Seq::<bool>::empty());
    }
    while i < v.len()
        invariant
            i <= v@.len() <= u64::MAX,
            r == count_true(v@.take(i as int)),
        decreases v@.len() - i,
    {
        proof {
            assert(v@.take(i + 1).drop_last() =~= v@.take(i as int));
            assert(v@.take(i + 1).last() == v@[i as int]);
            lemma_count_true_bound(v@.take(i + 1));
        }
        if v[i] {
            r = r + 1;
        }
        i = i + 1;
    }
    proof {
        assert(v@.take(v@.len() as int) =~= v@);
    }
    r
}

} // verus!
