//! Packing the two certificate fees into one field element.
//!
//! The wire format concatenates the little-endian bits of the
//! backward-transfer fee with the little-endian bits of the forward-transfer
//! minimum fee, reverses the 128-bit sequence, and reads it back
//! most-significant bit first as the representative of one field element.
//! That reading equals `btr_fee + ft_min_fee * 2^64`, which is what the
//! executable packer computes; the bit-level construction is proved equal to
//! it, so any reimplementation that packs differently is caught by these
//! contracts.

use crate::bits::{
    be_value, le_bits, le_value, lemma_le_bits_len, lemma_le_bits_value, lemma_reverse_value,
};
use crate::field::lemma2_to64_high;
use vstd::arithmetic::div_mod::{lemma_fundamental_div_mod_converse, lemma_small_mod};
use vstd::arithmetic::power2::{lemma_pow2_pos, pow2};
use vstd::prelude::*;

verus! {

/// The 128-bit fee sequence of the wire format: little-endian bits of each
/// fee, concatenated, then reversed.
pub open spec fn fee_bits(btr_fee: u64, ft_min_fee: u64) -> Seq<bool> {
    (le_bits(btr_fee as nat, 64) + le_bits(ft_min_fee as nat, 64)).reverse()
}

/// The packed fee value.
pub open spec fn fees_value(btr_fee: u64, ft_min_fee: u64) -> nat {
    (btr_fee + ft_min_fee * pow2(64)) as nat
}

/// The big-endian reading of the wire-format fee sequence is exactly the
/// packed fee value.
pub proof fn lemma_fee_bits_value(btr_fee: u64, ft_min_fee: u64)
    ensures
        fee_bits(btr_fee, ft_min_fee).len() == 128,
        be_value(fee_bits(btr_fee, ft_min_fee)) == fees_value(btr_fee, ft_min_fee),
{
    let lo = le_bits(btr_fee as nat, 64);
    let hi = le_bits(ft_min_fee as nat, 64);
    lemma_le_bits_len(btr_fee as nat, 64);
    lemma_le_bits_len(ft_min_fee as nat, 64);
    lemma_reverse_value(lo + hi);
    lemma_le_value_append_64(lo, hi);
    lemma_le_bits_value(btr_fee as nat, 64);
    lemma_le_bits_value(ft_min_fee as nat, 64);
    lemma2_to64_high();
    lemma_small_mod(btr_fee as nat, pow2(64));
    lemma_small_mod(ft_min_fee as nat, pow2(64));
}

/// Appending on the little-endian side shifts the suffix up by the prefix
/// length; stated for a 64-bit prefix, which is the one use here.
proof fn lemma_le_value_append_64(a: Seq<bool>, b: Seq<bool>)
    requires
        a.len() == 64,
    ensures
        le_value(a + b) == le_value(a) + pow2(64) * le_value(b),
{
    lemma_le_value_append(a, b);
}

/// Appending on the little-endian side shifts the suffix up by the prefix
/// length.
proof fn lemma_le_value_append(a: Seq<bool>, b: Seq<bool>)
    ensures
        le_value(a + b) == le_value(a) + pow2(a.len()) * le_value(b),
    decreases a.len(),
{
    if a.len() == 0 {
        assert(a + b =~= b);
        vstd::arithmetic::power2::lemma2_to64();
        assert(pow2(0) * le_value(b) == le_value(b)) by (nonlinear_arith)
            requires
                pow2(0) == 1,
        ;
    } else {
        assert((a + b)[0] == a[0]);
        assert((a + b).skip(1) =~= a.skip(1) + b);
        lemma_le_value_append(a.skip(1), b);
        vstd::arithmetic::power2::lemma_pow2_unfold(a.len());
        assert(2 * (le_value(a.skip(1)) + pow2((a.len() - 1) as nat) * le_value(b)) == 2
            * le_value(a.skip(1)) + 2 * (pow2((a.len() - 1) as nat) * le_value(b)));
        assert(2 * (pow2((a.len() - 1) as nat) * le_value(b)) == pow2(a.len()) * le_value(b))
            by (nonlinear_arith)
            requires
                pow2(a.len()) == 2 * pow2((a.len() - 1) as nat),
        ;
    }
}

/// Packs the two 64-bit certificate fees into the representative of one
/// field element: the low half is the backward-transfer fee, the high half
/// the forward-transfer minimum fee.
pub fn pack_fees(btr_fee: u64, ft_min_fee: u64) -> (r: u128)
    ensures
        r == fees_value(btr_fee, ft_min_fee),
        r == be_value(fee_bits(btr_fee, ft_min_fee)),
{
    proof {
        lemma2_to64_high();
        lemma_fee_bits_value(btr_fee, ft_min_fee);
    }
    btr_fee as u128 + (ft_min_fee as u128) * 0x1_0000_0000_0000_0000
}

/// Recovers the two fees from a packed value: the round trip of the packer.
pub fn unpack_fees(packed: u128) -> (r: (u64, u64))
    ensures
        packed == fees_value(r.0, r.1),
        forall|btr_fee: u64, ft_min_fee: u64|
            fees_value(btr_fee, ft_min_fee) == packed ==> r.0 == btr_fee && r.1 == ft_min_fee,
{
    let btr_fee = (packed % 0x1_0000_0000_0000_0000) as u64;
    let ft_min_fee = (packed / 0x1_0000_0000_0000_0000) as u64;
    proof {
        lemma2_to64_high();
        vstd::arithmetic::div_mod::lemma_fundamental_div_mod(packed as int, pow2(64) as int);
        assert forall|b: u64, f: u64| fees_value(b, f) == packed implies btr_fee == b
            && ft_min_fee == f by {
            lemma_fees_value_injective(b, f, btr_fee, ft_min_fee);
        }
    }
    (btr_fee, ft_min_fee)
}

/// Two fee pairs with the same packed value are the same pair: packing is
/// lossless for every 64-bit pair, including zero and the maximum.
pub proof fn lemma_fees_value_injective(b1: u64, f1: u64, b2: u64, f2: u64)
    requires
        fees_value(b1, f1) == fees_value(b2, f2),
    ensures
        b1 == b2,
        f1 == f2,
{
    lemma2_to64_high();
    lemma_pow2_pos(64);
    assert((fees_value(b1, f1)) as int == (f1 as int) * (pow2(64) as int) + (b1 as int))
        by (nonlinear_arith);
    assert((fees_value(b2, f2)) as int == (f2 as int) * (pow2(64) as int) + (b2 as int))
        by (nonlinear_arith);
    lemma_fundamental_div_mod_converse(
        fees_value(b1, f1) as int,
        pow2(64) as int,
        f1 as int,
        b1 as int,
    );
    lemma_fundamental_div_mod_converse(
        fees_value(b2, f2) as int,
        pow2(64) as int,
        f2 as int,
        b2 as int,
    );
}

/// Unpacking a packed fee pair gives the pair back, for every pair of
/// 64-bit values.
pub proof fn lemma_fee_packing_round_trip(btr_fee: u64, ft_min_fee: u64)
    ensures
        fees_value(btr_fee, ft_min_fee) % pow2(64) == btr_fee,
        fees_value(btr_fee, ft_min_fee) / pow2(64) == ft_min_fee,
{
    lemma2_to64_high();
    lemma_pow2_pos(64);
    assert((fees_value(btr_fee, ft_min_fee)) as int == (ft_min_fee as int) * (pow2(64) as int) + (
    btr_fee as int)) by (nonlinear_arith);
    lemma_fundamental_div_mod_converse(
        fees_value(btr_fee, ft_min_fee) as int,
        pow2(64) as int,
        ft_min_fee as int,
        btr_fee as int,
    );
}

} // verus!
