//! Plain-value field elements.
//!
//! The certificate logic never performs field arithmetic itself: every
//! element it handles is either built from machine integers (an epoch
//! number, a packed fee value, a counter) or received opaquely from the
//! hashing and signing primitives and passed along or compared. An element
//! is therefore held as its canonical 256-bit integer representative, in
//! four 64-bit limbs, little-endian.

use crate::bits::{be_value, lemma_le_bits_value, lemma_reverse_value, reverse_bits, u64_le_bits};
use vstd::arithmetic::div_mod::{
    lemma_fundamental_div_mod, lemma_fundamental_div_mod_converse, lemma_mod_multiples_vanish,
};
use vstd::arithmetic::power2::{lemma2_to64, lemma_pow2_adds, lemma_pow2_pos, pow2};
use vstd::prelude::*;

verus! {

/// A field element as its canonical integer representative, four 64-bit
/// limbs in little-endian order.
#[derive(Clone, Copy, PartialEq, Eq, Structural, Debug)]
pub struct FieldElement {
    pub l0: u64,
    pub l1: u64,
    pub l2: u64,
    pub l3: u64,
}

impl FieldElement {
    /// The integer this element represents.
    pub open spec fn value(self) -> nat {
        (self.l0 + pow2(64) * (self.l1 + pow2(64) * (self.l2 + pow2(64) * self.l3))) as nat
    }

    /// The element with representative `x`.
    pub fn from_u64(x: u64) -> (r: Self)
        ensures
            r.value() == x,
    {
        let r = FieldElement { l0: x, l1: 0, l2: 0, l3: 0 };
        proof {
            lemma_pow2_pos(64);
        }
        r
    }

    /// The element with representative `x`; epoch numbers enter this way.
    pub fn from_u32(x: u32) -> (r: Self)
        ensures
            r.value() == x,
    {
        Self::from_u64(x as u64)
    }

    /// The element with representative `x`; the packed fee value enters this
    /// way.
    pub fn from_u128(x: u128) -> (r: Self)
        ensures
            r.value() == x,
    {
        let l0 = (x % 0x1_0000_0000_0000_0000) as u64;
        let l1 = (x / 0x1_0000_0000_0000_0000) as u64;
        let r = FieldElement { l0, l1, l2: 0, l3: 0 };
        proof {
            lemma2_to64_high();
            lemma_pow2_pos(64);
            lemma_fundamental_div_mod(x as int, pow2(64) as int);
            assert(r.value() == l0 + pow2(64) * l1);
        }
        r
    }

    /// The zero element.
    pub fn zero() -> (r: Self)
        ensures
            r.value() == 0,
    {
        Self::from_u64(0)
    }

    /// The one element; the filler signature is built from it.
    pub fn one() -> (r: Self)
        ensures
            r.value() == 1,
    {
        Self::from_u64(1)
    }

    /// The `width` low bits of the representative, most-significant first:
    /// the tail of the element's full big-endian bit decomposition.
    pub fn low_bits_be(&self, width: usize) -> (r: Vec<bool>)
        requires
            width <= 64,
        ensures
            r@.len() == width,
            be_value(r@) == self.value() % pow2(width as nat),
    {
        let le = u64_le_bits(self.l0, width);
        let r = reverse_bits(&le);
        proof {
            lemma_reverse_value(le@);
            lemma_le_bits_value(self.l0 as nat, width as nat);
            lemma_low_bits_only_first_limb(*self, width as nat);
        }
        r
    }
}

/// Byte `i` of the canonical 32-byte little-endian encoding: the wire
/// format for field elements.
pub open spec fn fe_byte(fe: FieldElement, i: int) -> u8 {
    let limb = if i < 8 {
        fe.l0
    } else if i < 16 {
        fe.l1
    } else if i < 24 {
        fe.l2
    } else {
        fe.l3
    };
    (((limb as nat) / pow2((8 * (i % 8)) as nat)) % 256) as u8
}

/// The canonical 32-byte little-endian encoding.
pub open spec fn bytes_of(fe: FieldElement) -> Seq<u8> {
    Seq::new(32, |i: int| fe_byte(fe, i))
}

/// The little-endian bytes of one limb.
fn push_limb_bytes(r: &mut Vec<u8>, limb: u64)
    ensures
        final(r)@.len() == old(r)@.len() + 8,
        forall|i: int| 0 <= i < old(r)@.len() ==> final(r)@[i] == old(r)@[i],
        forall|j: int|
            #![trigger pow2((8 * j) as nat)]
            0 <= j < 8 ==> final(r)@[old(r)@.len() + j] == (((limb as nat) / pow2(
                (8 * j) as nat,
            )) % 256) as u8,
{
    let base = Ghost(r@.len());
    let mut cur: u64 = limb;
    let mut j: usize = 0;
    proof {
        lemma2_to64();
        vstd::arithmetic::div_mod::lemma_div_basics(limb as int);
        assert((limb as nat) / pow2(0) == limb as nat);
    }
    while j < 8
        invariant
            j <= 8,
            r@.len() == base@ + j,
            cur == (limb as nat) / pow2((8 * j) as nat),
            forall|i: int| 0 <= i < base@ ==> r@[i] == old(r)@[i],
            forall|i: int|
                #![trigger pow2((8 * i) as nat)]
                0 <= i < j ==> r@[base@ + i] == (((limb as nat) / pow2((8 * i) as nat))
                    % 256) as u8,
        decreases 8 - j,
    {
        r.push((cur % 256) as u8);
        cur = cur / 256;
        proof {
            lemma2_to64();
            lemma_pow2_pos((8 * j) as nat);
            vstd::arithmetic::div_mod::lemma_div_denominator(
                limb as int,
                pow2((8 * j) as nat) as int,
                256,
            );
            lemma_pow2_adds((8 * j) as nat, 8);
        }
        j = j + 1;
    }
}

/// A limb reassembled from its eight little-endian bytes has exactly those
/// bytes.
proof fn lemma_limb_from_bytes(
    b0: u8,
    b1: u8,
    b2: u8,
    b3: u8,
    b4: u8,
    b5: u8,
    b6: u8,
    b7: u8,
    limb: u64,
)
    by (bit_vector)
    requires
        limb == b0 as u64 + 256 * (b1 as u64 + 256 * (b2 as u64 + 256 * (b3 as u64 + 256 * (
        b4 as u64 + 256 * (b5 as u64 + 256 * (b6 as u64 + 256 * (b7 as u64))))))),
    ensures
        limb % 256 == b0,
        limb / 0x100 % 256 == b1,
        limb / 0x1_0000 % 256 == b2,
        limb / 0x100_0000 % 256 == b3,
        limb / 0x1_0000_0000 % 256 == b4,
        limb / 0x100_0000_0000 % 256 == b5,
        limb / 0x1_0000_0000_0000 % 256 == b6,
        limb / 0x100_0000_0000_0000 % 256 == b7,
{
}

/// Reads one limb out of eight little-endian bytes of the encoding.
fn limb_from_bytes(bytes: &Vec<u8>, base: usize) -> (r: u64)
    requires
        base + 8 <= bytes@.len(),
    ensures
        forall|j: int|
            #![trigger pow2((8 * j) as nat)]
            0 <= j < 8 ==> (((r as nat) / pow2((8 * j) as nat)) % 256) as u8 == bytes@[base + j],
{
    let n = bytes.len();
    let b0 = bytes[base];
    let b1 = bytes[base + 1];
    let b2 = bytes[base + 2];
    let b3 = bytes[base + 3];
    let b4 = bytes[base + 4];
    let b5 = bytes[base + 5];
    let b6 = bytes[base + 6];
    let b7 = bytes[base + 7];
    let r = b0 as u64 + 256 * (b1 as u64 + 256 * (b2 as u64 + 256 * (b3 as u64 + 256 * (
    b4 as u64 + 256 * (b5 as u64 + 256 * (b6 as u64 + 256 * (b7 as u64)))))));
    proof {
        lemma_limb_from_bytes(b0, b1, b2, b3, b4, b5, b6, b7, r);
        lemma2_to64();
        vstd::arithmetic::power2::lemma2_to64_rest();
        vstd::arithmetic::div_mod::lemma_div_basics(r as int);
        assert forall|j: int|
            #![trigger pow2((8 * j) as nat)]
            0 <= j < 8 implies (((r as nat) / pow2((8 * j) as nat)) % 256) as u8 == bytes@[base
            + j] by {
            if j == 0 {
                assert((r as nat) / pow2(0) == r as nat);
                assert((r as nat) % 256 == r % 256);
            } else if j == 1 {
                assert((r as nat) / pow2(8) == r / 0x100);
            } else if j == 2 {
                assert((r as nat) / pow2(16) == r / 0x1_0000);
            } else if j == 3 {
                assert((r as nat) / pow2(24) == r / 0x100_0000);
            } else if j == 4 {
                assert((r as nat) / pow2(32) == r / 0x1_0000_0000);
            } else if j == 5 {
                assert((r as nat) / pow2(40) == r / 0x100_0000_0000);
            } else if j == 6 {
                assert((r as nat) / pow2(48) == r / 0x1_0000_0000_0000);
            } else {
                assert((r as nat) / pow2(56) == r / 0x100_0000_0000_0000);
            }
        }
    }
    r
}

impl FieldElement {
    /// Serializes the element into the 32-byte little-endian wire
    /// encoding.
    pub fn to_bytes(&self) -> (r: Vec<u8>)
        ensures
            r@ == bytes_of(*self),
    {
        let mut r: Vec<u8> = Vec::new();
        push_limb_bytes(&mut r, self.l0);
        push_limb_bytes(&mut r, self.l1);
        push_limb_bytes(&mut r, self.l2);
        push_limb_bytes(&mut r, self.l3);
        proof {
            assert(r@ =~= bytes_of(*self));
        }
        r
    }

    /// Deserializes an element from the 32-byte little-endian wire
    /// encoding; anything of another length is malformed and rejected.
    pub fn from_bytes(bytes: &Vec<u8>) -> (r: Option<FieldElement>)
        ensures
            r is Some <==> bytes@.len() == 32,
            r matches Some(fe) ==> bytes_of(fe) == bytes@,
    {
        if bytes.len() != 32 {
            return None;
        }
        let l0 = limb_from_bytes(bytes, 0);
        let l1 = limb_from_bytes(bytes, 8);
        let l2 = limb_from_bytes(bytes, 16);
        let l3 = limb_from_bytes(bytes, 24);
        let fe = FieldElement { l0, l1, l2, l3 };
        proof {
            assert(bytes_of(fe) =~= bytes@);
        }
        Some(fe)
    }
}

/// Two elements with the same encoding are the same element: together with
/// `from_bytes`, the encoding round-trips in both directions.
pub proof fn lemma_bytes_of_injective(a: FieldElement, b: FieldElement)
    requires
        bytes_of(a) == bytes_of(b),
    ensures
        a == b,
{
    assert forall|i: int| 0 <= i < 32 implies #[trigger] fe_byte(a, i) == fe_byte(b, i) by {
        assert(fe_byte(a, i) == bytes_of(a)[i]);
        assert(fe_byte(b, i) == bytes_of(b)[i]);
    }
    assert(((a.l0 as nat / pow2(0)) % 256) as u8 == ((b.l0 as nat / pow2(0))
        % 256) as u8) by {
        assert(fe_byte(a, 0) == fe_byte(b, 0));
    }
    assert(((a.l0 as nat / pow2(8)) % 256) as u8 == ((b.l0 as nat / pow2(8))
        % 256) as u8) by {
        assert(fe_byte(a, 1) == fe_byte(b, 1));
    }
    assert(((a.l0 as nat / pow2(16)) % 256) as u8 == ((b.l0 as nat / pow2(16))
        % 256) as u8) by {
        assert(fe_byte(a, 2) == fe_byte(b, 2));
    }
    assert(((a.l0 as nat / pow2(24)) % 256) as u8 == ((b.l0 as nat / pow2(24))
        % 256) as u8) by {
        assert(fe_byte(a, 3) == fe_byte(b, 3));
    }
    assert(((a.l0 as nat / pow2(32)) % 256) as u8 == ((b.l0 as nat / pow2(32))
        % 256) as u8) by {
        assert(fe_byte(a, 4) == fe_byte(b, 4));
    }
    assert(((a.l0 as nat / pow2(40)) % 256) as u8 == ((b.l0 as nat / pow2(40))
        % 256) as u8) by {
        assert(fe_byte(a, 5) == fe_byte(b, 5));
    }
    assert(((a.l0 as nat / pow2(48)) % 256) as u8 == ((b.l0 as nat / pow2(48))
        % 256) as u8) by {
        assert(fe_byte(a, 6) == fe_byte(b, 6));
    }
    assert(((a.l0 as nat / pow2(56)) % 256) as u8 == ((b.l0 as nat / pow2(56))
        % 256) as u8) by {
        assert(fe_byte(a, 7) == fe_byte(b, 7));
    }
    lemma_limb_determined_by_bytes(a.l0, b.l0);
    assert(((a.l1 as nat / pow2(0)) % 256) as u8 == ((b.l1 as nat / pow2(0))
        % 256) as u8) by {
        assert(fe_byte(a, 8) == fe_byte(b, 8));
    }
    assert(((a.l1 as nat / pow2(8)) % 256) as u8 == ((b.l1 as nat / pow2(8))
        % 256) as u8) by {
        assert(fe_byte(a, 9) == fe_byte(b, 9));
    }
    assert(((a.l1 as nat / pow2(16)) % 256) as u8 == ((b.l1 as nat / pow2(16))
        % 256) as u8) by {
        assert(fe_byte(a, 10) == fe_byte(b, 10));
    }
    assert(((a.l1 as nat / pow2(24)) % 256) as u8 == ((b.l1 as nat / pow2(24))
        % 256) as u8) by {
        assert(fe_byte(a, 11) == fe_byte(b, 11));
    }
    assert(((a.l1 as nat / pow2(32)) % 256) as u8 == ((b.l1 as nat / pow2(32))
        % 256) as u8) by {
        assert(fe_byte(a, 12) == fe_byte(b, 12));
    }
    assert(((a.l1 as nat / pow2(40)) % 256) as u8 == ((b.l1 as nat / pow2(40))
        % 256) as u8) by {
        assert(fe_byte(a, 13) == fe_byte(b, 13));
    }
    assert(((a.l1 as nat / pow2(48)) % 256) as u8 == ((b.l1 as nat / pow2(48))
        % 256) as u8) by {
        assert(fe_byte(a, 14) == fe_byte(b, 14));
    }
    assert(((a.l1 as nat / pow2(56)) % 256) as u8 == ((b.l1 as nat / pow2(56))
        % 256) as u8) by {
        assert(fe_byte(a, 15) == fe_byte(b, 15));
    }
    lemma_limb_determined_by_bytes(a.l1, b.l1);
    assert(((a.l2 as nat / pow2(0)) % 256) as u8 == ((b.l2 as nat / pow2(0))
        % 256) as u8) by {
        assert(fe_byte(a, 16) == fe_byte(b, 16));
    }
    assert(((a.l2 as nat / pow2(8)) % 256) as u8 == ((b.l2 as nat / pow2(8))
        % 256) as u8) by {
        assert(fe_byte(a, 17) == fe_byte(b, 17));
    }
    assert(((a.l2 as nat / pow2(16)) % 256) as u8 == ((b.l2 as nat / pow2(16))
        % 256) as u8) by {
        assert(fe_byte(a, 18) == fe_byte(b, 18));
    }
    assert(((a.l2 as nat / pow2(24)) % 256) as u8 == ((b.l2 as nat / pow2(24))
        % 256) as u8) by {
        assert(fe_byte(a, 19) == fe_byte(b, 19));
    }
    assert(((a.l2 as nat / pow2(32)) % 256) as u8 == ((b.l2 as nat / pow2(32))
        % 256) as u8) by {
        assert(fe_byte(a, 20) == fe_byte(b, 20));
    }
    assert(((a.l2 as nat / pow2(40)) % 256) as u8 == ((b.l2 as nat / pow2(40))
        % 256) as u8) by {
        assert(fe_byte(a, 21) == fe_byte(b, 21));
    }
    assert(((a.l2 as nat / pow2(48)) % 256) as u8 == ((b.l2 as nat / pow2(48))
        % 256) as u8) by {
        assert(fe_byte(a, 22) == fe_byte(b, 22));
    }
    assert(((a.l2 as nat / pow2(56)) % 256) as u8 == ((b.l2 as nat / pow2(56))
        % 256) as u8) by {
        assert(fe_byte(a, 23) == fe_byte(b, 23));
    }
    lemma_limb_determined_by_bytes(a.l2, b.l2);
    assert(((a.l3 as nat / pow2(0)) % 256) as u8 == ((b.l3 as nat / pow2(0))
        % 256) as u8) by {
        assert(fe_byte(a, 24) == fe_byte(b, 24));
    }
    assert(((a.l3 as nat / pow2(8)) % 256) as u8 == ((b.l3 as nat / pow2(8))
        % 256) as u8) by {
        assert(fe_byte(a, 25) == fe_byte(b, 25));
    }
    assert(((a.l3 as nat / pow2(16)) % 256) as u8 == ((b.l3 as nat / pow2(16))
        % 256) as u8) by {
        assert(fe_byte(a, 26) == fe_byte(b, 26));
    }
    assert(((a.l3 as nat / pow2(24)) % 256) as u8 == ((b.l3 as nat / pow2(24))
        % 256) as u8) by {
        assert(fe_byte(a, 27) == fe_byte(b, 27));
    }
    assert(((a.l3 as nat / pow2(32)) % 256) as u8 == ((b.l3 as nat / pow2(32))
        % 256) as u8) by {
        assert(fe_byte(a, 28) == fe_byte(b, 28));
    }
    assert(((a.l3 as nat / pow2(40)) % 256) as u8 == ((b.l3 as nat / pow2(40))
        % 256) as u8) by {
        assert(fe_byte(a, 29) == fe_byte(b, 29));
    }
    assert(((a.l3 as nat / pow2(48)) % 256) as u8 == ((b.l3 as nat / pow2(48))
        % 256) as u8) by {
        assert(fe_byte(a, 30) == fe_byte(b, 30));
    }
    assert(((a.l3 as nat / pow2(56)) % 256) as u8 == ((b.l3 as nat / pow2(56))
        % 256) as u8) by {
        assert(fe_byte(a, 31) == fe_byte(b, 31));
    }
    lemma_limb_determined_by_bytes(a.l3, b.l3);
}

/// A limb is determined by its eight little-endian bytes.
proof fn lemma_limb_determined_by_bytes(x: u64, y: u64)
    requires
        ((x as nat / pow2(0)) % 256) as u8 == ((y as nat / pow2(0)) % 256) as u8,
        ((x as nat / pow2(8)) % 256) as u8 == ((y as nat / pow2(8)) % 256) as u8,
        ((x as nat / pow2(16)) % 256) as u8 == ((y as nat / pow2(16)) % 256) as u8,
        ((x as nat / pow2(24)) % 256) as u8 == ((y as nat / pow2(24)) % 256) as u8,
        ((x as nat / pow2(32)) % 256) as u8 == ((y as nat / pow2(32)) % 256) as u8,
        ((x as nat / pow2(40)) % 256) as u8 == ((y as nat / pow2(40)) % 256) as u8,
        ((x as nat / pow2(48)) % 256) as u8 == ((y as nat / pow2(48)) % 256) as u8,
        ((x as nat / pow2(56)) % 256) as u8 == ((y as nat / pow2(56)) % 256) as u8,
    ensures
        x == y,
{
    lemma2_to64();
    vstd::arithmetic::power2::lemma2_to64_rest();
    vstd::arithmetic::div_mod::lemma_div_basics(x as int);
    vstd::arithmetic::div_mod::lemma_div_basics(y as int);
    assert(x as nat / pow2(0) == x as nat);
    assert(y as nat / pow2(0) == y as nat);
    lemma_limb_bytes_reconstruct(x);
    lemma_limb_bytes_reconstruct(y);
}

/// A limb equals the reassembly of its eight little-endian bytes.
proof fn lemma_limb_bytes_reconstruct(x: u64)
    ensures
        x == (x % 256) + 256 * ((x / 0x100 % 256) + 256 * ((x / 0x1_0000 % 256) + 256 * ((x
            / 0x100_0000 % 256) + 256 * ((x / 0x1_0000_0000 % 256) + 256 * ((x / 0x100_0000_0000
            % 256) + 256 * ((x / 0x1_0000_0000_0000 % 256) + 256 * (x / 0x100_0000_0000_0000
            % 256))))))),
{
    assert(x == (x % 256) + 256 * ((x / 0x100 % 256) + 256 * ((x / 0x1_0000 % 256) + 256 * ((x
        / 0x100_0000 % 256) + 256 * ((x / 0x1_0000_0000 % 256) + 256 * ((x / 0x100_0000_0000
        % 256) + 256 * ((x / 0x1_0000_0000_0000 % 256) + 256 * (x / 0x100_0000_0000_0000
        % 256)))))))) by (bit_vector);
}

/// Splitting off the low limb of a nested base-2^64 value.
proof fn lemma_split64(hi: nat, lo: nat)
    requires
        lo < pow2(64),
    ensures
        (pow2(64) * hi + lo) % pow2(64) == lo,
        (pow2(64) * hi + lo) / pow2(64) == hi,
{
    lemma_pow2_pos(64);
    assert((pow2(64) * hi + lo) as int == (hi as int) * (pow2(64) as int) + (lo as int))
        by (nonlinear_arith);
    lemma_fundamental_div_mod_converse(
        (pow2(64) * hi + lo) as int,
        pow2(64) as int,
        hi as int,
        lo as int,
    );
}

/// Reducing the representative by a power of two of at most the limb width
/// only reads the first limb.
proof fn lemma_low_bits_only_first_limb(fe: FieldElement, width: nat)
    requires
        width <= 64,
    ensures
        fe.value() % pow2(width) == (fe.l0 as nat) % pow2(width),
{
    let rest = (fe.l1 + pow2(64) * (fe.l2 + pow2(64) * fe.l3)) as nat;
    lemma_pow2_pos(width);
    lemma_pow2_pos((64 - width) as nat);
    lemma_pow2_adds(width, (64 - width) as nat);
    assert(pow2(64) * rest == pow2(width) * (pow2((64 - width) as nat) * rest))
        by (nonlinear_arith)
        requires
            pow2(64) == pow2(width) * pow2((64 - width) as nat),
    ;
    lemma_mod_multiples_vanish(
        (pow2((64 - width) as nat) * rest) as int,
        fe.l0 as int,
        pow2(width) as int,
    );
    assert(fe.value() == pow2(width) * (pow2((64 - width) as nat) * rest) + fe.l0);
}

/// Two elements with the same representative have the same limbs: the
/// representation is canonical.
pub proof fn lemma_value_injective(a: FieldElement, b: FieldElement)
    requires
        a.value() == b.value(),
    ensures
        a == b,
{
    lemma2_to64_high();
    let ra = (a.l1 + pow2(64) * (a.l2 + pow2(64) * a.l3)) as nat;
    let rb = (b.l1 + pow2(64) * (b.l2 + pow2(64) * b.l3)) as nat;
    lemma_split64(ra, a.l0 as nat);
    lemma_split64(rb, b.l0 as nat);
    assert(a.l0 == b.l0);
    assert(ra == rb);
    let sa = (a.l2 + pow2(64) * a.l3) as nat;
    let sb = (b.l2 + pow2(64) * b.l3) as nat;
    lemma_split64(sa, a.l1 as nat);
    lemma_split64(sb, b.l1 as nat);
    assert(a.l1 == b.l1);
    assert(sa == sb);
    lemma_split64(a.l3 as nat, a.l2 as nat);
    lemma_split64(b.l3 as nat, b.l2 as nat);
    assert(a.l2 == b.l2);
    assert(a.l3 == b.l3);
}

/// A representative below the limb base lives entirely in the first limb.
pub proof fn lemma_small_value_is_first_limb(fe: FieldElement)
    requires
        fe.value() < pow2(64),
    ensures
        fe.l0 == fe.value(),
        fe.l1 == 0,
        fe.l2 == 0,
        fe.l3 == 0,
{
    lemma2_to64_high();
    let rest = (fe.l1 + pow2(64) * (fe.l2 + pow2(64) * fe.l3)) as nat;
    lemma_split64(rest, fe.l0 as nat);
    lemma_pow2_pos(64);
    if rest > 0 {
        assert(pow2(64) * rest >= pow2(64)) by (nonlinear_arith)
            requires
                rest >= 1,
                pow2(64) > 0,
        ;
    }
    assert(rest == 0);
    let inner = (fe.l2 + pow2(64) * fe.l3) as nat;
    lemma_split64(inner, fe.l1 as nat);
    assert(fe.l1 == 0 && inner == 0);
    lemma_split64(fe.l3 as nat, fe.l2 as nat);
}

/// `pow2(64)` and `pow2(128)` as numerals, for bridging to `u128` bounds.
pub proof fn lemma2_to64_high()
    ensures
        pow2(64) == 0x1_0000_0000_0000_0000,
        pow2(128) == 0x1_0000_0000_0000_0000_0000_0000_0000_0000,
{
    lemma2_to64();
    vstd::arithmetic::power2::lemma2_to64_rest();
    lemma_pow2_adds(64, 64);
}

} // verus!
