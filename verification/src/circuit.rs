//! The threshold-signature circuit, as plain-value semantics.
//!
//! One proof asserts, over a committee of `max_pks` keys: at least
//! `threshold` of the (key, signature) pairs verify against the certificate
//! message, the advertised quality is exactly the count of verifying pairs,
//! and the single public input is the aggregated hash of the committee
//! commitment and the certificate system data. The constraint graph is
//! built by external hashing and signing gadgets; its meaning is captured
//! here as a satisfiability predicate over an arbitrary hash model, an
//! arbitrary signature-verdict model, and an arbitrary field modulus, and
//! the central theorem shows that the bit-decomposition witness makes the
//! graph satisfiable exactly when the quality reaches the threshold.
//!
//! The threshold comparison itself never uses a native comparison: the
//! circuit constrains the field difference `quality - threshold` to equal a
//! freshly witnessed bit vector of `⌈log2(max_pks)⌉ + 1` bits. A wrapped
//! difference lands just below the modulus, far above what so few bits can
//! represent, which is what makes the trick sound; that argument is
//! `lemma_threshold_range_check`.

use crate::bits::{
    be_value, be_bits_to_u64, count_true, count_true_exec, le_bits, lemma_be_value_bound,
    lemma_count_true_bound, lemma_nat_to_be_bits,
};
use crate::field::FieldElement;
use crate::hashing::{aggregated_input, message_hash, pk_x_values, pks_threshold_hash, wcert_sysdata_hash};
use crate::params::{SchnorrPk, SchnorrSig};
use vstd::arithmetic::div_mod::{lemma_mod_multiples_vanish, lemma_small_mod};
use vstd::arithmetic::power2::{
    lemma2_to64, lemma_pow2_strictly_increases, lemma_pow2_unfold, pow2,
};
use vstd::prelude::*;

verus! {

/// The ceiling of the base-two logarithm.
pub open spec fn log2_ceil(n: nat) -> nat
    decreases n,
{
    if n <= 1 {
        0
    } else {
        (1 + log2_ceil(((n + 1) / 2) as nat)) as nat
    }
}

/// The width of the threshold-check bit witness for a committee capacity.
pub open spec fn b_width(max_pks: nat) -> nat {
    (log2_ceil(max_pks) + 1) as nat
}

/// A power of two never shrinks as the exponent grows.
proof fn lemma_pow2_le(e1: nat, e2: nat)
    requires
        e1 <= e2,
    ensures
        pow2(e1) <= pow2(e2),
{
    if e1 < e2 {
        lemma_pow2_strictly_increases(e1, e2);
    }
}

/// `log2_ceil(n)` is the exponent of the first power of two at or above
/// `n`.
pub proof fn lemma_log2_ceil_bounds(n: nat)
    requires
        1 <= n,
    ensures
        n <= pow2(log2_ceil(n)),
        n > 1 ==> pow2((log2_ceil(n) - 1) as nat) < n,
    decreases n,
{
    if n == 1 {
        lemma2_to64();
    } else {
        let m = ((n + 1) / 2) as nat;
        assert(1 <= m < n);
        lemma_log2_ceil_bounds(m);
        let lm = log2_ceil(m);
        assert(log2_ceil(n) == 1 + lm);
        lemma_pow2_unfold((1 + lm) as nat);
        assert(n <= 2 * m);
        if m == 1 {
            lemma2_to64();
        } else {
            assert(lm >= 1);
            lemma_pow2_unfold(lm);
            assert(pow2(lm) < 2 * m);
            assert(2 * m <= n + 1);
            if pow2(lm) == n {
                assert(2 * m == n + 1);
                assert(n == 2 * pow2((lm - 1) as nat));
                assert(n == 2 * m - 1);
                assert(false);
            }
        }
    }
}

/// `log2_ceil(n)` is the only exponent whose power of two reaches `n` while
/// the one below does not.
pub proof fn lemma_log2_ceil_unique(n: nat, k: nat)
    requires
        1 <= n,
        n <= pow2(k),
        k == 0 || pow2((k - 1) as nat) < n,
    ensures
        k == log2_ceil(n),
{
    let l = log2_ceil(n);
    lemma_log2_ceil_bounds(n);
    if n == 1 {
        if k > 0 {
            vstd::arithmetic::power2::lemma_pow2_pos((k - 1) as nat);
        }
    } else {
        if k < l {
            lemma_pow2_le(k, (l - 1) as nat);
            assert(false);
        }
        if k > l {
            lemma_pow2_le(l, (k - 1) as nat);
            assert(false);
        }
    }
}

/// The width of the bit witness fits one machine word for any committee
/// capacity a proving key could be generated for.
pub proof fn lemma_b_width_le_64(max_pks: nat)
    requires
        1 <= max_pks,
        max_pks <= pow2(63),
    ensures
        b_width(max_pks) <= 64,
{
    lemma_log2_ceil_bounds(max_pks);
    let l = log2_ceil(max_pks);
    if l > 63 {
        lemma_pow2_le(63, (l - 1) as nat);
        assert(false);
    }
}

/// The number of bits of the threshold-check witness:
/// `⌈log2(max_pks)⌉ + 1`, computed through the next power of two.
pub fn bit_length(max_pks: usize) -> (r: usize)
    requires
        1 <= max_pks,
        max_pks <= pow2(63),
    ensures
        r == b_width(max_pks as nat),
        r <= 64,
{
    let mut k: usize = 0;
    let mut p: u64 = 1;
    proof {
        lemma2_to64();
        vstd::arithmetic::power2::lemma2_to64_rest();
    }
    while p < max_pks as u64
        invariant
            1 <= max_pks,
            max_pks <= pow2(63),
            p == pow2(k as nat),
            k == 0 || pow2((k - 1) as nat) < max_pks,
            k <= 63,
        decreases 63 - k,
    {
        proof {
            lemma2_to64();
            vstd::arithmetic::power2::lemma2_to64_rest();
            if k == 63 {
                assert(p == pow2(63));
                assert(false);
            }
            lemma_pow2_le(k as nat, 62);
            lemma_pow2_unfold((k + 1) as nat);
        }
        p = 2 * p;
        k = k + 1;
    }
    proof {
        lemma_log2_ceil_unique(max_pks as nat, k as nat);
        lemma_b_width_le_64(max_pks as nat);
    }
    k + 1
}

/// The field difference `a - b`, both canonical representatives below the
/// modulus `p`.
pub open spec fn sub_mod(a: nat, b: nat, p: nat) -> nat {
    ((((a + p) - b) as int) % (p as int)) as nat
}

/// The range-check trick. With both operands bounded by the committee
/// capacity and the modulus far above the witness range, the field
/// difference `quality - threshold` is small enough for a `width`-bit
/// witness exactly when no wrap-around occurred, that is, exactly when the
/// quality reaches the threshold.
pub proof fn lemma_threshold_range_check(quality: nat, threshold: nat, bound: nat, width: nat, p: nat)
    requires
        quality <= bound,
        threshold <= bound,
        bound < pow2(width),
        pow2(width) + bound < p,
    ensures
        threshold <= quality ==> sub_mod(quality, threshold, p) == quality - threshold,
        threshold > quality ==> sub_mod(quality, threshold, p) >= pow2(width),
{
    if threshold <= quality {
        let d = (quality - threshold) as nat;
        lemma_mod_multiples_vanish(1, d as int, p as int);
        assert((p as int) * 1 + (d as int) == (quality + p) - threshold);
        lemma_small_mod(d, p);
    } else {
        let x = ((quality + p) - threshold) as nat;
        assert(0 < x < p);
        lemma_small_mod(x, p);
        assert(x >= p - bound);
    }
}

/// Why an instance could not be built or evaluated. Shape violations are
/// fatal input errors caught before any cryptographic work; a missing
/// witness marks a shape-only instance used where values are needed.
#[derive(Clone, Copy, PartialEq, Eq, Structural, Debug)]
pub enum CircuitError {
    /// The committee does not have exactly `max_pks` keys.
    CommitteeSizeMismatch,
    /// The signature slots do not number exactly `max_pks`.
    SignatureCountMismatch,
    /// The verdicts do not number exactly `max_pks`.
    VerdictCountMismatch,
    /// The committee capacity is zero or beyond what a key can be set up
    /// for.
    InvalidCommitteeCapacity,
    /// The threshold exceeds the committee capacity.
    ThresholdTooLarge,
    /// A witness value is absent.
    MissingWitness,
}

/// The value of an optional bit; the circuit reads it only when present.
pub open spec fn opt_bit(o: Option<bool>) -> bool {
    match o {
        Some(v) => v,
        None => false,
    }
}

/// The bits behind a sequence of optional bits.
pub open spec fn opt_bits(s: Seq<Option<bool>>) -> Seq<bool> {
    s.map_values(|o: Option<bool>| opt_bit(o))
}

/// One proof's worth of circuit witnesses. Every witness is optional so
/// that the same type also describes the shape-only instance that key
/// generation synthesizes.
pub struct NaiveTresholdSignature {
    pub pks: Vec<Option<SchnorrPk>>,
    pub sigs: Vec<Option<SchnorrSig>>,
    pub threshold: Option<FieldElement>,
    pub b: Vec<Option<bool>>,
    pub epoch_number: Option<FieldElement>,
    pub end_cumulative_sc_tx_comm_tree_root: Option<FieldElement>,
    pub mr_bt: Option<FieldElement>,
    pub ft_min_fee: Option<u64>,
    pub btr_fee: Option<u64>,
    pub max_pks: usize,
}

impl NaiveTresholdSignature {
    /// The shape every instance keeps: one key and one signature slot per
    /// committee position and a bit witness of the capacity's width.
    pub open spec fn wf(self) -> bool {
        &&& 1 <= self.max_pks
        &&& self.max_pks <= pow2(63)
        &&& self.pks@.len() == self.max_pks
        &&& self.sigs@.len() == self.max_pks
        &&& self.b@.len() == b_width(self.max_pks as nat)
    }

    /// Whether every witness is present, as proving requires; the
    /// shape-only setup instance has none.
    pub open spec fn is_complete(self) -> bool {
        &&& self.threshold is Some
        &&& self.epoch_number is Some
        &&& self.end_cumulative_sc_tx_comm_tree_root is Some
        &&& self.mr_bt is Some
        &&& self.ft_min_fee is Some
        &&& self.btr_fee is Some
        &&& forall|i: int| 0 <= i < self.pks@.len() ==> self.pks@[i] is Some
        &&& forall|i: int| 0 <= i < self.sigs@.len() ==> self.sigs@[i] is Some
        &&& forall|i: int| 0 <= i < self.b@.len() ==> self.b@[i] is Some
    }

    /// The witnessed keys of a complete instance.
    pub open spec fn pk_seq(self) -> Seq<SchnorrPk> {
        self.pks@.map_values(|o: Option<SchnorrPk>| o->0)
    }

    /// The witnessed threshold of a complete instance.
    pub open spec fn threshold_value(self) -> nat {
        self.threshold->0.value()
    }

    /// The bit witness of the threshold check.
    pub open spec fn b_bits(self) -> Seq<bool> {
        opt_bits(self.b@)
    }

    /// Builds a complete instance. The bit witness is the low
    /// `⌈log2(max_pks)⌉ + 1` bits of the big-endian decomposition of `b`,
    /// which the caller computed as the field difference between the count
    /// of valid signatures and the threshold.
    pub fn new(
        pks: Vec<SchnorrPk>,
        sigs: Vec<Option<SchnorrSig>>,
        threshold: FieldElement,
        b: FieldElement,
        epoch_number: FieldElement,
        end_cumulative_sc_tx_comm_tree_root: FieldElement,
        mr_bt: FieldElement,
        ft_min_fee: u64,
        btr_fee: u64,
        max_pks: usize,
    ) -> (r: Self)
        requires
            pks@.len() == max_pks,
            sigs@.len() == max_pks,
            1 <= max_pks,
            max_pks <= pow2(63),
        ensures
            r.wf(),
            r.is_complete() <==> (forall|i: int| 0 <= i < sigs@.len() ==> sigs@[i] is Some),
            r.pk_seq() == pks@,
            r.sigs@ == sigs@,
            r.threshold == Some(threshold),
            r.epoch_number == Some(epoch_number),
            r.end_cumulative_sc_tx_comm_tree_root == Some(end_cumulative_sc_tx_comm_tree_root),
            r.mr_bt == Some(mr_bt),
            r.ft_min_fee == Some(ft_min_fee),
            r.btr_fee == Some(btr_fee),
            r.max_pks == max_pks,
            be_value(r.b_bits()) == b.value() % pow2(b_width(max_pks as nat)),
    {
        let width = bit_length(max_pks);
        let raw_bits = b.low_bits_be(width);
        let mut b_opt: Vec<Option<bool>> = Vec::new();
        let mut i: usize = 0;
        while i < raw_bits.len()
            invariant
                i <= raw_bits@.len(),
                b_opt@.len() == i,
                forall|j: int| 0 <= j < i ==> b_opt@[j] == Some(raw_bits@[j]),
            decreases raw_bits@.len() - i,
        {
            b_opt.push(Some(raw_bits[i]));
            i = i + 1;
        }
        let mut pks_opt: Vec<Option<SchnorrPk>> = Vec::new();
        let mut j: usize = 0;
        while j < pks.len()
            invariant
                j <= pks@.len(),
                pks_opt@.len() == j,
                forall|i2: int| 0 <= i2 < j ==> pks_opt@[i2] == Some(pks@[i2]),
            decreases pks@.len() - j,
        {
            pks_opt.push(Some(pks[j]));
            j = j + 1;
        }
        let r = NaiveTresholdSignature {
            pks: pks_opt,
            sigs,
            threshold: Some(threshold),
            b: b_opt,
            epoch_number: Some(epoch_number),
            end_cumulative_sc_tx_comm_tree_root: Some(end_cumulative_sc_tx_comm_tree_root),
            mr_bt: Some(mr_bt),
            ft_min_fee: Some(ft_min_fee),
            btr_fee: Some(btr_fee),
            max_pks,
        };
        proof {
            assert(r.pk_seq() =~= pks@);
            assert(r.b_bits() =~= raw_bits@);
        }
        r
    }
}

/// A shape-only instance: every witness absent, only the structure fixed.
/// Key generation uses it; its constraint graph has the same shape as every
/// complete instance of the same capacity, which `wf` pins to `max_pks`
/// alone.
pub fn get_instance_for_setup(max_pks: usize) -> (r: NaiveTresholdSignature)
    requires
        1 <= max_pks,
        max_pks <= pow2(63),
    ensures
        r.wf(),
        r.max_pks == max_pks,
        !r.is_complete(),
        r.threshold is None,
        r.epoch_number is None,
        r.end_cumulative_sc_tx_comm_tree_root is None,
        r.mr_bt is None,
        r.ft_min_fee is None,
        r.btr_fee is None,
        forall|i: int| 0 <= i < r.pks@.len() ==> r.pks@[i] is None,
        forall|i: int| 0 <= i < r.sigs@.len() ==> r.sigs@[i] is None,
        forall|i: int| 0 <= i < r.b@.len() ==> r.b@[i] is None,
{
    let width = bit_length(max_pks);
    let mut pks: Vec<Option<SchnorrPk>> = Vec::new();
    let mut i: usize = 0;
    while i < max_pks
        invariant
            i <= max_pks,
            pks@.len() == i,
            forall|j: int| 0 <= j < i ==> pks@[j] is None,
        decreases max_pks - i,
    {
        pks.push(None);
        i = i + 1;
    }
    let mut sigs: Vec<Option<SchnorrSig>> = Vec::new();
    let mut j: usize = 0;
    while j < max_pks
        invariant
            j <= max_pks,
            sigs@.len() == j,
            forall|i2: int| 0 <= i2 < j ==> sigs@[i2] is None,
        decreases max_pks - j,
    {
        sigs.push(None);
        j = j + 1;
    }
    let mut b: Vec<Option<bool>> = Vec::new();
    let mut k: usize = 0;
    while k < width
        invariant
            k <= width,
            b@.len() == k,
            forall|i2: int| 0 <= i2 < k ==> b@[i2] is None,
        decreases width - k,
    {
        b.push(None);
        k = k + 1;
    }
    NaiveTresholdSignature {
        pks,
        sigs,
        threshold: None,
        b,
        epoch_number: None,
        end_cumulative_sc_tx_comm_tree_root: None,
        mr_bt: None,
        ft_min_fee: None,
        btr_fee: None,
        max_pks,
    }
}

impl NaiveTresholdSignature {
    /// What the evaluator decides: the derived quality reaches the
    /// witnessed threshold, the bit witness packs to their difference, and
    /// the public input equals the aggregated hash value.
    pub open spec fn eval_constraints(
        self,
        verdicts: Seq<bool>,
        aggregated: nat,
        public_input: nat,
    ) -> bool {
        let quality = count_true(verdicts);
        let t = self.threshold_value();
        &&& t <= quality
        &&& be_value(self.b_bits()) == quality - t
        &&& public_input == aggregated
    }

    /// Evaluates the circuit's own constraints on a complete instance,
    /// given the per-slot verdicts of the signature gadget and the
    /// aggregated hash value the hash gadget computed. An incomplete
    /// instance cannot be evaluated, exactly as a shape-only instance
    /// cannot be proved with.
    pub fn check_constraints(
        &self,
        verdicts: &Vec<bool>,
        aggregated: &FieldElement,
        public_input: &FieldElement,
    ) -> (r: Result<bool, CircuitError>)
        requires
            self.wf(),
        ensures
            !self.is_complete() ==> r == Result::<bool, CircuitError>::Err(
                CircuitError::MissingWitness,
            ),
            self.is_complete() && verdicts@.len() != self.max_pks ==> r == Result::<
                bool,
                CircuitError,
            >::Err(CircuitError::VerdictCountMismatch),
            self.is_complete() && verdicts@.len() == self.max_pks ==> r == Result::<
                bool,
                CircuitError,
            >::Ok(self.eval_constraints(verdicts@, aggregated.value(), public_input.value())),
    {
        let t = match &self.threshold {
            Some(t) => *t,
            None => {
                return Err(CircuitError::MissingWitness);
            },
        };
        if self.epoch_number.is_none() || self.end_cumulative_sc_tx_comm_tree_root.is_none()
            || self.mr_bt.is_none() || self.ft_min_fee.is_none() || self.btr_fee.is_none() {
            return Err(CircuitError::MissingWitness);
        }
        let mut i: usize = 0;
        while i < self.pks.len()
            invariant
                i <= self.pks@.len(),
                self.pks@.len() == self.sigs@.len(),
                forall|j: int| 0 <= j < i ==> self.pks@[j] is Some,
                forall|j: int| 0 <= j < i ==> self.sigs@[j] is Some,
            decreases self.pks@.len() - i,
        {
            if self.pks[i].is_none() || self.sigs[i].is_none() {
                return Err(CircuitError::MissingWitness);
            }
            i = i + 1;
        }
        let mut bvec: Vec<bool> = Vec::new();
        let mut j: usize = 0;
        while j < self.b.len()
            invariant
                j <= self.b@.len(),
                bvec@.len() == j,
                forall|i2: int| 0 <= i2 < j ==> self.b@[i2] is Some,
                forall|i2: int| 0 <= i2 < j ==> bvec@[i2] == opt_bit(self.b@[i2]),
            decreases self.b@.len() - j,
        {
            match self.b[j] {
                Some(bit) => bvec.push(bit),
                None => {
                    return Err(CircuitError::MissingWitness);
                },
            }
            j = j + 1;
        }
        if verdicts.len() != self.max_pks {
            return Err(CircuitError::VerdictCountMismatch);
        }
        proof {
            assert(bvec@ =~= self.b_bits());
            lemma_b_width_le_64(self.max_pks as nat);
            lemma_pow2_le(63, 64);
        }
        let quality = count_true_exec(verdicts);
        let b_val = be_bits_to_u64(&bvec);
        let threshold_small = t.l1 == 0 && t.l2 == 0 && t.l3 == 0;
        proof {
            crate::field::lemma2_to64_high();
            if !threshold_small {
                if t.value() < pow2(64) {
                    crate::field::lemma_small_value_is_first_limb(t);
                }
                assert(t.value() >= pow2(64));
            }
            if threshold_small {
                assert(t.value() == t.l0) by {
                    vstd::arithmetic::power2::lemma_pow2_pos(64);
                }
            }
            assert(quality < pow2(64));
        }
        let meets_threshold = threshold_small && t.l0 <= quality;
        let range_ok = meets_threshold && quality - t.l0 == b_val;
        let public_ok = *public_input == *aggregated;
        proof {
            if public_input.value() == aggregated.value() {
                crate::field::lemma_value_injective(*public_input, *aggregated);
            }
        }
        Ok(range_ok && public_ok)
    }
}

/// The verdict of the signature-verification gadget on each committee
/// slot, in order: whether slot `i`'s signature verifies against the
/// message under slot `i`'s key.
pub open spec fn slot_verdicts(
    sv: spec_fn(SchnorrPk, SchnorrSig, nat) -> bool,
    pks: Seq<SchnorrPk>,
    sigs: Seq<SchnorrSig>,
    message: nat,
) -> Seq<bool> {
    Seq::new(pks.len(), |i: int| sv(pks[i], sigs[i], message))
}

/// Whether one witness assignment satisfies every constraint of the
/// circuit, with the hash gadget modelled by `h`, the signature gadget by
/// `sv`, and the field by its modulus `p`. In order: the committee
/// commitment and the message are the specified hash compositions; the
/// quality is derived inside the circuit as the count of true verdicts;
/// the system-data hash commits to that derived quality; the sole public
/// input equals the aggregated hash; and the field difference between
/// quality and threshold equals the packed bit witness.
pub open spec fn constraints_hold(
    h: spec_fn(Seq<nat>) -> nat,
    sv: spec_fn(SchnorrPk, SchnorrSig, nat) -> bool,
    p: nat,
    pks: Seq<SchnorrPk>,
    sigs: Seq<SchnorrSig>,
    threshold: nat,
    epoch: nat,
    mr_bt: nat,
    end_root: nat,
    btr_fee: u64,
    ft_min_fee: u64,
    b_bits: Seq<bool>,
    public_input: nat,
) -> bool {
    let message = message_hash(h, epoch, mr_bt, end_root, btr_fee, ft_min_fee);
    let quality = count_true(slot_verdicts(sv, pks, sigs, message));
    let commitment = pks_threshold_hash(h, pk_x_values(pks), threshold);
    let sysdata = wcert_sysdata_hash(h, epoch, mr_bt, quality, end_root, btr_fee, ft_min_fee);
    &&& be_value(b_bits) == sub_mod(quality, threshold, p)
    &&& public_input == aggregated_input(h, commitment, sysdata)
}

/// The heart of the protocol, stated for every hash model, every signature
/// model, and every modulus large enough to be a real field's. Some choice
/// of the bit witness satisfies the circuit exactly when the count of
/// verifying slots reaches the threshold and the public input is the
/// aggregated hash of that count and the witnessed data. So a prover who
/// gathered enough signatures can always build a satisfying assignment,
/// with the quality truthfully derived; and no assignment at all exists
/// with fewer verifying slots or a mismatched public input, whatever bits
/// are supplied.
pub proof fn theorem_threshold_enforcement(
    h: spec_fn(Seq<nat>) -> nat,
    sv: spec_fn(SchnorrPk, SchnorrSig, nat) -> bool,
    p: nat,
    pks: Seq<SchnorrPk>,
    sigs: Seq<SchnorrSig>,
    threshold: nat,
    epoch: nat,
    mr_bt: nat,
    end_root: nat,
    btr_fee: u64,
    ft_min_fee: u64,
    public_input: nat,
    max_pks: nat,
)
    requires
        pks.len() == max_pks,
        sigs.len() == max_pks,
        1 <= max_pks,
        threshold <= max_pks,
        pow2(b_width(max_pks)) + max_pks < p,
    ensures
        ({
            let message = message_hash(h, epoch, mr_bt, end_root, btr_fee, ft_min_fee);
            let quality = count_true(slot_verdicts(sv, pks, sigs, message));
            (exists|b_bits: Seq<bool>|
                b_bits.len() == b_width(max_pks) && constraints_hold(
                    h,
                    sv,
                    p,
                    pks,
                    sigs,
                    threshold,
                    epoch,
                    mr_bt,
                    end_root,
                    btr_fee,
                    ft_min_fee,
                    b_bits,
                    public_input,
                )) <==> (threshold <= quality && public_input == aggregated_input(
                h,
                pks_threshold_hash(h, pk_x_values(pks), threshold),
                wcert_sysdata_hash(h, epoch, mr_bt, quality, end_root, btr_fee, ft_min_fee),
            ))
        }),
{
    let w = b_width(max_pks);
    let message = message_hash(h, epoch, mr_bt, end_root, btr_fee, ft_min_fee);
    let verdicts = slot_verdicts(sv, pks, sigs, message);
    let quality = count_true(verdicts);
    lemma_count_true_bound(verdicts);
    lemma_log2_ceil_bounds(max_pks);
    lemma_pow2_unfold(w);
    assert(max_pks < pow2(w));
    lemma_threshold_range_check(quality, threshold, max_pks, w, p);
    if threshold <= quality && public_input == aggregated_input(
        h,
        pks_threshold_hash(h, pk_x_values(pks), threshold),
        wcert_sysdata_hash(h, epoch, mr_bt, quality, end_root, btr_fee, ft_min_fee),
    ) {
        let d = (quality - threshold) as nat;
        lemma_nat_to_be_bits(d, w);
        let witness = le_bits(d, w).reverse();
        assert(witness.len() == w && constraints_hold(
            h,
            sv,
            p,
            pks,
            sigs,
            threshold,
            epoch,
            mr_bt,
            end_root,
            btr_fee,
            ft_min_fee,
            witness,
            public_input,
        ));
    }
    if exists|b_bits: Seq<bool>|
        b_bits.len() == w && constraints_hold(
            h,
            sv,
            p,
            pks,
            sigs,
            threshold,
            epoch,
            mr_bt,
            end_root,
            btr_fee,
            ft_min_fee,
            b_bits,
            public_input,
        ) {
        let b_bits = choose|b_bits: Seq<bool>|
            b_bits.len() == w && constraints_hold(
                h,
                sv,
                p,
                pks,
                sigs,
                threshold,
                epoch,
                mr_bt,
                end_root,
                btr_fee,
                ft_min_fee,
                b_bits,
                public_input,
            );
        lemma_be_value_bound(b_bits);
        assert(threshold <= quality);
    }
}

/// What a verifier recomputes from its own certificate data, claimed
/// quality, and committee commitment, and hands to the proof backend as
/// the expected public input.
pub open spec fn expected_public_input(
    h: spec_fn(Seq<nat>) -> nat,
    commitment: nat,
    epoch: nat,
    mr_bt: nat,
    quality: nat,
    end_root: nat,
    btr_fee: u64,
    ft_min_fee: u64,
) -> nat {
    aggregated_input(
        h,
        commitment,
        wcert_sysdata_hash(h, epoch, mr_bt, quality, end_root, btr_fee, ft_min_fee),
    )
}

/// Completeness: when at least `threshold` of the slots carry signatures
/// that verify against the certificate message, some bit witness satisfies
/// the circuit whose public input is exactly what a verifier recomputes
/// from the same certificate data, the true quality, and the commitment of
/// the same committee and threshold — so the backend, given that witness,
/// produces a proof the verifier accepts.
pub proof fn theorem_completeness(
    h: spec_fn(Seq<nat>) -> nat,
    sv: spec_fn(SchnorrPk, SchnorrSig, nat) -> bool,
    p: nat,
    pks: Seq<SchnorrPk>,
    sigs: Seq<SchnorrSig>,
    threshold: nat,
    epoch: nat,
    mr_bt: nat,
    end_root: nat,
    btr_fee: u64,
    ft_min_fee: u64,
    max_pks: nat,
)
    requires
        pks.len() == max_pks,
        sigs.len() == max_pks,
        1 <= max_pks,
        threshold <= max_pks,
        pow2(b_width(max_pks)) + max_pks < p,
        threshold <= count_true(
            slot_verdicts(
                sv,
                pks,
                sigs,
                message_hash(h, epoch, mr_bt, end_root, btr_fee, ft_min_fee),
            ),
        ),
    ensures
        exists|b_bits: Seq<bool>|
            b_bits.len() == b_width(max_pks) && constraints_hold(
                h,
                sv,
                p,
                pks,
                sigs,
                threshold,
                epoch,
                mr_bt,
                end_root,
                btr_fee,
                ft_min_fee,
                b_bits,
                expected_public_input(
                    h,
                    pks_threshold_hash(h, pk_x_values(pks), threshold),
                    epoch,
                    mr_bt,
                    count_true(
                        slot_verdicts(
                            sv,
                            pks,
                            sigs,
                            message_hash(h, epoch, mr_bt, end_root, btr_fee, ft_min_fee),
                        ),
                    ),
                    end_root,
                    btr_fee,
                    ft_min_fee,
                ),
            ),
{
    let quality = count_true(
        slot_verdicts(sv, pks, sigs, message_hash(h, epoch, mr_bt, end_root, btr_fee, ft_min_fee)),
    );
    theorem_threshold_enforcement(
        h,
        sv,
        p,
        pks,
        sigs,
        threshold,
        epoch,
        mr_bt,
        end_root,
        btr_fee,
        ft_min_fee,
        expected_public_input(
            h,
            pks_threshold_hash(h, pk_x_values(pks), threshold),
            epoch,
            mr_bt,
            quality,
            end_root,
            btr_fee,
            ft_min_fee,
        ),
        max_pks,
    );
}

/// Soundness under insufficient signatures: when fewer than `threshold`
/// slots verify, no bit witness satisfies the circuit, whatever public
/// input is tried — so while proof creation still completes, with the
/// quality truthfully reporting the shortfall, a sound backend rejects the
/// resulting proof.
pub proof fn theorem_soundness_insufficient(
    h: spec_fn(Seq<nat>) -> nat,
    sv: spec_fn(SchnorrPk, SchnorrSig, nat) -> bool,
    p: nat,
    pks: Seq<SchnorrPk>,
    sigs: Seq<SchnorrSig>,
    threshold: nat,
    epoch: nat,
    mr_bt: nat,
    end_root: nat,
    btr_fee: u64,
    ft_min_fee: u64,
    public_input: nat,
    max_pks: nat,
)
    requires
        pks.len() == max_pks,
        sigs.len() == max_pks,
        1 <= max_pks,
        threshold <= max_pks,
        pow2(b_width(max_pks)) + max_pks < p,
        count_true(
            slot_verdicts(
                sv,
                pks,
                sigs,
                message_hash(h, epoch, mr_bt, end_root, btr_fee, ft_min_fee),
            ),
        ) < threshold,
    ensures
        forall|b_bits: Seq<bool>|
            b_bits.len() == b_width(max_pks) ==> !constraints_hold(
                h,
                sv,
                p,
                pks,
                sigs,
                threshold,
                epoch,
                mr_bt,
                end_root,
                btr_fee,
                ft_min_fee,
                b_bits,
                public_input,
            ),
{
    theorem_threshold_enforcement(
        h,
        sv,
        p,
        pks,
        sigs,
        threshold,
        epoch,
        mr_bt,
        end_root,
        btr_fee,
        ft_min_fee,
        public_input,
        max_pks,
    );
}

/// The evaluator decides exactly the circuit's field constraint: for every
/// modulus large enough to be a real field's, the integer test `quality -
/// threshold == packed bits` with `threshold <= quality` is equivalent to
/// the in-field equation the circuit enforces.
pub proof fn lemma_eval_decides_constraints(
    inst: NaiveTresholdSignature,
    verdicts: Seq<bool>,
    aggregated: nat,
    public_input: nat,
    p: nat,
)
    requires
        inst.wf(),
        verdicts.len() == inst.max_pks,
        inst.threshold_value() <= inst.max_pks,
        pow2(b_width(inst.max_pks as nat)) + inst.max_pks < p,
    ensures
        inst.eval_constraints(verdicts, aggregated, public_input) <==> {
            &&& be_value(inst.b_bits()) == sub_mod(
                count_true(verdicts),
                inst.threshold_value(),
                p,
            )
            &&& public_input == aggregated
        },
{
    let w = b_width(inst.max_pks as nat);
    let q = count_true(verdicts);
    let t = inst.threshold_value();
    lemma_count_true_bound(verdicts);
    lemma_log2_ceil_bounds(inst.max_pks as nat);
    lemma_pow2_unfold(w);
    assert(inst.max_pks < pow2(w));
    lemma_threshold_range_check(q, t, inst.max_pks as nat, w, p);
    assert(inst.b_bits().len() == w);
    lemma_be_value_bound(inst.b_bits());
}

/// Two well-formed instances of the same capacity have the same shape:
/// slot counts and witness width are functions of the capacity alone, so a
/// shape-only setup instance fixes the same constraint-graph structure as
/// every proving instance of that capacity.
pub proof fn lemma_shape_determined_by_capacity(
    a: NaiveTresholdSignature,
    b: NaiveTresholdSignature,
)
    requires
        a.wf(),
        b.wf(),
        a.max_pks == b.max_pks,
    ensures
        a.pks@.len() == b.pks@.len(),
        a.sigs@.len() == b.sigs@.len(),
        a.b@.len() == b.b@.len(),
{
}

} // verus!
