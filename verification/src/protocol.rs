//! The prover-side decision logic around the circuit.
//!
//! Proof creation starts from the caller's committee, its signature slots
//! (some possibly absent), and the certificate data. Before any
//! cryptographic work the shapes are checked and rejected loudly; then
//! every absent slot is filled with the canonical filler signature, the
//! quality is taken as the count of slots whose signature the external
//! primitive verified against the message, and the threshold-check bit
//! witness is derived from quality and threshold. What comes out is the
//! complete circuit instance and the quality that the proof backend
//! publishes alongside the proof.

use crate::bits::{be_value, count_true, count_true_exec, lemma_count_true_bound};
use crate::circuit::{
    b_width, bit_length, lemma_log2_ceil_bounds, CircuitError, NaiveTresholdSignature,
};
use crate::field::FieldElement;
use crate::params::{NaiveThresholdSigParams, SchnorrPk, SchnorrSig};
use vstd::arithmetic::div_mod::lemma_small_mod;
use vstd::arithmetic::power2::{lemma_pow2_unfold, pow2};
use vstd::prelude::*;

verus! {

/// The signature a slot contributes to the circuit: its own if present,
/// the canonical filler otherwise.
pub open spec fn filled_slot(slot: Option<SchnorrSig>, filler: SchnorrSig) -> SchnorrSig {
    match slot {
        Some(sig) => sig,
        None => filler,
    }
}

/// Replaces every absent signature slot with the canonical filler, which
/// by construction verifies against no message, so an occupied-but-absent
/// slot can never count toward the quality.
pub fn fill_absent_signatures(
    sigs: &Vec<Option<SchnorrSig>>,
    params: &NaiveThresholdSigParams,
) -> (r: Vec<SchnorrSig>)
    ensures
        r@.len() == sigs@.len(),
        forall|i: int|
            0 <= i < sigs@.len() ==> r@[i] == filled_slot(sigs@[i], params.null_sig),
{
    let mut r: Vec<SchnorrSig> = Vec::new();
    let mut i: usize = 0;
    while i < sigs.len()
        invariant
            i <= sigs@.len(),
            r@.len() == i,
            forall|j: int| 0 <= j < i ==> r@[j] == filled_slot(sigs@[j], params.null_sig),
        decreases sigs@.len() - i,
    {
        match &sigs[i] {
            Some(sig) => r.push(*sig),
            None => r.push(params.null_sig),
        }
        i = i + 1;
    }
    r
}

/// What proof creation hands to the proof backend: the complete circuit
/// instance and the quality published next to the proof.
pub struct ProofInputs {
    pub instance: NaiveTresholdSignature,
    pub quality: u64,
}

/// Validates the shapes, fills the absent slots, derives the quality and
/// the bit witness, and assembles the circuit instance.
///
/// `verdicts[i]` is the external signature primitive's verdict for slot
/// `i` against the certificate message; an absent slot carries `false`,
/// since its filler signature verifies against nothing. The quality is the
/// count of true verdicts, also when it falls short of the threshold:
/// creation still succeeds then, and the resulting circuit is
/// unsatisfiable, so the proof fails verification. In that case no bit
/// witness can satisfy the range check, and the canonical all-zero
/// witness is supplied.
pub fn build_proof_inputs(
    pks: Vec<SchnorrPk>,
    sigs: Vec<Option<SchnorrSig>>,
    verdicts: Vec<bool>,
    threshold: u64,
    epoch_number: FieldElement,
    end_cumulative_sc_tx_comm_tree_root: FieldElement,
    mr_bt: FieldElement,
    btr_fee: u64,
    ft_min_fee: u64,
    max_pks: usize,
    params: &NaiveThresholdSigParams,
) -> (r: Result<ProofInputs, CircuitError>)
    ensures
        r is Ok <==> {
            &&& 1 <= max_pks <= pow2(63)
            &&& pks@.len() == max_pks
            &&& sigs@.len() == max_pks
            &&& verdicts@.len() == max_pks
            &&& threshold <= max_pks
        },
        !(1 <= max_pks <= pow2(63)) ==> r == Result::<ProofInputs, CircuitError>::Err(
            CircuitError::InvalidCommitteeCapacity,
        ),
        1 <= max_pks <= pow2(63) && pks@.len() != max_pks ==> r == Result::<
            ProofInputs,
            CircuitError,
        >::Err(CircuitError::CommitteeSizeMismatch),
        1 <= max_pks <= pow2(63) && pks@.len() == max_pks && sigs@.len() != max_pks ==> r
            == Result::<ProofInputs, CircuitError>::Err(CircuitError::SignatureCountMismatch),
        1 <= max_pks <= pow2(63) && pks@.len() == max_pks && sigs@.len() == max_pks
            && verdicts@.len() != max_pks ==> r == Result::<ProofInputs, CircuitError>::Err(
            CircuitError::VerdictCountMismatch,
        ),
        1 <= max_pks <= pow2(63) && pks@.len() == max_pks && sigs@.len() == max_pks
            && verdicts@.len() == max_pks && threshold > max_pks ==> r == Result::<
            ProofInputs,
            CircuitError,
        >::Err(CircuitError::ThresholdTooLarge),
        r matches Ok(out) ==> {
            &&& out.instance.wf()
            &&& out.instance.is_complete()
            &&& out.instance.max_pks == max_pks
            &&& out.instance.pk_seq() == pks@
            &&& forall|i: int|
                0 <= i < max_pks ==> out.instance.sigs@[i] == Some(
                    filled_slot(sigs@[i], params.null_sig),
                )
            &&& out.instance.threshold_value() == threshold
            &&& out.instance.epoch_number == Some(epoch_number)
            &&& out.instance.end_cumulative_sc_tx_comm_tree_root == Some(
                end_cumulative_sc_tx_comm_tree_root,
            )
            &&& out.instance.mr_bt == Some(mr_bt)
            &&& out.instance.btr_fee == Some(btr_fee)
            &&& out.instance.ft_min_fee == Some(ft_min_fee)
            &&& out.quality == count_true(verdicts@)
            &&& threshold <= out.quality ==> be_value(out.instance.b_bits()) == out.quality
                - threshold
            &&& out.quality < threshold ==> be_value(out.instance.b_bits()) == 0
        },
{
    proof {
        vstd::arithmetic::power2::lemma2_to64();
        vstd::arithmetic::power2::lemma2_to64_rest();
    }
    if max_pks == 0 || max_pks as u64 > 0x8000_0000_0000_0000u64 {
        return Err(CircuitError::InvalidCommitteeCapacity);
    }
    if pks.len() != max_pks {
        return Err(CircuitError::CommitteeSizeMismatch);
    }
    if sigs.len() != max_pks {
        return Err(CircuitError::SignatureCountMismatch);
    }
    if verdicts.len() != max_pks {
        return Err(CircuitError::VerdictCountMismatch);
    }
    if threshold > max_pks as u64 {
        return Err(CircuitError::ThresholdTooLarge);
    }
    let quality = count_true_exec(&verdicts);
    proof {
        lemma_count_true_bound(verdicts@);
    }
    let b = if quality >= threshold {
        FieldElement::from_u64(quality - threshold)
    } else {
        FieldElement::zero()
    };
    let filled = fill_absent_signatures(&sigs, params);
    let mut slotted: Vec<Option<SchnorrSig>> = Vec::new();
    let mut i: usize = 0;
    while i < filled.len()
        invariant
            i <= filled@.len(),
            slotted@.len() == i,
            forall|j: int| 0 <= j < i ==> slotted@[j] == Some(filled@[j]),
        decreases filled@.len() - i,
    {
        slotted.push(Some(filled[i]));
        i = i + 1;
    }
    let threshold_fe = FieldElement::from_u64(threshold);
    let instance = NaiveTresholdSignature::new(
        pks,
        slotted,
        threshold_fe,
        b,
        epoch_number,
        end_cumulative_sc_tx_comm_tree_root,
        mr_bt,
        ft_min_fee,
        btr_fee,
        max_pks,
    );
    proof {
        let w = b_width(max_pks as nat);
        lemma_log2_ceil_bounds(max_pks as nat);
        lemma_pow2_unfold(w);
        assert(max_pks < pow2(w));
        if quality >= threshold {
            lemma_small_mod((quality - threshold) as nat, pow2(w));
        } else {
            vstd::arithmetic::power2::lemma_pow2_pos(w);
            lemma_small_mod(0, pow2(w));
        }
    }
    Ok(ProofInputs { instance, quality })
}

/// Completeness and soundness of the builder against the evaluator: an
/// instance whose bit witness was derived as `build_proof_inputs` derives
/// it is satisfied by its own verdicts exactly when the quality reaches the
/// threshold — whatever aggregated value the hash gadget produced, as long
/// as the public input equals it.
pub proof fn lemma_built_instance_decides_threshold(
    inst: NaiveTresholdSignature,
    verdicts: Seq<bool>,
    threshold: u64,
    aggregated: nat,
)
    requires
        inst.threshold_value() == threshold,
        threshold <= count_true(verdicts) ==> be_value(inst.b_bits()) == count_true(verdicts)
            - threshold,
    ensures
        inst.eval_constraints(verdicts, aggregated, aggregated) <==> threshold <= count_true(
            verdicts,
        ),
{
}

} // verus!
