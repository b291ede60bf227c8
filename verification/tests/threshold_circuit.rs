//! The circuit instance, the prover decision logic, and the hash-input
//! builders, exercised on a concrete committee: capacity six, five
//! signers, one absent slot.

use naive_threshold_sig::circuit::{
    bit_length, get_instance_for_setup, CircuitError, NaiveTresholdSignature,
};
use naive_threshold_sig::field::FieldElement;
use naive_threshold_sig::hashing::{
    aggregated_hash_inputs, commitment_final_inputs, commitment_hash_inputs, message_hash_inputs,
    sysdata_hash_inputs,
};
use naive_threshold_sig::params::{NaiveThresholdSigParams, SchnorrPk, SchnorrSig, VRFWindow};
use naive_threshold_sig::protocol::{build_proof_inputs, fill_absent_signatures};

fn fe(x: u64) -> FieldElement {
    FieldElement::from_u64(x)
}

fn pk(x: u64) -> SchnorrPk {
    SchnorrPk { x: fe(x), y: fe(x + 1000) }
}

fn sig(e: u64) -> SchnorrSig {
    SchnorrSig { e: fe(e), s: fe(e + 2000) }
}

/// A committee of six with five present signatures and one absent slot.
fn committee() -> (Vec<SchnorrPk>, Vec<Option<SchnorrSig>>) {
    let pks = vec![pk(1), pk(2), pk(3), pk(4), pk(5), pk(6)];
    let sigs = vec![
        Some(sig(11)),
        Some(sig(12)),
        Some(sig(13)),
        Some(sig(14)),
        Some(sig(15)),
        None,
    ];
    (pks, sigs)
}

#[test]
fn bit_length_values() {
    assert_eq!(bit_length(1), 1);
    assert_eq!(bit_length(2), 2);
    assert_eq!(bit_length(3), 3);
    assert_eq!(bit_length(6), 4);
    assert_eq!(bit_length(8), 4);
    assert_eq!(bit_length(9), 5);
    assert_eq!(bit_length(64), 7);
}

#[test]
fn setup_instance_shape() {
    let inst = get_instance_for_setup(6);
    assert_eq!(inst.max_pks, 6);
    assert_eq!(inst.pks.len(), 6);
    assert_eq!(inst.sigs.len(), 6);
    assert_eq!(inst.b.len(), 4);
    assert!(inst.threshold.is_none());
    assert!(inst.pks.iter().all(|p| p.is_none()));
}

#[test]
fn setup_instance_cannot_be_evaluated() {
    let inst = get_instance_for_setup(6);
    let verdicts = vec![true; 6];
    let r = inst.check_constraints(&verdicts, &fe(9), &fe(9));
    assert_eq!(r, Err(CircuitError::MissingWitness));
}

#[test]
fn instance_bit_witness_extraction() {
    let (pks, sigs) = committee();
    let filler = NaiveThresholdSigParams::new();
    let filled: Vec<Option<SchnorrSig>> =
        fill_absent_signatures(&sigs, &filler).into_iter().map(Some).collect();
    let inst = NaiveTresholdSignature::new(
        pks,
        filled,
        fe(4),
        fe(1),
        fe(10),
        fe(20),
        fe(30),
        7,
        8,
        6,
    );
    let bits: Vec<bool> = inst.b.iter().map(|b| b.unwrap()).collect();
    assert_eq!(bits, vec![false, false, false, true]);
}

#[test]
fn null_params_constants() {
    let params = NaiveThresholdSigParams::new();
    assert_eq!(params.null_sig.e, fe(1));
    assert_eq!(params.null_sig.s, fe(1));
    assert_eq!(params.null_pk.x.l0, 11459712384328161916);
    assert_eq!(params.null_pk.x.l1, 74331367249679002);
    assert_eq!(params.null_pk.x.l2, 15100906357746989564);
    assert_eq!(params.null_pk.x.l3, 884124067961527758);
    assert_eq!(params.null_pk.y.l0, 2310843056694237300);
    assert_eq!(params.null_pk.y.l3, 546084280382048576);
}

#[test]
fn vrf_window_shape() {
    assert_eq!(VRFWindow::window_size(), 128);
    assert_eq!(VRFWindow::num_windows(), 2);
}

#[test]
fn fill_absent_uses_filler() {
    let params = NaiveThresholdSigParams::new();
    let slots = vec![Some(sig(11)), None, Some(sig(13))];
    let filled = fill_absent_signatures(&slots, &params);
    assert_eq!(filled[0], sig(11));
    assert_eq!(filled[1], params.null_sig);
    assert_eq!(filled[2], sig(13));
}

#[test]
fn build_rejects_bad_shapes() {
    let params = NaiveThresholdSigParams::new();
    let (pks, sigs) = committee();
    let verdicts = vec![true, true, true, true, true, false];
    let r = build_proof_inputs(
        pks.clone(),
        sigs.clone(),
        verdicts.clone(),
        4,
        fe(1),
        fe(2),
        fe(3),
        7,
        8,
        0,
        &params,
    );
    assert_eq!(r.err(), Some(CircuitError::InvalidCommitteeCapacity));
    let r = build_proof_inputs(
        pks.clone(),
        sigs.clone(),
        verdicts.clone(),
        4,
        fe(1),
        fe(2),
        fe(3),
        7,
        8,
        7,
        &params,
    );
    assert_eq!(r.err(), Some(CircuitError::CommitteeSizeMismatch));
    let mut short_sigs = sigs.clone();
    short_sigs.pop();
    let r = build_proof_inputs(
        pks.clone(),
        short_sigs,
        verdicts.clone(),
        4,
        fe(1),
        fe(2),
        fe(3),
        7,
        8,
        6,
        &params,
    );
    assert_eq!(r.err(), Some(CircuitError::SignatureCountMismatch));
    let r = build_proof_inputs(
        pks.clone(),
        sigs.clone(),
        vec![true; 5],
        4,
        fe(1),
        fe(2),
        fe(3),
        7,
        8,
        6,
        &params,
    );
    assert_eq!(r.err(), Some(CircuitError::VerdictCountMismatch));
    let r = build_proof_inputs(
        pks,
        sigs,
        verdicts,
        7,
        fe(1),
        fe(2),
        fe(3),
        7,
        8,
        6,
        &params,
    );
    assert_eq!(r.err(), Some(CircuitError::ThresholdTooLarge));
}

#[test]
fn scenario_five_of_six_meets_threshold_four() {
    let params = NaiveThresholdSigParams::new();
    let (pks, sigs) = committee();
    let verdicts = vec![true, true, true, true, true, false];
    let out = build_proof_inputs(
        pks,
        sigs,
        verdicts.clone(),
        4,
        fe(100),
        fe(200),
        fe(300),
        7,
        8,
        6,
        &params,
    )
    .unwrap();
    assert_eq!(out.quality, 5);
    assert_eq!(out.instance.sigs[5], Some(params.null_sig));
    let aggregated = fe(987654321);
    let r = out.instance.check_constraints(&verdicts, &aggregated, &aggregated);
    assert_eq!(r, Ok(true));
}

#[test]
fn scenario_four_of_six_misses_threshold_five() {
    let params = NaiveThresholdSigParams::new();
    let (pks, sigs) = committee();
    let verdicts = vec![true, true, true, true, false, false];
    let out = build_proof_inputs(
        pks,
        sigs,
        verdicts.clone(),
        5,
        fe(100),
        fe(200),
        fe(300),
        7,
        8,
        6,
        &params,
    )
    .unwrap();
    assert_eq!(out.quality, 4);
    // With the threshold missed, the builder falls back to the all-zero
    // bit witness; no witness could satisfy the range check anyway.
    assert!(out.instance.b.iter().all(|b| *b == Some(false)));
    let aggregated = fe(987654321);
    let r = out.instance.check_constraints(&verdicts, &aggregated, &aggregated);
    assert_eq!(r, Ok(false));
}

#[test]
fn zero_threshold_always_met() {
    let params = NaiveThresholdSigParams::new();
    let (pks, sigs) = committee();
    let verdicts = vec![false; 6];
    let out = build_proof_inputs(
        pks,
        sigs,
        verdicts.clone(),
        0,
        fe(100),
        fe(200),
        fe(300),
        7,
        8,
        6,
        &params,
    )
    .unwrap();
    assert_eq!(out.quality, 0);
    let aggregated = fe(44);
    let r = out.instance.check_constraints(&verdicts, &aggregated, &aggregated);
    assert_eq!(r, Ok(true));
}

#[test]
fn scenario_public_input_mismatch_fails() {
    let params = NaiveThresholdSigParams::new();
    let (pks, sigs) = committee();
    let verdicts = vec![true, true, true, true, true, false];
    let out = build_proof_inputs(
        pks,
        sigs,
        verdicts.clone(),
        4,
        fe(100),
        fe(200),
        fe(300),
        7,
        8,
        6,
        &params,
    )
    .unwrap();
    let r = out.instance.check_constraints(&verdicts, &fe(987654321), &fe(111111));
    assert_eq!(r, Ok(false));
}

#[test]
fn scenario_altered_quality_fails() {
    let params = NaiveThresholdSigParams::new();
    let (pks, sigs) = committee();
    let verdicts = vec![true, true, true, true, true, false];
    let out = build_proof_inputs(
        pks,
        sigs,
        verdicts,
        4,
        fe(100),
        fe(200),
        fe(300),
        7,
        8,
        6,
        &params,
    )
    .unwrap();
    // The bit witness was derived for quality five; verdicts adding to
    // four no longer satisfy the range constraint.
    let fewer = vec![true, true, true, true, false, false];
    let aggregated = fe(987654321);
    let r = out.instance.check_constraints(&fewer, &aggregated, &aggregated);
    assert_eq!(r, Ok(false));
}

#[test]
fn scenario_wrong_verdict_count_is_rejected() {
    let params = NaiveThresholdSigParams::new();
    let (pks, sigs) = committee();
    let verdicts = vec![true, true, true, true, true, false];
    let out = build_proof_inputs(
        pks,
        sigs,
        verdicts,
        4,
        fe(100),
        fe(200),
        fe(300),
        7,
        8,
        6,
        &params,
    )
    .unwrap();
    let r = out.instance.check_constraints(&vec![true; 5], &fe(9), &fe(9));
    assert_eq!(r, Err(CircuitError::VerdictCountMismatch));
}

#[test]
fn one_slot_committee() {
    let params = NaiveThresholdSigParams::new();
    let out = build_proof_inputs(
        vec![pk(1)],
        vec![Some(sig(11))],
        vec![true],
        1,
        fe(100),
        fe(200),
        fe(300),
        7,
        8,
        1,
        &params,
    )
    .unwrap();
    assert_eq!(out.quality, 1);
    assert_eq!(out.instance.b.len(), 1);
    let aggregated = fe(5);
    let r = out.instance.check_constraints(&vec![true], &aggregated, &aggregated);
    assert_eq!(r, Ok(true));
    let r = out.instance.check_constraints(&vec![false], &aggregated, &aggregated);
    assert_eq!(r, Ok(false));
}

#[test]
fn hash_input_sequences() {
    let msg = message_hash_inputs(fe(3), fe(5), fe(7), 1, 2);
    assert_eq!(msg.len(), 4);
    assert_eq!(msg[0], fe(3));
    assert_eq!(msg[1], fe(5));
    assert_eq!(msg[2], fe(7));
    assert_eq!((msg[3].l0, msg[3].l1), (1, 2));

    let sys = sysdata_hash_inputs(fe(3), fe(5), 9, fe(7), 1, 2);
    assert_eq!(sys.len(), 5);
    assert_eq!(sys[0], fe(3));
    assert_eq!(sys[1], fe(5));
    assert_eq!(sys[2], fe(9));
    assert_eq!(sys[3], fe(7));
    assert_eq!((sys[4].l0, sys[4].l1), (1, 2));

    let commit = commitment_hash_inputs(&vec![pk(1), pk(2)]);
    assert_eq!(commit, vec![fe(1), fe(2)]);

    let round_two = commitment_final_inputs(fe(42), 4);
    assert_eq!(round_two, vec![fe(42), fe(4)]);

    let agg = aggregated_hash_inputs(fe(42), fe(43));
    assert_eq!(agg, vec![fe(42), fe(43)]);
}
