//! The hash compositions of the protocol, and what they bind.
//!
//! The hash itself is the external Poseidon primitive; prover, circuit and
//! verifier only ever agree on *which sequences* they feed it and how its
//! outputs nest. That structure is modelled here over an arbitrary hash
//! function `h` from field-element sequences to field elements, values taken
//! as integers. The executable functions build exactly the input sequences
//! of the wire format; the lemmas show that, whenever `h` is injective, the
//! single aggregated public input binds every certificate datum, which is
//! what commitment and system-data binding rest on: a verifier recomputes
//! the aggregated input from its own data, and the proof backend accepts
//! only a proof whose public input equals it.

use crate::fees::{fees_value, lemma_fees_value_injective};
use crate::field::FieldElement;
use crate::params::SchnorrPk;
use vstd::prelude::*;

verus! {

/// The representatives of a sequence of field elements.
pub open spec fn values_of(s: Seq<FieldElement>) -> Seq<nat> {
    s.map_values(|fe: FieldElement| fe.value())
}

/// The `x` coordinates of a committee, in committee order.
pub open spec fn pk_x_values(pks: Seq<SchnorrPk>) -> Seq<nat> {
    pks.map_values(|pk: SchnorrPk| pk.x.value())
}

/// No two different input sequences hash alike. No fixed-output hash
/// satisfies this for all lengths; it is the idealization under which the
/// commitment is binding, and every binding statement carries it as an
/// explicit hypothesis.
pub open spec fn hash_injective(h: spec_fn(Seq<nat>) -> nat) -> bool {
    forall|a: Seq<nat>, b: Seq<nat>| #![trigger h(a), h(b)] h(a) == h(b) ==> a == b
}

/// The committee commitment: the keys' `x` coordinates hashed in committee
/// order, then hashed again with the threshold.
pub open spec fn pks_threshold_hash(
    h: spec_fn(Seq<nat>) -> nat,
    pk_xs: Seq<nat>,
    threshold: nat,
) -> nat {
    h(seq![h(pk_xs), threshold])
}

/// The message every committee member signs.
pub open spec fn message_hash(
    h: spec_fn(Seq<nat>) -> nat,
    epoch: nat,
    mr_bt: nat,
    end_root: nat,
    btr_fee: u64,
    ft_min_fee: u64,
) -> nat {
    h(seq![epoch, mr_bt, end_root, fees_value(btr_fee, ft_min_fee)])
}

/// The certificate system-data hash; unlike the message it also commits to
/// the count of valid signatures.
pub open spec fn wcert_sysdata_hash(
    h: spec_fn(Seq<nat>) -> nat,
    epoch: nat,
    mr_bt: nat,
    quality: nat,
    end_root: nat,
    btr_fee: u64,
    ft_min_fee: u64,
) -> nat {
    h(seq![epoch, mr_bt, quality, end_root, fees_value(btr_fee, ft_min_fee)])
}

/// The single public input of the proof.
pub open spec fn aggregated_input(
    h: spec_fn(Seq<nat>) -> nat,
    pks_th: nat,
    sysdata: nat,
) -> nat {
    h(seq![pks_th, sysdata])
}

/// The first hashing round of the committee commitment: the `x` coordinate
/// of each key, in committee order.
pub fn commitment_hash_inputs(pks: &Vec<SchnorrPk>) -> (r: Vec<FieldElement>)
    ensures
        values_of(r@) == pk_x_values(pks@),
{
    let mut r: Vec<FieldElement> = Vec::new();
    let mut i: usize = 0;
    while i < pks.len()
        invariant
            i <= pks@.len(),
            r@.len() == i,
            forall|j: int| 0 <= j < i ==> r@[j] == pks@[j].x,
        decreases pks@.len() - i,
    {
        r.push(pks[i].x);
        i = i + 1;
    }
    proof {
        assert(values_of(r@) =~= pk_x_values(pks@));
    }
    r
}

/// The second hashing round of the committee commitment: the first round's
/// output together with the threshold.
pub fn commitment_final_inputs(pks_hash: FieldElement, threshold: u64) -> (r: Vec<FieldElement>)
    ensures
        values_of(r@) == seq![pks_hash.value(), threshold as nat],
{
    let t = FieldElement::from_u64(threshold);
    let mut r: Vec<FieldElement> = Vec::new();
    r.push(pks_hash);
    r.push(t);
    proof {
        assert(values_of(r@) =~= seq![pks_hash.value(), threshold as nat]);
    }
    r
}

/// The input sequence of the message hash, fees packed per the wire format.
pub fn message_hash_inputs(
    epoch: FieldElement,
    mr_bt: FieldElement,
    end_root: FieldElement,
    btr_fee: u64,
    ft_min_fee: u64,
) -> (r: Vec<FieldElement>)
    ensures
        values_of(r@) == seq![
            epoch.value(),
            mr_bt.value(),
            end_root.value(),
            fees_value(btr_fee, ft_min_fee),
        ],
{
    let fees = FieldElement::from_u128(crate::fees::pack_fees(btr_fee, ft_min_fee));
    let mut r: Vec<FieldElement> = Vec::new();
    r.push(epoch);
    r.push(mr_bt);
    r.push(end_root);
    r.push(fees);
    proof {
        assert(values_of(r@) =~= seq![
            epoch.value(),
            mr_bt.value(),
            end_root.value(),
            fees_value(btr_fee, ft_min_fee),
        ]);
    }
    r
}

/// The input sequence of the system-data hash: the message data with the
/// valid-signature count inserted after the backward-transfer root.
pub fn sysdata_hash_inputs(
    epoch: FieldElement,
    mr_bt: FieldElement,
    quality: u64,
    end_root: FieldElement,
    btr_fee: u64,
    ft_min_fee: u64,
) -> (r: Vec<FieldElement>)
    ensures
        values_of(r@) == seq![
            epoch.value(),
            mr_bt.value(),
            quality as nat,
            end_root.value(),
            fees_value(btr_fee, ft_min_fee),
        ],
{
    let fees = FieldElement::from_u128(crate::fees::pack_fees(btr_fee, ft_min_fee));
    let quality_fe = FieldElement::from_u64(quality);
    let mut r: Vec<FieldElement> = Vec::new();
    r.push(epoch);
    r.push(mr_bt);
    r.push(quality_fe);
    r.push(end_root);
    r.push(fees);
    proof {
        assert(values_of(r@) =~= seq![
            epoch.value(),
            mr_bt.value(),
            quality as nat,
            end_root.value(),
            fees_value(btr_fee, ft_min_fee),
        ]);
    }
    r
}

/// The input sequence of the aggregated public input: the committee
/// commitment and the system-data hash.
pub fn aggregated_hash_inputs(
    pks_threshold: FieldElement,
    sysdata: FieldElement,
) -> (r: Vec<FieldElement>)
    ensures
        values_of(r@) == seq![pks_threshold.value(), sysdata.value()],
{
    let mut r: Vec<FieldElement> = Vec::new();
    r.push(pks_threshold);
    r.push(sysdata);
    proof {
        assert(values_of(r@) =~= seq![pks_threshold.value(), sysdata.value()]);
    }
    r
}

/// An injective hash makes the aggregated input bind both of its halves.
pub proof fn lemma_aggregated_input_binding(
    h: spec_fn(Seq<nat>) -> nat,
    c1: nat,
    s1: nat,
    c2: nat,
    s2: nat,
)
    requires
        hash_injective(h),
        aggregated_input(h, c1, s1) == aggregated_input(h, c2, s2),
    ensures
        c1 == c2,
        s1 == s2,
{
    assert(seq![c1, s1] == seq![c2, s2]);
    assert(seq![c1, s1][0] == c1 && seq![c1, s1][1] == s1);
    assert(seq![c2, s2][0] == c2 && seq![c2, s2][1] == s2);
}

/// Changing the committee commitment handed to the verifier — by as little
/// as one bit — changes the aggregated input it recomputes, so a proof whose
/// public input matched the true commitment no longer verifies.
pub proof fn lemma_commitment_binding(h: spec_fn(Seq<nat>) -> nat, c1: nat, c2: nat, s: nat)
    requires
        hash_injective(h),
        c1 != c2,
    ensures
        aggregated_input(h, c1, s) != aggregated_input(h, c2, s),
{
    if aggregated_input(h, c1, s) == aggregated_input(h, c2, s) {
        lemma_aggregated_input_binding(h, c1, s, c2, s);
    }
}

/// The committee commitment binds the key coordinates, their order, and the
/// threshold.
pub proof fn lemma_committee_commitment_binding(
    h: spec_fn(Seq<nat>) -> nat,
    xs1: Seq<nat>,
    t1: nat,
    xs2: Seq<nat>,
    t2: nat,
)
    requires
        hash_injective(h),
        pks_threshold_hash(h, xs1, t1) == pks_threshold_hash(h, xs2, t2),
    ensures
        xs1 == xs2,
        t1 == t2,
{
    assert(seq![h(xs1), t1] == seq![h(xs2), t2]);
    assert(seq![h(xs1), t1][0] == h(xs1) && seq![h(xs1), t1][1] == t1);
    assert(seq![h(xs2), t2][0] == h(xs2) && seq![h(xs2), t2][1] == t2);
    assert(h(xs1) == h(xs2));
}

/// The system-data hash binds every certificate datum, the fees through the
/// losslessness of their packing.
pub proof fn lemma_sysdata_binding(
    h: spec_fn(Seq<nat>) -> nat,
    e1: nat,
    m1: nat,
    q1: nat,
    r1: nat,
    b1: u64,
    f1: u64,
    e2: nat,
    m2: nat,
    q2: nat,
    r2: nat,
    b2: u64,
    f2: u64,
)
    requires
        hash_injective(h),
        wcert_sysdata_hash(h, e1, m1, q1, r1, b1, f1) == wcert_sysdata_hash(
            h,
            e2,
            m2,
            q2,
            r2,
            b2,
            f2,
        ),
    ensures
        e1 == e2,
        m1 == m2,
        q1 == q2,
        r1 == r2,
        b1 == b2,
        f1 == f2,
{
    let s1 = seq![e1, m1, q1, r1, fees_value(b1, f1)];
    let s2 = seq![e2, m2, q2, r2, fees_value(b2, f2)];
    assert(s1 == s2);
    assert(s1[0] == e1 && s1[1] == m1 && s1[2] == q1 && s1[3] == r1 && s1[4] == fees_value(
        b1,
        f1,
    ));
    assert(s2[0] == e2 && s2[1] == m2 && s2[2] == q2 && s2[3] == r2 && s2[4] == fees_value(
        b2,
        f2,
    ));
    lemma_fees_value_injective(b1, f1, b2, f2);
}

/// Altering the epoch number, the backward-transfer root, the cumulative
/// root, either fee, or the quality handed to the verifier changes the
/// aggregated input it recomputes, so the proof no longer verifies against
/// it.
pub proof fn lemma_system_data_binding(
    h: spec_fn(Seq<nat>) -> nat,
    c: nat,
    e1: nat,
    m1: nat,
    q1: nat,
    r1: nat,
    b1: u64,
    f1: u64,
    e2: nat,
    m2: nat,
    q2: nat,
    r2: nat,
    b2: u64,
    f2: u64,
)
    requires
        hash_injective(h),
        !(e1 == e2 && m1 == m2 && q1 == q2 && r1 == r2 && b1 == b2 && f1 == f2),
    ensures
        aggregated_input(h, c, wcert_sysdata_hash(h, e1, m1, q1, r1, b1, f1))
            != aggregated_input(h, c, wcert_sysdata_hash(h, e2, m2, q2, r2, b2, f2)),
{
    if aggregated_input(h, c, wcert_sysdata_hash(h, e1, m1, q1, r1, b1, f1)) == aggregated_input(
        h,
        c,
        wcert_sysdata_hash(h, e2, m2, q2, r2, b2, f2),
    ) {
        lemma_aggregated_input_binding(
            h,
            c,
            wcert_sysdata_hash(h, e1, m1, q1, r1, b1, f1),
            c,
            wcert_sysdata_hash(h, e2, m2, q2, r2, b2, f2),
        );
        lemma_sysdata_binding(h, e1, m1, q1, r1, b1, f1, e2, m2, q2, r2, b2, f2);
    }
}

} // verus!
