//! Committee key material and the fixed circuit constants.
//!
//! A committee key is held by the affine coordinates of its curve point and
//! a signature by its two field elements; the curve arithmetic behind them
//! belongs to the signing primitive, which only ever hands finished values
//! to this logic. The filler keypair that stands in for an absent signature
//! slot is a fixed constant, derived once by hashing to the curve from a
//! fixed tag so that no discrete logarithm of it is known; its coordinates
//! are recorded here verbatim and the constructor is proved to return
//! exactly them.

use crate::field::FieldElement;
use vstd::prelude::*;

verus! {

/// A committee member's public key: the affine coordinates of a curve
/// point. The commitment hash reads only `x`; `y` rides along so that the
/// signing primitive can reconstruct the point.
#[derive(Clone, Copy, PartialEq, Eq, Structural, Debug)]
pub struct SchnorrPk {
    pub x: FieldElement,
    pub y: FieldElement,
}

/// A Schnorr signature as its two field elements.
#[derive(Clone, Copy, PartialEq, Eq, Structural, Debug)]
pub struct SchnorrSig {
    pub e: FieldElement,
    pub s: FieldElement,
}

/// The fixed constants of the threshold-signature circuit: the filler
/// signature and filler public key that occupy an absent slot without ever
/// verifying.
pub struct NaiveThresholdSigParams {
    pub null_sig: SchnorrSig,
    pub null_pk: SchnorrPk,
}

/// The first limb of the filler key's `x` coordinate, and so on upward.
pub open spec fn null_pk_x() -> FieldElement {
    FieldElement {
        l0: 11459712384328161916,
        l1: 74331367249679002,
        l2: 15100906357746989564,
        l3: 884124067961527758,
    }
}

/// The limbs of the filler key's `y` coordinate.
pub open spec fn null_pk_y() -> FieldElement {
    FieldElement {
        l0: 2310843056694237300,
        l1: 5782791099736303189,
        l2: 12630241105143989140,
        l3: 546084280382048576,
    }
}

impl NaiveThresholdSigParams {
    /// Builds the constants: the filler signature is the pair of ones, the
    /// filler key the fixed hash-to-curve point recorded above.
    pub fn new() -> (r: Self)
        ensures
            r.null_sig.e.value() == 1,
            r.null_sig.s.value() == 1,
            r.null_pk.x == null_pk_x(),
            r.null_pk.y == null_pk_y(),
    {
        let e = FieldElement::one();
        let s = e;
        let null_sig = SchnorrSig { e, s };
        let x = FieldElement {
            l0: 11459712384328161916,
            l1: 74331367249679002,
            l2: 15100906357746989564,
            l3: 884124067961527758,
        };
        let y = FieldElement {
            l0: 2310843056694237300,
            l1: 5782791099736303189,
            l2: 12630241105143989140,
            l3: 546084280382048576,
        };
        let null_pk = SchnorrPk { x, y };
        Self { null_sig, null_pk }
    }
}

/// The window shape of the group-hash table used by the VRF circuit that
/// shares these constants.
#[derive(Clone, Copy)]
pub struct VRFWindow {}

impl VRFWindow {
    /// Bits consumed per window.
    pub fn window_size() -> (r: usize)
        ensures
            r == 128,
    {
        128
    }

    /// Number of windows.
    pub fn num_windows() -> (r: usize)
        ensures
            r == 2,
    {
        2
    }
}

} // verus!
