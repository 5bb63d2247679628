//! The error that circuit synthesis reports.
use ark_relations::gr1cs::SynthesisError;
use vstd::prelude::*;

verus! {

/// Declares `ark_relations::gr1cs::SynthesisError`, the error type of every
/// fallible operation of this crate, with its variants.
#[verifier::external_type_specification]
pub struct ExSynthesisError(SynthesisError);

} // verus!
