use vstd::prelude::*;

verus! {

/// Polynomial commitment scheme family. Fixed for the lifetime of a circuit
/// (it is embedded in the circuit's settings) and never mixed within one proof.
#[derive(Clone, Copy, Debug, PartialEq, Eq, Structural)]
pub enum CommitmentScheme {
    KZG,
    IPA,
}

/// Fiat-Shamir transcript flavour used inside proving. It must match between
/// proof creation and verification, so it is recorded on the proof object
/// itself and verification reads it from there.
#[derive(Clone, Copy, Debug, PartialEq, Eq, Structural)]
pub enum TranscriptType {
    EVM,
    Poseidon,
}

/// Proof-creation mode. `Single` produces a directly verifiable proof;
/// `ForAggr` produces a proof whose accumulator is meant to be checked inside
/// a follow-on proof and therefore needs a compiled verification protocol.
#[derive(Clone, Copy, Debug, PartialEq, Eq, Structural)]
pub enum ProofType {
    Single,
    ForAggr,
}

/// Verification-strategy object selected alongside the prover/verifier pair.
#[derive(Clone, Copy, Debug, PartialEq, Eq, Structural)]
pub enum StrategyType {
    Single,
    Accum,
}

/// Whether proof creation runs the full constraint-satisfaction sanity checks
/// (`SAFE`, slower, the production default) or skips them (`UNSAFE`, debugging
/// only).
#[derive(Clone, Copy, Debug, PartialEq, Eq, Structural)]
pub enum CheckMode {
    SAFE,
    UNSAFE,
}

/// Multi-open argument driving the prover and verifier algorithms: SHPLONK for
/// the KZG family, the inner-product argument for the IPA family.
#[derive(Clone, Copy, Debug, PartialEq, Eq, Structural)]
pub enum Multiopen {
    SHPLONK,
    IPA,
}

} // verus!
