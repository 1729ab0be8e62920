use vstd::prelude::*;

verus! {

use crate::scheme::{CommitmentScheme, Multiopen, ProofType, StrategyType, TranscriptType};

/// One concrete cryptographic pipeline: the prover and verifier algorithms,
/// the verification-strategy object, and the transcript flavour. Each value of
/// this struct names one non-interchangeable combination of group arithmetic
/// and transcript codec in the proving backend.
#[derive(Clone, Copy, Debug, PartialEq, Eq, Structural)]
pub struct Pipeline {
    pub scheme: CommitmentScheme,
    pub prover: Multiopen,
    pub verifier: Multiopen,
    pub strategy: StrategyType,
    pub transcript: TranscriptType,
    /// Whether a verification protocol (instance-count aware) must be
    /// compiled and handed to proof creation.
    pub needs_protocol: bool,
}

/// The transcript flavour implied by the proof type: direct proofs use the
/// EVM transcript, aggregation-bound proofs are hard-wired to Poseidon,
/// because the accumulator is checked inside a follow-on proof and that needs
/// an algebraic transcript.
pub open spec fn spec_transcript_for(pt: ProofType) -> TranscriptType {
    match pt {
        ProofType::Single => TranscriptType::EVM,
        ProofType::ForAggr => TranscriptType::Poseidon,
    }
}

/// The strategy object implied by the proof type.
pub open spec fn spec_strategy_for(pt: ProofType) -> StrategyType {
    match pt {
        ProofType::Single => StrategyType::Single,
        ProofType::ForAggr => StrategyType::Accum,
    }
}

/// The multi-open argument of a commitment scheme: SHPLONK for KZG, IPA for
/// IPA. Prover and verifier always use the same one.
pub open spec fn spec_multiopen_for(scheme: CommitmentScheme) -> Multiopen {
    match scheme {
        CommitmentScheme::KZG => Multiopen::SHPLONK,
        CommitmentScheme::IPA => Multiopen::IPA,
    }
}

/// The closed dispatch table for proof creation, as a spec-level function of
/// scheme and proof type. No combination outside the image of this function
/// is ever instantiated.
pub open spec fn spec_proof_pipeline(scheme: CommitmentScheme, pt: ProofType) -> Pipeline {
    Pipeline {
        scheme,
        prover: spec_multiopen_for(scheme),
        verifier: spec_multiopen_for(scheme),
        strategy: spec_strategy_for(pt),
        transcript: spec_transcript_for(pt),
        needs_protocol: pt is ForAggr,
    }
}

/// The pipeline verification uses for a proof that carries transcript `t`:
/// the same scheme-determined verifier as proof creation, always with the
/// single-proof strategy object. Verification never compiles an aggregation
/// protocol; that belongs to the proof-creation side.
pub open spec fn spec_verify_pipeline(scheme: CommitmentScheme, t: TranscriptType) -> Pipeline {
    Pipeline {
        scheme,
        prover: spec_multiopen_for(scheme),
        verifier: spec_multiopen_for(scheme),
        strategy: StrategyType::Single,
        transcript: t,
        needs_protocol: false,
    }
}

/// The transcript flavour implied by the proof type (executable form).
pub fn transcript_for(pt: ProofType) -> (t: TranscriptType)
    ensures
        t == spec_transcript_for(pt),
{
    match pt {
        ProofType::Single => TranscriptType::EVM,
        ProofType::ForAggr => TranscriptType::Poseidon,
    }
}

/// Selects the concrete proof-creation pipeline for a circuit's commitment
/// scheme and the requested proof type.
pub fn resolve_proof_pipeline(scheme: CommitmentScheme, pt: ProofType) -> (p: Pipeline)
    ensures
        p == spec_proof_pipeline(scheme, pt),
{
    let m = match scheme {
        CommitmentScheme::KZG => Multiopen::SHPLONK,
        CommitmentScheme::IPA => Multiopen::IPA,
    };
    let (strategy, transcript, needs_protocol) = match pt {
        ProofType::Single => (StrategyType::Single, TranscriptType::EVM, false),
        ProofType::ForAggr => (StrategyType::Accum, TranscriptType::Poseidon, true),
    };
    Pipeline { scheme, prover: m, verifier: m, strategy, transcript, needs_protocol }
}

/// Selects the verification pipeline for the scheme recovered from the
/// settings and the transcript flavour recorded on the proof itself.
pub fn resolve_verify_pipeline(scheme: CommitmentScheme, t: TranscriptType) -> (p: Pipeline)
    ensures
        p == spec_verify_pipeline(scheme, t),
{
    let m = match scheme {
        CommitmentScheme::KZG => Multiopen::SHPLONK,
        CommitmentScheme::IPA => Multiopen::IPA,
    };
    Pipeline {
        scheme,
        prover: m,
        verifier: m,
        strategy: StrategyType::Single,
        transcript: t,
        needs_protocol: false,
    }
}

/// The dispatch table is closed: row by row, exactly the four valid
/// combinations, and `ForAggr` is hard-wired to the Poseidon transcript.
pub proof fn lemma_dispatch_table()
    ensures
        spec_proof_pipeline(CommitmentScheme::KZG, ProofType::Single) == (Pipeline {
            scheme: CommitmentScheme::KZG,
            prover: Multiopen::SHPLONK,
            verifier: Multiopen::SHPLONK,
            strategy: StrategyType::Single,
            transcript: TranscriptType::EVM,
            needs_protocol: false,
        }),
        spec_proof_pipeline(CommitmentScheme::KZG, ProofType::ForAggr) == (Pipeline {
            scheme: CommitmentScheme::KZG,
            prover: Multiopen::SHPLONK,
            verifier: Multiopen::SHPLONK,
            strategy: StrategyType::Accum,
            transcript: TranscriptType::Poseidon,
            needs_protocol: true,
        }),
        spec_proof_pipeline(CommitmentScheme::IPA, ProofType::Single) == (Pipeline {
            scheme: CommitmentScheme::IPA,
            prover: Multiopen::IPA,
            verifier: Multiopen::IPA,
            strategy: StrategyType::Single,
            transcript: TranscriptType::EVM,
            needs_protocol: false,
        }),
        spec_proof_pipeline(CommitmentScheme::IPA, ProofType::ForAggr) == (Pipeline {
            scheme: CommitmentScheme::IPA,
            prover: Multiopen::IPA,
            verifier: Multiopen::IPA,
            strategy: StrategyType::Accum,
            transcript: TranscriptType::Poseidon,
            needs_protocol: true,
        }),
        forall|pt: ProofType| (#[trigger] spec_transcript_for(pt)) is Poseidon <==> pt is ForAggr,
{
}

/// Prover/verifier agreement across the round trip: the verification pipeline
/// chosen for the scheme and the transcript that proof creation used has the
/// same verifier algorithm and the same transcript as the creation pipeline.
pub proof fn lemma_verify_matches_prove(scheme: CommitmentScheme, pt: ProofType)
    ensures
        spec_verify_pipeline(scheme, spec_transcript_for(pt)).verifier == spec_proof_pipeline(
            scheme,
            pt,
        ).verifier,
        spec_verify_pipeline(scheme, spec_transcript_for(pt)).transcript == spec_proof_pipeline(
            scheme,
            pt,
        ).transcript,
        spec_verify_pipeline(scheme, spec_transcript_for(pt)).scheme == scheme,
{
}

/// Transcript binding at the dispatch level: if the transcript tag recorded on
/// a proof is altered, verification deterministically selects a transcript
/// reader different from the one the proof was created under.
pub proof fn lemma_transcript_binding(scheme: CommitmentScheme, pt: ProofType, t: TranscriptType)
    requires
        t != spec_transcript_for(pt),
    ensures
        spec_verify_pipeline(scheme, t).transcript != spec_proof_pipeline(scheme, pt).transcript,
{
}

} // verus!
