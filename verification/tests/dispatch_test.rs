use ios_ezkl::{
    resolve_proof_pipeline, resolve_verify_pipeline, transcript_for, CheckMode, CheckModeWrapper,
    CommitmentScheme, Multiopen, ProofType, ProofTypeWrapper, StrategyType, TranscriptType,
};

#[test]
fn test_dispatch_kzg_single() {
    let p = resolve_proof_pipeline(CommitmentScheme::KZG, ProofType::Single);
    assert_eq!(p.scheme, CommitmentScheme::KZG);
    assert_eq!(p.prover, Multiopen::SHPLONK);
    assert_eq!(p.verifier, Multiopen::SHPLONK);
    assert_eq!(p.strategy, StrategyType::Single);
    assert_eq!(p.transcript, TranscriptType::EVM);
    assert!(!p.needs_protocol);
}

#[test]
fn test_dispatch_kzg_for_aggr() {
    let p = resolve_proof_pipeline(CommitmentScheme::KZG, ProofType::ForAggr);
    assert_eq!(p.prover, Multiopen::SHPLONK);
    assert_eq!(p.verifier, Multiopen::SHPLONK);
    assert_eq!(p.strategy, StrategyType::Accum);
    assert_eq!(p.transcript, TranscriptType::Poseidon);
    assert!(p.needs_protocol);
}

#[test]
fn test_dispatch_ipa_single() {
    let p = resolve_proof_pipeline(CommitmentScheme::IPA, ProofType::Single);
    assert_eq!(p.prover, Multiopen::IPA);
    assert_eq!(p.verifier, Multiopen::IPA);
    assert_eq!(p.strategy, StrategyType::Single);
    assert_eq!(p.transcript, TranscriptType::EVM);
    assert!(!p.needs_protocol);
}

#[test]
fn test_dispatch_ipa_for_aggr() {
    let p = resolve_proof_pipeline(CommitmentScheme::IPA, ProofType::ForAggr);
    assert_eq!(p.prover, Multiopen::IPA);
    assert_eq!(p.verifier, Multiopen::IPA);
    assert_eq!(p.strategy, StrategyType::Accum);
    assert_eq!(p.transcript, TranscriptType::Poseidon);
    assert!(p.needs_protocol);
}

#[test]
fn test_verify_pipeline_is_single_strategy() {
    let p = resolve_verify_pipeline(CommitmentScheme::KZG, TranscriptType::Poseidon);
    assert_eq!(p.strategy, StrategyType::Single);
    assert_eq!(p.verifier, Multiopen::SHPLONK);
    assert_eq!(p.transcript, TranscriptType::Poseidon);
    assert!(!p.needs_protocol);
    let q = resolve_verify_pipeline(CommitmentScheme::IPA, TranscriptType::EVM);
    assert_eq!(q.verifier, Multiopen::IPA);
    assert_eq!(q.transcript, TranscriptType::EVM);
}

#[test]
fn test_transcript_for_strategy() {
    assert_eq!(transcript_for(ProofType::Single), TranscriptType::EVM);
    assert_eq!(transcript_for(ProofType::ForAggr), TranscriptType::Poseidon);
}

#[test]
fn test_wrapper_conversions() {
    assert_eq!(ProofType::from(ProofTypeWrapper::Single), ProofType::Single);
    assert_eq!(ProofType::from(ProofTypeWrapper::ForAggr), ProofType::ForAggr);
    assert_eq!(CheckMode::from(CheckModeWrapper::SAFE), CheckMode::SAFE);
    assert_eq!(CheckMode::from(CheckModeWrapper::UNSAFE), CheckMode::UNSAFE);
}
