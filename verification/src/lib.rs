//! Mobile-facing orchestration layer over a zero-knowledge proving backend.
//!
//! The library accepts serialized circuits, keys and structured reference
//! strings (SRS) as byte buffers and drives three operations — witness
//! generation, proof creation and proof verification — across two
//! interchangeable polynomial commitment schemes (KZG and IPA). The
//! constraint-system execution and the cryptographic primitives themselves are
//! the proving backend's business; this layer owns the commitment-scheme /
//! strategy / transcript dispatch, the parameter and artifact codecs with
//! their downsizing and shape rules, and the closed error taxonomy.

pub mod dispatch;
pub mod graph;
pub mod json;
pub mod laws;
pub mod prove;
pub mod error;
pub mod gen_witness;
pub mod scheme;
pub mod serialization;
pub mod snark;
pub mod targets;
pub mod verify;

pub use dispatch::{resolve_proof_pipeline, resolve_verify_pipeline, transcript_for, Pipeline};
pub use error::{EZKLError, InnerEZKLError};
pub use gen_witness::{finish_witness, prepare_witness, WitnessPlan};
pub use graph::{settings_from_json, settings_to_json, witness_from_json, witness_to_json,
    CompiledCircuit, GraphSettings, GraphWitness, WitnessVar};
pub use prove::{prove_finish, prove_prepare, CheckModeWrapper, ProofTypeWrapper, ProveJob};
pub use scheme::{CheckMode, CommitmentScheme, Multiopen, ProofType, StrategyType, TranscriptType};
pub use serialization::{deserialise_vk, deserialize_circuit, deserialize_params_prover,
    deserialize_params_verifier, deserialize_pk, deserialize_vk, serialize_circuit, serialize_key,
    serialize_params, ProverParams, ProvingKey, VerifyingKey};
pub use snark::{snark_from_json, snark_to_json, Snark};
pub use targets::install_archs;
pub use verify::{verify_finish, verify_prepare, VerifyJob};
