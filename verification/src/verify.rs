use vstd::prelude::*;

verus! {

use vstd::string::*;
use vstd::utf8::*;

use crate::dispatch::{resolve_verify_pipeline, spec_verify_pipeline, Pipeline};
use crate::error::InnerEZKLError;
use crate::graph::{settings_bytes, settings_from_json, GraphSettings};
use crate::scheme::CommitmentScheme;
use crate::serialization::{deserialize_params_verifier, deserialize_vk, is_downsized, key_body,
    key_k, key_scheme, srs_k, wf_key, wf_params, wf_srs, ProverParams, VerifyingKey};
use crate::snark::{snark_bytes, snark_from_json, wf_snark, Snark};

/// Everything verification decides before the backend's cryptographic check
/// runs: the pipeline selected from the settings' scheme and the transcript
/// tag the proof itself carries, the verifier parameters at the right
/// capacity, the decoded verifying key, the proof bundle, and the row count.
#[derive(Debug)]
pub struct VerifyJob {
    pub pipeline: Pipeline,
    pub params: ProverParams,
    pub vk: VerifyingKey,
    pub snark: Snark,
    pub rows: u64,
}

/// The capacity the verifier parameters are decoded at: `1` under the
/// reduced-SRS shortcut, which is valid only for the KZG path where the
/// verifier needs just the first generator point; never for IPA.
pub open spec fn spec_verify_capacity(
    scheme: CommitmentScheme,
    logrows: u32,
    reduced_srs: bool,
) -> u32 {
    if reduced_srs && scheme is KZG {
        1u32
    } else {
        logrows
    }
}

/// The decision half of verification: recovers the scheme and row count from
/// the settings document, decodes the proof bundle (which carries its own
/// transcript tag), decodes the verifier parameters and the verifying key,
/// and selects the verifier pipeline. Verification never compiles an
/// aggregation protocol; that belongs to the proof-creation side.
pub fn verify_prepare(
    proof_json: &str,
    settings_json: &str,
    serialised_vk: &Vec<u8>,
    serialised_srs: Option<&Vec<u8>>,
    reduced_srs: bool,
) -> (r: Result<VerifyJob, InnerEZKLError>)
    ensures
        r matches Ok(job) ==> exists|g: GraphSettings|
            {
                &&& encode_utf8(settings_json@) == #[trigger] settings_bytes(g)
                &&& g.logrows < 32
                &&& encode_utf8(proof_json@) == snark_bytes(job.snark)
                &&& wf_snark(job.snark)
                &&& job.pipeline == spec_verify_pipeline(g.commitment, job.snark.transcript_type)
                &&& job.vk.k == g.logrows && job.vk.scheme == g.commitment && job.vk.body@
                    == key_body(serialised_vk@)
                &&& (serialised_srs matches Some(sb) && is_downsized(
                    job.params,
                    g.commitment,
                    sb@,
                    spec_verify_capacity(g.commitment, g.logrows, reduced_srs),
                ) && wf_params(job.params))
                &&& job.rows == (1u64 << g.logrows)
            },
        r matches Err(e) ==> {
            ||| e matches InnerEZKLError::InvalidInput(_)
            ||| e matches InnerEZKLError::DecodeError(_)
            ||| e matches InnerEZKLError::ShapeMismatch(_)
            ||| e matches InnerEZKLError::MissingInput(_)
            ||| e matches InnerEZKLError::InsufficientCapacity { .. }
        },
        forall|g: GraphSettings, sn: Snark|
            ({
                &&& encode_utf8(settings_json@) == #[trigger] settings_bytes(g)
                &&& g.logrows < 32
                &&& wf_snark(sn)
                &&& encode_utf8(proof_json@) == #[trigger] snark_bytes(sn)
                &&& wf_key(serialised_vk@) && key_k(serialised_vk@) == g.logrows && key_scheme(
                    serialised_vk@,
                ) == g.commitment
                &&& (serialised_srs matches Some(sb) && sb@.len() > 0 && wf_srs(g.commitment, sb@)
                    && srs_k(sb@) >= spec_verify_capacity(g.commitment, g.logrows, reduced_srs))
            }) ==> r is Ok,
{
    let settings = match settings_from_json(settings_json) {
        Ok(g) => g,
        Err(e) => {
            return Err(e);
        },
    };
    if settings.logrows >= 32 {
        return Err(
            InnerEZKLError::InvalidInput(
                String::from_str("settings row count exceeds the parameter format's capacity"),
            ),
        );
    }
    let snark = match snark_from_json(proof_json) {
        Ok(sn) => sn,
        Err(e) => {
            return Err(e);
        },
    };
    let capacity: u32 = if reduced_srs {
        match settings.commitment {
            CommitmentScheme::KZG => 1,
            CommitmentScheme::IPA => settings.logrows,
        }
    } else {
        settings.logrows
    };
    let params = match deserialize_params_verifier(settings.commitment, serialised_srs, capacity) {
        Ok(p) => p,
        Err(e) => {
            return Err(e);
        },
    };
    let vk = match deserialize_vk(serialised_vk, &settings) {
        Ok(vk) => vk,
        Err(e) => {
            return Err(e);
        },
    };
    let pipeline = resolve_verify_pipeline(settings.commitment, snark.transcript_type);
    let rows: u64 = 1u64 << settings.logrows;
    let job = VerifyJob { pipeline, params, vk, snark, rows };
    proof {
        let g = settings;
        assert(encode_utf8(settings_json@) == settings_bytes(g));
        assert(job.pipeline == spec_verify_pipeline(g.commitment, job.snark.transcript_type));
    }
    Ok(job)
}

/// The judgment half of verification: wraps the backend's verdict. The
/// library returns `true` exactly when the cryptographic check accepted;
/// a well-formed proof that the check rejected is surfaced as a typed
/// verification error, never as a silent `false`.
pub fn verify_finish(outcome: Result<(), String>) -> (r: Result<bool, InnerEZKLError>)
    ensures
        outcome matches Ok(u) ==> r == Ok::<bool, InnerEZKLError>(true),
        outcome matches Err(m) ==> r == Err::<bool, InnerEZKLError>(
            InnerEZKLError::VerificationError(m),
        ),
        r matches Ok(b) ==> b == true && outcome is Ok,
{
    match outcome {
        Ok(_) => Ok(true),
        Err(m) => Err(InnerEZKLError::VerificationError(m)),
    }
}

} // verus!
