use vstd::prelude::*;

verus! {

use vstd::string::*;
use vstd::utf8::*;

use crate::dispatch::{resolve_proof_pipeline, spec_proof_pipeline, Pipeline};
use crate::error::InnerEZKLError;
use crate::graph::wf_name;
use crate::json::{ascii_to_string, dec, is_ascii_bytes, is_name_seq, lemma_dec_props, push_byte,
    push_bytes, push_dec, sp_pairs_doc, strip};
use crate::scheme::{CheckMode, ProofType};
use crate::serialization::{blob_settings, deserialize_circuit, deserialize_params_prover,
    deserialize_pk, is_downsized, key_body, key_k, key_scheme, srs_k, wf_circuit_blob, wf_key,
    wf_params, wf_srs, ProverParams, ProvingKey};
use crate::snark::{proof_words, snark_bytes, snark_bytes_view, snark_to_json, wf_snark, Snark};

/// The proof type as the mobile boundary names it.
#[derive(Clone, Copy, Debug, PartialEq, Eq, Structural)]
pub enum ProofTypeWrapper {
    /// The default mode; produces a directly verifiable proof.
    Single,
    /// Produces an accumulator meant for downstream aggregation.
    ForAggr,
}

impl From<ProofTypeWrapper> for ProofType {
    fn from(pt: ProofTypeWrapper) -> (r: ProofType)
        ensures
            r == spec_proof_type_of(pt),
    {
        match pt {
            ProofTypeWrapper::Single => ProofType::Single,
            ProofTypeWrapper::ForAggr => ProofType::ForAggr,
        }
    }
}

pub open spec fn spec_proof_type_of(pt: ProofTypeWrapper) -> ProofType {
    match pt {
        ProofTypeWrapper::Single => ProofType::Single,
        ProofTypeWrapper::ForAggr => ProofType::ForAggr,
    }
}

impl vstd::std_specs::convert::FromSpecImpl<ProofTypeWrapper> for ProofType {
    open spec fn obeys_from_spec() -> bool {
        true
    }

    open spec fn from_spec(pt: ProofTypeWrapper) -> ProofType {
        spec_proof_type_of(pt)
    }
}

/// The check mode as the mobile boundary names it.
#[derive(Clone, Copy, Debug, PartialEq, Eq, Structural)]
pub enum CheckModeWrapper {
    /// Full constraint-satisfaction sanity checks; always use in production.
    SAFE,
    /// Skips the checks; debugging only.
    UNSAFE,
}

impl From<CheckModeWrapper> for CheckMode {
    fn from(cm: CheckModeWrapper) -> (r: CheckMode)
        ensures
            r == spec_check_mode_of(cm),
    {
        match cm {
            CheckModeWrapper::SAFE => CheckMode::SAFE,
            CheckModeWrapper::UNSAFE => CheckMode::UNSAFE,
        }
    }
}

pub open spec fn spec_check_mode_of(cm: CheckModeWrapper) -> CheckMode {
    match cm {
        CheckModeWrapper::SAFE => CheckMode::SAFE,
        CheckModeWrapper::UNSAFE => CheckMode::UNSAFE,
    }
}

impl vstd::std_specs::convert::FromSpecImpl<CheckModeWrapper> for CheckMode {
    open spec fn obeys_from_spec() -> bool {
        true
    }

    open spec fn from_spec(cm: CheckModeWrapper) -> CheckMode {
        spec_check_mode_of(cm)
    }
}

// ---------------------------------------------------------------------------
// Human-readable public inputs
// ---------------------------------------------------------------------------
/// One `name=value` rendering.
pub open spec fn pretty_item(name: Seq<u8>, v: u64) -> Seq<u8> {
    name + seq![61u8] + dec(v)
}

/// The human-readable rendering of the public inputs: `name=value`, comma
/// separated, in witness order.
pub open spec fn pretty_bytes(ps: Seq<(Seq<u8>, u64)>) -> Seq<u8>
    decreases ps.len(),
{
    if ps.len() == 0 {
        Seq::empty()
    } else if ps.len() == 1 {
        pretty_item(ps[0].0, ps[0].1)
    } else {
        pretty_item(ps[0].0, ps[0].1) + seq![44u8] + pretty_bytes(ps.drop_first())
    }
}

/// The values of the members, in order: the raw public inputs.
pub open spec fn pair_values(ps: Seq<(Seq<u8>, u64)>) -> Seq<u64> {
    ps.map_values(|p: (Seq<u8>, u64)| p.1)
}

/// Appending a member appends its rendering.
pub proof fn lemma_pretty_snoc(ps: Seq<(Seq<u8>, u64)>, p: (Seq<u8>, u64))
    ensures
        pretty_bytes(ps.push(p)) == if ps.len() == 0 {
            pretty_item(p.0, p.1)
        } else {
            pretty_bytes(ps) + seq![44u8] + pretty_item(p.0, p.1)
        },
    decreases ps.len(),
{
    let whole = ps.push(p);
    if ps.len() == 0 {
        assert(whole.len() == 1);
        assert(whole[0] == p);
    } else {
        assert(whole[0] == ps[0]);
        lemma_pretty_snoc(ps.drop_first(), p);
        assert(whole.drop_first() =~= ps.drop_first().push(p));
        if ps.len() == 1 {
            assert(pretty_bytes(whole) =~= pretty_bytes(ps) + seq![44u8] + pretty_item(p.0, p.1));
        } else {
            assert(pretty_bytes(whole) =~= pretty_bytes(ps) + seq![44u8] + pretty_item(p.0, p.1));
        }
    }
}

/// The rendering stays inside the string byte set when the names do.
pub proof fn lemma_pretty_names(ps: Seq<(Seq<u8>, u64)>)
    requires
        crate::json::all_names_wf(ps),
    ensures
        is_name_seq(pretty_bytes(ps)),
        is_ascii_bytes(pretty_bytes(ps)),
    decreases ps.len(),
{
    if ps.len() == 0 {
    } else {
        let head = pretty_item(ps[0].0, ps[0].1);
        lemma_dec_props(ps[0].1);
        assert(is_name_seq(ps[0].0));
        assert forall|i: int| 0 <= i < head.len() implies crate::json::is_name_byte(
            #[trigger] head[i],
        ) by {
            assert(head == ps[0].0 + seq![61u8] + dec(ps[0].1));
            if i < ps[0].0.len() {
                assert(head[i] == ps[0].0[i]);
            } else if i > ps[0].0.len() {
                assert(head[i] == dec(ps[0].1)[i - ps[0].0.len() - 1]);
                assert(crate::json::is_digit_byte(dec(ps[0].1)[i - ps[0].0.len() - 1]));
            }
        }
        if ps.len() > 1 {
            let rest = ps.drop_first();
            assert forall|x: int| 0 <= x < rest.len() implies is_name_seq(
                (#[trigger] rest[x]).0,
            ) by {
                assert(rest[x] == ps[x + 1]);
                assert(is_name_seq(ps[x + 1].0));
            }
            lemma_pretty_names(rest);
        }
        assert forall|i: int| 0 <= i < pretty_bytes(ps).len() implies crate::json::is_name_byte(
            #[trigger] pretty_bytes(ps)[i],
        ) by {
            if ps.len() == 1 {
                assert(pretty_bytes(ps)[i] == head[i]);
            } else {
                assert(pretty_bytes(ps) == head + seq![44u8] + pretty_bytes(ps.drop_first()));
                if i < head.len() {
                    assert(pretty_bytes(ps)[i] == head[i]);
                } else if i > head.len() {
                    assert(pretty_bytes(ps)[i] == pretty_bytes(ps.drop_first())[i - head.len()
                        - 1]);
                }
            }
        }
        assert forall|i: int| 0 <= i < pretty_bytes(ps).len() implies (#[trigger] pretty_bytes(
            ps,
        )[i]) < 128 by {
            assert(crate::json::is_name_byte(pretty_bytes(ps)[i]));
        }
    }
}

// ---------------------------------------------------------------------------
// The proving service
// ---------------------------------------------------------------------------
/// Everything proof creation decides before the backend's cryptographic
/// pipeline runs: the resolved pipeline, the decoded proving key and
/// parameters, the public inputs in raw and human-readable form, the
/// aggregation protocol's instance count when one must be compiled, and the
/// check mode.
#[derive(Debug)]
pub struct ProveJob {
    pub pipeline: Pipeline,
    pub pk: ProvingKey,
    pub params: ProverParams,
    pub instances: Vec<u64>,
    pub pretty: String,
    /// `Some(count)` exactly when the strategy is aggregation-bound and a
    /// verification protocol over `count` public instances must be compiled.
    pub protocol_instances: Option<usize>,
    pub check_mode: CheckMode,
}

/// The decision half of proof creation: binds the witness to the circuit,
/// extracts the public inputs, decodes the proving key and the prover
/// parameters under the circuit's own declared scheme and row count, and
/// resolves the pipeline from the dispatch table.
#[verifier::loop_isolation(false)]
pub fn prove_prepare(
    witness_json: &str,
    compiled_circuit: &Vec<u8>,
    serialized_pk: &Vec<u8>,
    serialised_srs: Option<&Vec<u8>>,
    proof_type: ProofType,
    check_mode: CheckMode,
) -> (r: Result<ProveJob, InnerEZKLError>)
    ensures
        r matches Ok(job) ==> {
            let g = blob_settings(compiled_circuit@);
            let doc = sp_pairs_doc(strip(encode_utf8(witness_json@)));
            &&& wf_circuit_blob(compiled_circuit@)
            &&& doc matches Some(ps) && {
                &&& ps.len() == g.num_inputs + g.num_outputs
                &&& job.instances@ == pair_values(ps)
                &&& encode_utf8(job.pretty@) == pretty_bytes(ps)
                &&& wf_name(job.pretty@)
            }
            &&& job.pipeline == spec_proof_pipeline(g.commitment, proof_type)
            &&& job.pk.k == g.logrows && job.pk.scheme == g.commitment && job.pk.body@ == key_body(
                serialized_pk@,
            )
            &&& (serialised_srs matches Some(sb) && is_downsized(
                job.params,
                g.commitment,
                sb@,
                g.logrows,
            ) && wf_params(job.params))
            &&& job.protocol_instances == (if proof_type is ForAggr {
                Option::Some(job.instances@.len() as usize)
            } else {
                Option::None::<usize>
            })
            &&& job.check_mode == check_mode
        },
        r matches Err(e) ==> {
            ||| e matches InnerEZKLError::InvalidInput(_)
            ||| e matches InnerEZKLError::DecodeError(_)
            ||| e matches InnerEZKLError::WitnessMismatch(_)
            ||| e matches InnerEZKLError::ShapeMismatch(_)
            ||| e matches InnerEZKLError::MissingInput(_)
            ||| e matches InnerEZKLError::InsufficientCapacity { .. }
        },
        ({
            let g = blob_settings(compiled_circuit@);
            &&& wf_circuit_blob(compiled_circuit@)
            &&& (sp_pairs_doc(strip(encode_utf8(witness_json@))) matches Some(ps) && ps.len()
                == g.num_inputs + g.num_outputs)
            &&& wf_key(serialized_pk@) && key_k(serialized_pk@) == g.logrows && key_scheme(
                serialized_pk@,
            ) == g.commitment
            &&& (serialised_srs matches Some(sb) && sb@.len() > 0 && wf_srs(g.commitment, sb@)
                && srs_k(sb@) >= g.logrows)
        }) ==> r is Ok,
{
    let witness = match crate::graph::witness_from_json(witness_json) {
        Ok(w) => w,
        Err(e) => {
            return Err(e);
        },
    };
    let circuit = match deserialize_circuit(compiled_circuit) {
        Ok(c) => c,
        Err(e) => {
            return Err(e);
        },
    };
    let g = circuit.settings;
    if witness.vars.len() as u64 != g.num_inputs as u64 + g.num_outputs as u64 {
        return Err(
            InnerEZKLError::WitnessMismatch(
                String::from_str("witness shape disagrees with the circuit"),
            ),
        );
    }
    let ghost ps = crate::graph::witness_pairs(witness);
    let mut instances: Vec<u64> = Vec::new();
    let mut pretty_out: Vec<u8> = Vec::new();
    let mut k: usize = 0;
    proof {
        assert(ps.take(0) =~= Seq::<(Seq<u8>, u64)>::empty());
        assert(instances@ =~= pair_values(ps.take(0)));
        assert(pretty_out@ =~= pretty_bytes(ps.take(0)));
    }
    while k < witness.vars.len()
        invariant
            0 <= k <= witness.vars@.len(),
            instances@ == pair_values(ps.take(k as int)),
            pretty_out@ == pretty_bytes(ps.take(k as int)),
        decreases witness.vars@.len() - k,
    {
        let ghost pre = ps.take(k as int);
        instances.push(witness.vars[k].value);
        if k > 0 {
            push_byte(&mut pretty_out, 44);
        }
        let nb = witness.vars[k].name.as_str().as_bytes_vec();
        push_bytes(&mut pretty_out, &nb);
        push_byte(&mut pretty_out, 61);
        push_dec(&mut pretty_out, witness.vars[k].value);
        proof {
            assert(ps[k as int] == (
                encode_utf8(witness.vars@[k as int].name@),
                witness.vars@[k as int].value,
            ));
            assert(ps.take(k + 1) =~= pre.push(ps[k as int]));
            lemma_pretty_snoc(pre, ps[k as int]);
            assert(pretty_item(ps[k as int].0, ps[k as int].1) == nb@ + seq![61u8] + dec(
                witness.vars@[k as int].value,
            ));
            assert(pretty_out@ =~= pretty_bytes(ps.take(k + 1)));
            assert(pair_values(ps.take(k + 1)) =~= pair_values(pre).push(
                witness.vars@[k as int].value,
            ));
        }
        k += 1;
    }
    proof {
        assert(ps.take(ps.len() as int) =~= ps);
        assert(crate::json::all_names_wf(ps)) by {
            assert forall|x: int| 0 <= x < ps.len() implies is_name_seq(
                (#[trigger] ps[x]).0,
            ) by {
                assert(ps[x] == (
                    encode_utf8(witness.vars@[x].name@),
                    witness.vars@[x].value,
                ));
                assert(crate::graph::wf_var(witness.vars@[x]));
            }
        }
        lemma_pretty_names(ps);
    }
    let pretty = ascii_to_string(pretty_out);
    let pk = match deserialize_pk(serialized_pk, &g) {
        Ok(pk) => pk,
        Err(e) => {
            return Err(e);
        },
    };
    let params = match deserialize_params_prover(g.commitment, serialised_srs, g.logrows) {
        Ok(p) => p,
        Err(e) => {
            return Err(e);
        },
    };
    let pipeline = resolve_proof_pipeline(g.commitment, proof_type);
    let protocol_instances = match proof_type {
        ProofType::Single => Option::None,
        ProofType::ForAggr => Option::Some(instances.len()),
    };
    Ok(ProveJob { pipeline, pk, params, instances, pretty, protocol_instances, check_mode })
}

/// The assembly half of proof creation: wraps the backend's outcome. A
/// backend failure is wrapped as a proof-creation error; a produced proof is
/// bundled with its public inputs and the pipeline's transcript tag and
/// serialized as the canonical proof document.
pub fn prove_finish(job: ProveJob, backend_result: Result<Vec<u8>, String>) -> (r: Result<
    String,
    InnerEZKLError,
>)
    ensures
        backend_result matches Err(m) ==> r == Err::<String, InnerEZKLError>(
            InnerEZKLError::ProofCreationError(m),
        ),
        backend_result matches Ok(bytes) ==> {
            if wf_name(job.pretty@) {
                r matches Ok(s) && encode_utf8(s@) == snark_bytes_view(
                    job.instances@,
                    proof_words(bytes@),
                    job.pipeline.transcript,
                    encode_utf8(job.pretty@),
                ) && (exists|sn: Snark|
                    {
                        &&& #[trigger] wf_snark(sn)
                        &&& sn.instances@ == job.instances@
                        &&& sn.proof@ == bytes@
                        &&& sn.transcript_type == job.pipeline.transcript
                        &&& sn.pretty_public_inputs@ == job.pretty@
                        &&& encode_utf8(s@) == snark_bytes(sn)
                    })
            } else {
                r matches Err(e) && e matches InnerEZKLError::SerializationError(_)
            }
        },
{
    match backend_result {
        Err(m) => Err(InnerEZKLError::ProofCreationError(m)),
        Ok(bytes) => {
            let sn = Snark {
                instances: job.instances,
                proof: bytes,
                transcript_type: job.pipeline.transcript,
                pretty_public_inputs: job.pretty,
            };
            let r = snark_to_json(&sn);
            proof {
                if r is Ok {
                    assert(wf_snark(sn));
                }
            }
            r
        },
    }
}

} // verus!
