use vstd::prelude::*;

verus! {

use vstd::string::*;
use vstd::utf8::*;

use crate::error::InnerEZKLError;
use crate::graph::{wf_witness, witness_from_json, witness_pairs, witness_to_json,
    CompiledCircuit, GraphWitness};
use crate::json::{jpairs, sp_pairs_doc, strip};
use crate::serialization::{blob_settings, deserialize_circuit, deserialize_params_prover,
    deserialize_vk, is_downsized, key_body, key_k, key_scheme, srs_k, wf_circuit_blob, wf_key,
    wf_params, wf_srs, ProverParams, VerifyingKey};

/// Everything witness generation decides before the backend's forward
/// execution runs: the decoded circuit, the bound input, the optional
/// verifying key, and the commitment material the forward pass must use.
#[derive(Debug)]
pub struct WitnessPlan {
    pub circuit: CompiledCircuit,
    pub input: GraphWitness,
    pub vk: Option<VerifyingKey>,
    pub commitment_params: Option<ProverParams>,
    /// A polynomial commitment is required but no SRS was supplied: the
    /// forward pass runs without commitment material and the witness is not
    /// commitment-checked.
    pub srs_warning: bool,
}

/// The decision half of witness generation: decodes the circuit, binds the
/// caller's input, decodes the optional verifying key under the circuit's own
/// declared scheme, and prepares commitment material exactly when the
/// circuit's module configuration requires a polynomial commitment and an SRS
/// was supplied.
///
/// The verifying key is decoded under the circuit's declared commitment
/// scheme. This deliberately resolves an inherited asymmetry in which the
/// witness path always used the KZG layout regardless of the circuit's
/// scheme while the proving and verification paths used the declared one.
pub fn prepare_witness(
    compiled_circuit: &Vec<u8>,
    input_data: &str,
    serialised_vk: Option<&Vec<u8>>,
    serialised_srs: Option<&Vec<u8>>,
) -> (r: Result<WitnessPlan, InnerEZKLError>)
    ensures
        r matches Ok(plan) ==> {
            let g = blob_settings(compiled_circuit@);
            &&& wf_circuit_blob(compiled_circuit@)
            &&& plan.circuit.settings == g
            &&& plan.circuit.body@ == compiled_circuit@.subrange(
                18,
                compiled_circuit@.len() as int,
            )
            &&& wf_witness(plan.input)
            &&& sp_pairs_doc(strip(encode_utf8(input_data@))) == Some(witness_pairs(plan.input))
            &&& plan.input.vars@.len() == g.num_inputs
            &&& (plan.vk is Some <==> serialised_vk is Some)
            &&& (match serialised_vk {
                Option::Some(vkb) => plan.vk matches Some(vk) && vk.k == g.logrows && vk.scheme
                    == g.commitment && vk.body@ == key_body(vkb@),
                Option::None => plan.vk is None,
            })
            &&& (plan.commitment_params is Some <==> (g.module_requires_polycommit
                && serialised_srs is Some))
            &&& (match serialised_srs {
                Option::Some(sb) => g.module_requires_polycommit ==> (
                plan.commitment_params matches Some(p) && is_downsized(
                    p,
                    g.commitment,
                    sb@,
                    g.logrows,
                ) && wf_params(p)),
                Option::None => true,
            })
            &&& plan.srs_warning == (g.module_requires_polycommit && serialised_srs is None)
        },
        r matches Err(e) ==> {
            ||| e matches InnerEZKLError::DecodeError(_)
            ||| e matches InnerEZKLError::InvalidInput(_)
            ||| e matches InnerEZKLError::ShapeMismatch(_)
            ||| e matches InnerEZKLError::MissingInput(_)
            ||| e matches InnerEZKLError::InsufficientCapacity { .. }
        },
        ({
            let g = blob_settings(compiled_circuit@);
            &&& wf_circuit_blob(compiled_circuit@)
            &&& (sp_pairs_doc(strip(encode_utf8(input_data@))) matches Some(ps) && ps.len()
                == g.num_inputs)
            &&& (match serialised_vk {
                Option::Some(vkb) => wf_key(vkb@) && key_k(vkb@) == g.logrows && key_scheme(vkb@)
                    == g.commitment,
                Option::None => true,
            })
            &&& (g.module_requires_polycommit ==> (match serialised_srs {
                Option::Some(sb) => sb@.len() > 0 && wf_srs(g.commitment, sb@) && srs_k(sb@)
                    >= g.logrows,
                Option::None => true,
            }))
        }) ==> r is Ok,
{
    let circuit = match deserialize_circuit(compiled_circuit) {
        Ok(c) => c,
        Err(e) => {
            return Err(e);
        },
    };
    let input = match witness_from_json(input_data) {
        Ok(w) => w,
        Err(e) => {
            return Err(e);
        },
    };
    if input.vars.len() as u64 != circuit.settings.num_inputs as u64 {
        return Err(
            InnerEZKLError::InvalidInput(
                String::from_str("input data does not match the circuit's input arity"),
            ),
        );
    }
    let vk = match serialised_vk {
        Option::Some(vkb) => {
            match deserialize_vk(vkb, &circuit.settings) {
                Ok(vk) => Option::Some(vk),
                Err(e) => {
                    return Err(e);
                },
            }
        },
        Option::None => Option::None,
    };
    let (commitment_params, srs_warning) = if circuit.settings.module_requires_polycommit {
        match serialised_srs {
            Option::Some(_) => {
                match deserialize_params_prover(
                    circuit.settings.commitment,
                    serialised_srs,
                    circuit.settings.logrows,
                ) {
                    Ok(p) => (Option::Some(p), false),
                    Err(e) => {
                        return Err(e);
                    },
                }
            },
            Option::None => (Option::None, true),
        }
    } else {
        (Option::None, false)
    };
    Ok(WitnessPlan { circuit, input, vk, commitment_params, srs_warning })
}

/// The combined variable list of a finished witness: the bound inputs
/// followed by the forward pass's outputs.
pub open spec fn combined_pairs(input: GraphWitness, outputs: GraphWitness) -> Seq<
    (Seq<u8>, u64),
> {
    witness_pairs(input) + witness_pairs(outputs)
}

/// The assembly half of witness generation: checks the forward result's
/// shape against the circuit and serializes the witness, inputs then
/// outputs, to its canonical JSON document.
pub fn finish_witness(
    circuit: &CompiledCircuit,
    input: &GraphWitness,
    outputs: &GraphWitness,
) -> (r: Result<String, InnerEZKLError>)
    ensures
        r matches Ok(s) ==> {
            &&& outputs.vars@.len() == circuit.settings.num_outputs
            &&& wf_witness(*outputs)
            &&& encode_utf8(s@) == jpairs(combined_pairs(*input, *outputs))
            &&& s@ == decode_utf8(jpairs(combined_pairs(*input, *outputs)))
        },
        r matches Err(e) ==> {
            ||| outputs.vars@.len() != circuit.settings.num_outputs && e matches
                InnerEZKLError::InternalError(_)
            ||| !(wf_witness(*input) && wf_witness(*outputs)) && e matches
                InnerEZKLError::SerializationError(_)
        },
        (outputs.vars@.len() == circuit.settings.num_outputs && wf_witness(*input) && wf_witness(
            *outputs,
        )) ==> r is Ok,
{
    if outputs.vars.len() as u64 != circuit.settings.num_outputs as u64 {
        return Err(
            InnerEZKLError::InternalError(
                String::from_str("forward execution returned a mismatched output shape"),
            ),
        );
    }
    let mut vars: Vec<crate::graph::WitnessVar> = Vec::new();
    let mut k: usize = 0;
    while k < input.vars.len()
        invariant
            0 <= k <= input.vars@.len(),
            vars@ == input.vars@.take(k as int),
        decreases input.vars@.len() - k,
    {
        let v = crate::graph::WitnessVar {
            name: input.vars[k].name.clone(),
            value: input.vars[k].value,
        };
        vars.push(v);
        proof {
            assert(v == input.vars@[k as int]);
            assert(vars@ =~= input.vars@.take(k + 1));
        }
        k += 1;
    }
    let mut k2: usize = 0;
    while k2 < outputs.vars.len()
        invariant
            0 <= k2 <= outputs.vars@.len(),
            vars@ == input.vars@ + outputs.vars@.take(k2 as int),
        decreases outputs.vars@.len() - k2,
    {
        let v = crate::graph::WitnessVar {
            name: outputs.vars[k2].name.clone(),
            value: outputs.vars[k2].value,
        };
        vars.push(v);
        proof {
            assert(v == outputs.vars@[k2 as int]);
            assert(vars@ =~= input.vars@ + outputs.vars@.take(k2 + 1));
        }
        k2 += 1;
    }
    proof {
        assert(input.vars@.take(input.vars@.len() as int) =~= input.vars@);
        assert(outputs.vars@.take(outputs.vars@.len() as int) =~= outputs.vars@);
    }
    let combined = GraphWitness { vars };
    proof {
        assert(witness_pairs(combined) =~= combined_pairs(*input, *outputs));
    }
    match witness_to_json(&combined) {
        Ok(s) => {
            proof {
                assert(witness_pairs(combined) == combined_pairs(*input, *outputs));
                assert(wf_witness(*outputs)) by {
                    assert forall|i: int|
                        0 <= i < outputs.vars@.len() implies crate::graph::wf_var(
                        #[trigger] outputs.vars@[i],
                    ) by {
                        assert(combined.vars@[input.vars@.len() + i] == outputs.vars@[i]);
                        assert(crate::graph::wf_var(combined.vars@[input.vars@.len() + i]));
                    }
                }
            }
            Ok(s)
        },
        Err(e) => Err(e),
    }
}

} // verus!
