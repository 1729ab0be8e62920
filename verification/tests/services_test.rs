use ios_ezkl::{
    finish_witness, prepare_witness, prove_finish, prove_prepare, serialize_circuit,
    serialize_key, verify_finish, verify_prepare, CheckMode, CommitmentScheme, CompiledCircuit,
    EZKLError, GraphSettings, GraphWitness, InnerEZKLError, Multiopen, ProofType, StrategyType,
    TranscriptType, WitnessVar,
};

fn tail_len(scheme: CommitmentScheme) -> usize {
    match scheme {
        CommitmentScheme::KZG => 128,
        CommitmentScheme::IPA => 64,
    }
}

fn make_srs(scheme: CommitmentScheme, k: u32) -> Vec<u8> {
    let section = 32usize << k;
    let mut out = Vec::new();
    out.extend_from_slice(&k.to_le_bytes());
    for i in 0..2 * section + tail_len(scheme) {
        out.push((i % 253) as u8);
    }
    out
}

fn square_settings(scheme: CommitmentScheme, polycommit: bool) -> GraphSettings {
    GraphSettings {
        logrows: 10,
        commitment: scheme,
        module_requires_polycommit: polycommit,
        num_inputs: 1,
        num_outputs: 1,
    }
}

fn square_circuit(scheme: CommitmentScheme, polycommit: bool) -> Vec<u8> {
    let c = CompiledCircuit {
        settings: square_settings(scheme, polycommit),
        body: vec![42; 16],
    };
    serialize_circuit(&c).unwrap()
}

fn key_blob(scheme: CommitmentScheme) -> Vec<u8> {
    serialize_key(10, scheme, &vec![5u8; 32]).unwrap()
}

fn outputs_y9() -> GraphWitness {
    GraphWitness {
        vars: vec![WitnessVar { name: "y".to_string(), value: 9 }],
    }
}

#[test]
fn test_prepare_witness_with_srs() {
    let circuit = square_circuit(CommitmentScheme::KZG, true);
    let srs = make_srs(CommitmentScheme::KZG, 12);
    let vk = key_blob(CommitmentScheme::KZG);
    let plan = prepare_witness(&circuit, "{\"x\": 3}", Some(&vk), Some(&srs)).unwrap();
    assert_eq!(plan.input.vars.len(), 1);
    assert_eq!(plan.input.vars[0].value, 3);
    assert!(plan.vk.is_some());
    // the supplied SRS had more capacity than needed: downsized, never reused upward
    let p = plan.commitment_params.as_ref().unwrap();
    assert_eq!(p.k, 10);
    assert!(!plan.srs_warning);
}

#[test]
fn test_prepare_witness_without_srs_warns() {
    let circuit = square_circuit(CommitmentScheme::KZG, true);
    let plan = prepare_witness(&circuit, "{\"x\":3}", None, None).unwrap();
    assert!(plan.commitment_params.is_none());
    assert!(plan.srs_warning);
}

#[test]
fn test_prepare_witness_no_polycommit_ignores_srs() {
    let circuit = square_circuit(CommitmentScheme::KZG, false);
    let plan = prepare_witness(&circuit, "{\"x\":3}", None, None).unwrap();
    assert!(plan.commitment_params.is_none());
    assert!(!plan.srs_warning);
}

#[test]
fn test_prepare_witness_vk_follows_circuit_scheme() {
    // an IPA circuit decodes its verifying key under the IPA layout, not KZG
    let circuit = square_circuit(CommitmentScheme::IPA, false);
    let ipa_vk = key_blob(CommitmentScheme::IPA);
    let plan = prepare_witness(&circuit, "{\"x\":3}", Some(&ipa_vk), None).unwrap();
    assert_eq!(plan.vk.unwrap().scheme, CommitmentScheme::IPA);
    let kzg_vk = key_blob(CommitmentScheme::KZG);
    assert!(matches!(
        prepare_witness(&circuit, "{\"x\":3}", Some(&kzg_vk), None),
        Err(InnerEZKLError::ShapeMismatch(_))
    ));
}

#[test]
fn test_prepare_witness_rejects_bad_arity() {
    let circuit = square_circuit(CommitmentScheme::KZG, false);
    assert!(matches!(
        prepare_witness(&circuit, "{\"x\":3,\"z\":4}", None, None),
        Err(InnerEZKLError::InvalidInput(_))
    ));
}

#[test]
fn test_finish_witness_renders_inputs_then_outputs() {
    let circuit = square_circuit(CommitmentScheme::KZG, false);
    let plan = prepare_witness(&circuit, "{\"x\":3}", None, None).unwrap();
    let s = finish_witness(&plan.circuit, &plan.input, &outputs_y9()).unwrap();
    assert_eq!(s, "{\"x\":3,\"y\":9}");
}

#[test]
fn test_finish_witness_is_idempotent() {
    let circuit = square_circuit(CommitmentScheme::KZG, false);
    let plan = prepare_witness(&circuit, "{\"x\": 3}", None, None).unwrap();
    let s1 = finish_witness(&plan.circuit, &plan.input, &outputs_y9()).unwrap();
    let s2 = finish_witness(&plan.circuit, &plan.input, &outputs_y9()).unwrap();
    assert_eq!(s1, s2);
}

#[test]
fn test_finish_witness_rejects_bad_output_shape() {
    let circuit = square_circuit(CommitmentScheme::KZG, false);
    let plan = prepare_witness(&circuit, "{\"x\":3}", None, None).unwrap();
    let empty = GraphWitness { vars: Vec::new() };
    assert!(matches!(
        finish_witness(&plan.circuit, &plan.input, &empty),
        Err(InnerEZKLError::InternalError(_))
    ));
}

#[test]
fn test_prove_prepare_single() {
    let circuit = square_circuit(CommitmentScheme::KZG, false);
    let srs = make_srs(CommitmentScheme::KZG, 10);
    let pk = key_blob(CommitmentScheme::KZG);
    let job = prove_prepare(
        "{\"x\":3,\"y\":9}",
        &circuit,
        &pk,
        Some(&srs),
        ProofType::Single,
        CheckMode::SAFE,
    )
    .unwrap();
    assert_eq!(job.instances, vec![3, 9]);
    assert_eq!(job.pretty, "x=3,y=9");
    assert_eq!(job.pipeline.prover, Multiopen::SHPLONK);
    assert_eq!(job.pipeline.transcript, TranscriptType::EVM);
    assert_eq!(job.pipeline.strategy, StrategyType::Single);
    assert!(job.protocol_instances.is_none());
    assert_eq!(job.params.k, 10);
    assert_eq!(job.check_mode, CheckMode::SAFE);
}

#[test]
fn test_prove_prepare_for_aggr_compiles_protocol() {
    let circuit = square_circuit(CommitmentScheme::IPA, false);
    let srs = make_srs(CommitmentScheme::IPA, 10);
    let pk = key_blob(CommitmentScheme::IPA);
    let job = prove_prepare(
        "{\"x\":3,\"y\":9}",
        &circuit,
        &pk,
        Some(&srs),
        ProofType::ForAggr,
        CheckMode::UNSAFE,
    )
    .unwrap();
    assert_eq!(job.pipeline.transcript, TranscriptType::Poseidon);
    assert_eq!(job.pipeline.strategy, StrategyType::Accum);
    assert!(job.pipeline.needs_protocol);
    assert_eq!(job.protocol_instances, Some(2));
    assert_eq!(job.pipeline.prover, Multiopen::IPA);
}

#[test]
fn test_prove_prepare_rejects_witness_mismatch() {
    let circuit = square_circuit(CommitmentScheme::KZG, false);
    let srs = make_srs(CommitmentScheme::KZG, 10);
    let pk = key_blob(CommitmentScheme::KZG);
    let r = prove_prepare(
        "{\"x\":3}",
        &circuit,
        &pk,
        Some(&srs),
        ProofType::Single,
        CheckMode::SAFE,
    );
    assert!(matches!(r, Err(InnerEZKLError::WitnessMismatch(_))));
}

#[test]
fn test_prove_finish_wraps_outcomes() {
    let circuit = square_circuit(CommitmentScheme::KZG, false);
    let srs = make_srs(CommitmentScheme::KZG, 10);
    let pk = key_blob(CommitmentScheme::KZG);
    let job = prove_prepare(
        "{\"x\":3,\"y\":9}",
        &circuit,
        &pk,
        Some(&srs),
        ProofType::Single,
        CheckMode::SAFE,
    )
    .unwrap();
    let s = prove_finish(job, Ok(vec![1, 2, 3])).unwrap();
    assert_eq!(
        s,
        "{\"instances\":[3,9],\"proof\":[1,2,3],\"transcript_type\":\"EVM\",\
         \"pretty_public_inputs\":\"x=3,y=9\"}"
    );
    let job2 = prove_prepare(
        "{\"x\":3,\"y\":9}",
        &circuit,
        &pk,
        Some(&srs),
        ProofType::Single,
        CheckMode::SAFE,
    )
    .unwrap();
    let r = prove_finish(job2, Err("unsatisfied constraint".to_string()));
    match r {
        Err(InnerEZKLError::ProofCreationError(m)) => {
            assert_eq!(m, "unsatisfied constraint");
        },
        other => panic!("expected proof creation error, got {:?}", other),
    }
}

#[test]
fn test_verify_prepare_selects_pipeline_from_tag() {
    let srs = make_srs(CommitmentScheme::KZG, 10);
    let vk = key_blob(CommitmentScheme::KZG);
    let settings = ios_ezkl::settings_to_json(&square_settings(CommitmentScheme::KZG, false));
    let proof = "{\"instances\":[3,9],\"proof\":[1,2,3],\"transcript_type\":\"Poseidon\",\
                 \"pretty_public_inputs\":\"x=3,y=9\"}";
    let job = verify_prepare(proof, &settings, &vk, Some(&srs), false).unwrap();
    assert_eq!(job.pipeline.transcript, TranscriptType::Poseidon);
    assert_eq!(job.pipeline.verifier, Multiopen::SHPLONK);
    assert_eq!(job.pipeline.strategy, StrategyType::Single);
    assert_eq!(job.rows, 1024);
    assert_eq!(job.params.k, 10);
    assert_eq!(job.snark.proof, vec![1, 2, 3]);
}

#[test]
fn test_verify_prepare_reduced_srs_is_kzg_only() {
    let srs = make_srs(CommitmentScheme::KZG, 10);
    let vk = key_blob(CommitmentScheme::KZG);
    let settings = ios_ezkl::settings_to_json(&square_settings(CommitmentScheme::KZG, false));
    let proof = "{\"instances\":[3,9],\"proof\":[1],\"transcript_type\":\"EVM\",\
                 \"pretty_public_inputs\":\"x=3,y=9\"}";
    let job = verify_prepare(proof, &settings, &vk, Some(&srs), true).unwrap();
    // the KZG shortcut decodes at the minimal capacity of one
    assert_eq!(job.params.k, 1);
    // the IPA path never takes the shortcut
    let srs_ipa = make_srs(CommitmentScheme::IPA, 10);
    let vk_ipa = key_blob(CommitmentScheme::IPA);
    let settings_ipa = ios_ezkl::settings_to_json(&square_settings(CommitmentScheme::IPA, false));
    let job_ipa = verify_prepare(proof, &settings_ipa, &vk_ipa, Some(&srs_ipa), true).unwrap();
    assert_eq!(job_ipa.params.k, 10);
}

#[test]
fn test_verify_prepare_scheme_mismatch_fails() {
    // a proof made under KZG settings cannot be verified with an IPA-recorded key
    let srs = make_srs(CommitmentScheme::KZG, 10);
    let ipa_vk = key_blob(CommitmentScheme::IPA);
    let settings = ios_ezkl::settings_to_json(&square_settings(CommitmentScheme::KZG, false));
    let proof = "{\"instances\":[3,9],\"proof\":[1,2,3],\"transcript_type\":\"EVM\",\
                 \"pretty_public_inputs\":\"x=3,y=9\"}";
    let r = verify_prepare(proof, &settings, &ipa_vk, Some(&srs), false);
    assert!(matches!(r, Err(InnerEZKLError::ShapeMismatch(_))));
}

#[test]
fn test_verify_finish_policy() {
    assert_eq!(verify_finish(Ok(())).unwrap(), true);
    let r = verify_finish(Err("pairing check failed".to_string()));
    match r {
        Err(InnerEZKLError::VerificationError(m)) => {
            assert_eq!(m, "pairing check failed");
        },
        other => panic!("expected verification error, got {:?}", other),
    }
}

#[test]
fn test_boundary_error_wrapping() {
    let inner = InnerEZKLError::InvalidInput("bad input".to_string());
    let outer = EZKLError::from(inner);
    match &outer {
        EZKLError::InvalidInput(m) => assert_eq!(m, "bad input"),
        other => panic!("expected invalid input, got {:?}", other),
    }
    assert_eq!(outer.message(), "Invalid input: bad input");
    let wrapped = EZKLError::from(InnerEZKLError::InsufficientCapacity { k: 3, logrows: 5 });
    assert_eq!(wrapped.message(), "Internal error: insufficient SRS capacity");
}

#[test]
fn test_install_archs_list() {
    let archs = ios_ezkl::install_archs();
    assert_eq!(
        archs,
        vec![
            "x86_64-apple-ios".to_string(),
            "aarch64-apple-ios".to_string(),
            "aarch64-apple-ios-sim".to_string()
        ]
    );
}
