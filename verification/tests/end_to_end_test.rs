//! The whole service chain on a toy square circuit: one input `x`, one
//! output `y = x * x`, KZG commitments, `logrows = 10`. The tests stand in
//! for the proving backend at the three points where it would run: forward
//! execution, proof creation, and the final cryptographic check.

use ios_ezkl::{
    finish_witness, prepare_witness, prove_finish, prove_prepare, serialize_circuit,
    serialize_key, settings_to_json, snark_from_json, verify_finish, verify_prepare, CheckMode,
    CommitmentScheme, CompiledCircuit, GraphSettings, GraphWitness, InnerEZKLError, ProofType,
    TranscriptType, WitnessVar,
};

fn make_srs(k: u32) -> Vec<u8> {
    let section = 32usize << k;
    let mut out = Vec::new();
    out.extend_from_slice(&k.to_le_bytes());
    for i in 0..2 * section + 128 {
        out.push((i % 249) as u8);
    }
    out
}

fn square_settings() -> GraphSettings {
    GraphSettings {
        logrows: 10,
        commitment: CommitmentScheme::KZG,
        module_requires_polycommit: false,
        num_inputs: 1,
        num_outputs: 1,
    }
}

fn square_circuit() -> Vec<u8> {
    serialize_circuit(&CompiledCircuit { settings: square_settings(), body: vec![7; 8] }).unwrap()
}

/// The backend's forward pass for the square circuit.
fn forward_square(input: &GraphWitness) -> GraphWitness {
    let x = input.vars[0].value;
    GraphWitness {
        vars: vec![WitnessVar { name: "y".to_string(), value: x * x }],
    }
}

#[test]
fn test_end_to_end() {
    let circuit = square_circuit();
    let srs = make_srs(12);
    let vk = serialize_key(10, CommitmentScheme::KZG, &vec![5u8; 64]).unwrap();
    let pk = serialize_key(10, CommitmentScheme::KZG, &vec![6u8; 64]).unwrap();

    // witness generation: input {"x": 3} produces witness {"x":3,"y":9}
    let plan = prepare_witness(&circuit, "{\"x\": 3}", Some(&vk), Some(&srs)).unwrap();
    let outputs = forward_square(&plan.input);
    let witness_json = finish_witness(&plan.circuit, &plan.input, &outputs).unwrap();
    assert_eq!(witness_json, "{\"x\":3,\"y\":9}");

    // proof creation over the witness, with the backend supplying the bytes
    let job = prove_prepare(
        &witness_json,
        &circuit,
        &pk,
        Some(&srs),
        ProofType::Single,
        CheckMode::SAFE,
    )
    .unwrap();
    assert_eq!(job.instances, vec![3, 9]);
    let proof_bytes: Vec<u8> = vec![17, 34, 51, 68];
    let proof_json = prove_finish(job, Ok(proof_bytes.clone())).unwrap();

    // verification: the proof document carries everything verification needs
    let settings_json = settings_to_json(&square_settings());
    let vjob = verify_prepare(&proof_json, &settings_json, &vk, Some(&srs), false).unwrap();
    assert_eq!(vjob.snark.proof, proof_bytes);
    assert_eq!(vjob.snark.instances, vec![3, 9]);
    assert_eq!(vjob.pipeline.transcript, TranscriptType::EVM);
    assert_eq!(vjob.rows, 1024);
    // the backend's check accepts: verification reports true
    assert_eq!(verify_finish(Ok(())).unwrap(), true);
}

#[test]
fn test_witness_generation_idempotent() {
    let circuit = square_circuit();
    let plan1 = prepare_witness(&circuit, "{\"x\": 3}", None, None).unwrap();
    let w1 = finish_witness(&plan1.circuit, &plan1.input, &forward_square(&plan1.input)).unwrap();
    let plan2 = prepare_witness(&circuit, "{\"x\": 3}", None, None).unwrap();
    let w2 = finish_witness(&plan2.circuit, &plan2.input, &forward_square(&plan2.input)).unwrap();
    assert_eq!(w1, w2);
}

#[test]
fn test_tampered_proof_bytes_reach_the_check_changed() {
    let circuit = square_circuit();
    let srs = make_srs(10);
    let pk = serialize_key(10, CommitmentScheme::KZG, &vec![6u8; 64]).unwrap();
    let plan = prepare_witness(&circuit, "{\"x\": 3}", None, Some(&srs)).unwrap();
    let witness_json =
        finish_witness(&plan.circuit, &plan.input, &forward_square(&plan.input)).unwrap();
    let job = prove_prepare(
        &witness_json,
        &circuit,
        &pk,
        Some(&srs),
        ProofType::Single,
        CheckMode::SAFE,
    )
    .unwrap();
    let proof_json = prove_finish(job, Ok(vec![17, 34, 51, 68])).unwrap();

    // flip a byte inside the proof bytes field
    let tampered = proof_json.replace("[17,34,51,68]", "[18,34,51,68]");
    assert_ne!(tampered, proof_json);
    let sn = snark_from_json(&tampered).unwrap();
    // the decoder hands the backend exactly the tampered bytes, so the
    // cryptographic check sees the alteration and rejects; the library then
    // reports a typed error, never true
    assert_eq!(sn.proof, vec![18, 34, 51, 68]);
    let r = verify_finish(Err("transcript mismatch".to_string()));
    assert!(matches!(r, Err(InnerEZKLError::VerificationError(_))));
}

#[test]
fn test_altered_transcript_tag_switches_pipeline() {
    let circuit = square_circuit();
    let srs = make_srs(10);
    let vk = serialize_key(10, CommitmentScheme::KZG, &vec![5u8; 64]).unwrap();
    let pk = serialize_key(10, CommitmentScheme::KZG, &vec![6u8; 64]).unwrap();
    let plan = prepare_witness(&circuit, "{\"x\": 3}", None, Some(&srs)).unwrap();
    let witness_json =
        finish_witness(&plan.circuit, &plan.input, &forward_square(&plan.input)).unwrap();
    // an aggregation-bound proof is created under the Poseidon transcript
    let job = prove_prepare(
        &witness_json,
        &circuit,
        &pk,
        Some(&srs),
        ProofType::ForAggr,
        CheckMode::SAFE,
    )
    .unwrap();
    let created_transcript = job.pipeline.transcript;
    assert_eq!(created_transcript, TranscriptType::Poseidon);
    let proof_json = prove_finish(job, Ok(vec![1, 2, 3])).unwrap();

    // altering the recorded tag routes verification to the other reader
    let tampered = proof_json.replace("\"Poseidon\"", "\"EVM\"");
    assert_ne!(tampered, proof_json);
    let settings_json = settings_to_json(&square_settings());
    let vjob = verify_prepare(&tampered, &settings_json, &vk, Some(&srs), false).unwrap();
    assert_eq!(vjob.pipeline.transcript, TranscriptType::EVM);
    assert_ne!(vjob.pipeline.transcript, created_transcript);
}

#[test]
fn test_end_to_end_ipa() {
    let settings = GraphSettings {
        logrows: 8,
        commitment: CommitmentScheme::IPA,
        module_requires_polycommit: false,
        num_inputs: 1,
        num_outputs: 1,
    };
    let circuit =
        serialize_circuit(&CompiledCircuit { settings, body: vec![9; 4] }).unwrap();
    let section = 32usize << 8;
    let mut srs = Vec::new();
    srs.extend_from_slice(&8u32.to_le_bytes());
    for i in 0..2 * section + 64 {
        srs.push((i % 239) as u8);
    }
    let vk = serialize_key(8, CommitmentScheme::IPA, &vec![5u8; 16]).unwrap();
    let pk = serialize_key(8, CommitmentScheme::IPA, &vec![6u8; 16]).unwrap();

    let plan = prepare_witness(&circuit, "{\"x\": 4}", Some(&vk), Some(&srs)).unwrap();
    let witness_json =
        finish_witness(&plan.circuit, &plan.input, &forward_square(&plan.input)).unwrap();
    assert_eq!(witness_json, "{\"x\":4,\"y\":16}");

    let job = prove_prepare(
        &witness_json,
        &circuit,
        &pk,
        Some(&srs),
        ProofType::Single,
        CheckMode::SAFE,
    )
    .unwrap();
    let proof_json = prove_finish(job, Ok(vec![8, 8, 8])).unwrap();

    let settings_json = settings_to_json(&settings);
    let vjob = verify_prepare(&proof_json, &settings_json, &vk, Some(&srs), false).unwrap();
    assert_eq!(vjob.snark.instances, vec![4, 16]);
    assert_eq!(vjob.rows, 256);
    assert_eq!(verify_finish(Ok(())).unwrap(), true);
}
