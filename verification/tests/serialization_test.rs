use ios_ezkl::{
    deserialise_vk, deserialize_circuit, deserialize_params_prover, deserialize_params_verifier,
    deserialize_pk, deserialize_vk, serialize_circuit, serialize_key, serialize_params,
    CommitmentScheme, CompiledCircuit, GraphSettings, InnerEZKLError,
};

fn tail_len(scheme: CommitmentScheme) -> usize {
    match scheme {
        CommitmentScheme::KZG => 128,
        CommitmentScheme::IPA => 64,
    }
}

/// Builds an SRS buffer of capacity `k` whose point sections hold
/// recognizable bytes.
fn make_srs(scheme: CommitmentScheme, k: u32) -> Vec<u8> {
    let section = 32usize << k;
    let mut out = Vec::new();
    out.extend_from_slice(&k.to_le_bytes());
    for i in 0..section {
        out.push((i % 251) as u8);
    }
    for i in 0..section {
        out.push((i % 241) as u8);
    }
    for i in 0..tail_len(scheme) {
        out.push((i % 7) as u8);
    }
    out
}

fn settings(scheme: CommitmentScheme, logrows: u32) -> GraphSettings {
    GraphSettings {
        logrows,
        commitment: scheme,
        module_requires_polycommit: false,
        num_inputs: 1,
        num_outputs: 1,
    }
}

#[test]
fn test_srs_missing_is_rejected() {
    let r = deserialize_params_prover(CommitmentScheme::KZG, None, 4);
    assert!(matches!(r, Err(InnerEZKLError::MissingInput(_))));
    let empty: Vec<u8> = Vec::new();
    let r2 = deserialize_params_prover(CommitmentScheme::KZG, Some(&empty), 4);
    assert!(matches!(r2, Err(InnerEZKLError::MissingInput(_))));
}

#[test]
fn test_srs_garbage_is_rejected() {
    let junk = vec![9u8, 9, 9];
    let r = deserialize_params_prover(CommitmentScheme::KZG, Some(&junk), 4);
    assert!(matches!(r, Err(InnerEZKLError::DecodeError(_))));
    // a buffer whose recorded capacity disagrees with its length
    let mut srs = make_srs(CommitmentScheme::KZG, 3);
    srs.pop();
    let r2 = deserialize_params_prover(CommitmentScheme::KZG, Some(&srs), 3);
    assert!(matches!(r2, Err(InnerEZKLError::DecodeError(_))));
    // a KZG-sized buffer is not an IPA-sized buffer
    let srs3 = make_srs(CommitmentScheme::KZG, 3);
    let r3 = deserialize_params_prover(CommitmentScheme::IPA, Some(&srs3), 3);
    assert!(matches!(r3, Err(InnerEZKLError::DecodeError(_))));
}

#[test]
fn test_srs_undersize_is_insufficient() {
    let srs = make_srs(CommitmentScheme::KZG, 3);
    let r = deserialize_params_prover(CommitmentScheme::KZG, Some(&srs), 5);
    match r {
        Err(InnerEZKLError::InsufficientCapacity { k, logrows }) => {
            assert_eq!(k, 3);
            assert_eq!(logrows, 5);
        },
        other => panic!("expected insufficient capacity, got {:?}", other),
    }
}

#[test]
fn test_srs_exact_capacity_succeeds() {
    let srs = make_srs(CommitmentScheme::KZG, 4);
    let p = deserialize_params_prover(CommitmentScheme::KZG, Some(&srs), 4).unwrap();
    assert_eq!(p.k, 4);
    assert_eq!(p.g.len(), 32 << 4);
    assert_eq!(p.g_aux.len(), 32 << 4);
    assert_eq!(p.tail.len(), 128);
    assert_eq!(p.g.as_slice(), &srs[4..4 + (32 << 4)]);
}

#[test]
fn test_srs_oversize_is_downsized() {
    let srs = make_srs(CommitmentScheme::KZG, 6);
    let p = deserialize_params_prover(CommitmentScheme::KZG, Some(&srs), 4).unwrap();
    // capacity is exactly logrows, never the larger supplied capacity
    assert_eq!(p.k, 4);
    let keep = 32usize << 4;
    let section = 32usize << 6;
    assert_eq!(p.g.len(), keep);
    assert_eq!(p.g_aux.len(), keep);
    // each section is truncated to its own first points
    assert_eq!(p.g.as_slice(), &srs[4..4 + keep]);
    assert_eq!(p.g_aux.as_slice(), &srs[4 + section..4 + section + keep]);
    assert_eq!(p.tail.as_slice(), &srs[4 + 2 * section..]);
}

#[test]
fn test_verifier_params_mirror_prover_rule() {
    let srs = make_srs(CommitmentScheme::IPA, 5);
    let p = deserialize_params_verifier(CommitmentScheme::IPA, Some(&srs), 3).unwrap();
    assert_eq!(p.k, 3);
    assert_eq!(p.tail.len(), 64);
    let r = deserialize_params_verifier(CommitmentScheme::IPA, Some(&srs), 6);
    assert!(matches!(r, Err(InnerEZKLError::InsufficientCapacity { .. })));
}

#[test]
fn test_params_serialize_round_trip() {
    let srs = make_srs(CommitmentScheme::KZG, 3);
    let p = deserialize_params_prover(CommitmentScheme::KZG, Some(&srs), 3).unwrap();
    let encoded = serialize_params(&p);
    assert_eq!(encoded, srs);
    let again = deserialize_params_prover(CommitmentScheme::KZG, Some(&encoded), 3).unwrap();
    assert_eq!(again.g, p.g);
    assert_eq!(again.g_aux, p.g_aux);
    assert_eq!(again.tail, p.tail);
}

#[test]
fn test_key_round_trip_and_shape_check() {
    let body = vec![7u8, 8, 9, 10];
    let blob = serialize_key(10, CommitmentScheme::KZG, &body).unwrap();
    let g = settings(CommitmentScheme::KZG, 10);
    let vk = deserialize_vk(&blob, &g).unwrap();
    assert_eq!(vk.k, 10);
    assert_eq!(vk.scheme, CommitmentScheme::KZG);
    assert_eq!(vk.body, body);
    let vk2 = deserialise_vk(&blob, &g).unwrap();
    assert_eq!(vk2.body, body);
    let pk = deserialize_pk(&blob, &g).unwrap();
    assert_eq!(pk.k, 10);

    // recorded dimensions must agree with the supplied shape
    let wrong_rows = settings(CommitmentScheme::KZG, 11);
    assert!(matches!(
        deserialize_vk(&blob, &wrong_rows),
        Err(InnerEZKLError::ShapeMismatch(_))
    ));
    let wrong_scheme = settings(CommitmentScheme::IPA, 10);
    assert!(matches!(
        deserialize_vk(&blob, &wrong_scheme),
        Err(InnerEZKLError::ShapeMismatch(_))
    ));

    // corrupt layout is a decode failure, not a shape mismatch
    let mut truncated = blob.clone();
    truncated.pop();
    assert!(matches!(
        deserialize_vk(&truncated, &g),
        Err(InnerEZKLError::DecodeError(_))
    ));
}

#[test]
fn test_circuit_round_trip() {
    let c = CompiledCircuit {
        settings: GraphSettings {
            logrows: 10,
            commitment: CommitmentScheme::KZG,
            module_requires_polycommit: true,
            num_inputs: 1,
            num_outputs: 1,
        },
        body: vec![1, 2, 3, 4, 5],
    };
    let blob = serialize_circuit(&c).unwrap();
    let back = deserialize_circuit(&blob).unwrap();
    assert_eq!(back.settings, c.settings);
    assert_eq!(back.body, c.body);
    let mut corrupted = blob.clone();
    corrupted.truncate(10);
    assert!(matches!(
        deserialize_circuit(&corrupted),
        Err(InnerEZKLError::DecodeError(_))
    ));
}
