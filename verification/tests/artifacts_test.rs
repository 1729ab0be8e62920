use ios_ezkl::{
    settings_from_json, settings_to_json, snark_from_json, snark_to_json, witness_from_json,
    witness_to_json, CommitmentScheme, GraphSettings, GraphWitness, InnerEZKLError, Snark,
    TranscriptType, WitnessVar,
};

fn kzg_settings() -> GraphSettings {
    GraphSettings {
        logrows: 10,
        commitment: CommitmentScheme::KZG,
        module_requires_polycommit: false,
        num_inputs: 1,
        num_outputs: 1,
    }
}

fn square_witness() -> GraphWitness {
    GraphWitness {
        vars: vec![
            WitnessVar { name: "x".to_string(), value: 3 },
            WitnessVar { name: "y".to_string(), value: 9 },
        ],
    }
}

#[test]
fn test_settings_render_exactly() {
    let s = settings_to_json(&kzg_settings());
    assert_eq!(
        s,
        "{\"commitment\":\"KZG\",\"logrows\":10,\"module_requires_polycommit\":false,\
         \"num_inputs\":1,\"num_outputs\":1}"
    );
}

#[test]
fn test_settings_round_trip() {
    let g = GraphSettings {
        logrows: 17,
        commitment: CommitmentScheme::IPA,
        module_requires_polycommit: true,
        num_inputs: 3,
        num_outputs: 2,
    };
    let s = settings_to_json(&g);
    let back = settings_from_json(&s).unwrap();
    assert_eq!(back, g);
}

#[test]
fn test_settings_is_standard_json() {
    let s = settings_to_json(&kzg_settings());
    let v: serde_json::Value = serde_json::from_str(&s).expect("settings must be valid JSON");
    assert_eq!(v["commitment"], "KZG");
    assert_eq!(v["logrows"], 10);
    assert_eq!(v["module_requires_polycommit"], false);
    assert_eq!(v["num_inputs"], 1);
    assert_eq!(v["num_outputs"], 1);
}

#[test]
fn test_settings_rejects_malformed() {
    assert!(matches!(
        settings_from_json("not json at all"),
        Err(InnerEZKLError::InvalidInput(_))
    ));
    assert!(matches!(
        settings_from_json("{\"commitment\":\"RSA\",\"logrows\":10}"),
        Err(InnerEZKLError::InvalidInput(_))
    ));
    assert!(matches!(
        settings_from_json(""),
        Err(InnerEZKLError::InvalidInput(_))
    ));
}

#[test]
fn test_witness_render_exactly() {
    let w = square_witness();
    let s = witness_to_json(&w).unwrap();
    assert_eq!(s, "{\"x\":3,\"y\":9}");
}

#[test]
fn test_witness_round_trip() {
    let w = square_witness();
    let s = witness_to_json(&w).unwrap();
    let back = witness_from_json(&s).unwrap();
    assert_eq!(back.vars.len(), 2);
    assert_eq!(back.vars[0].name, "x");
    assert_eq!(back.vars[0].value, 3);
    assert_eq!(back.vars[1].name, "y");
    assert_eq!(back.vars[1].value, 9);
}

#[test]
fn test_witness_parse_tolerates_whitespace() {
    let w = witness_from_json("{\"x\": 3}").unwrap();
    assert_eq!(w.vars.len(), 1);
    assert_eq!(w.vars[0].name, "x");
    assert_eq!(w.vars[0].value, 3);
    let w2 = witness_from_json(" { \"a\" : 1 , \"b\" : 2 } ").unwrap();
    assert_eq!(w2.vars.len(), 2);
    assert_eq!(w2.vars[1].value, 2);
}

#[test]
fn test_witness_parse_empty_object() {
    let w = witness_from_json("{}").unwrap();
    assert_eq!(w.vars.len(), 0);
}

#[test]
fn test_witness_rejects_malformed() {
    assert!(matches!(
        witness_from_json("{\"x\":}"),
        Err(InnerEZKLError::InvalidInput(_))
    ));
    assert!(matches!(
        witness_from_json("[1,2]"),
        Err(InnerEZKLError::InvalidInput(_))
    ));
    assert!(matches!(
        witness_from_json("{\"x\":3,}"),
        Err(InnerEZKLError::InvalidInput(_))
    ));
    assert!(matches!(
        witness_from_json("{\"x\":01}"),
        Err(InnerEZKLError::InvalidInput(_))
    ));
}

#[test]
fn test_witness_is_standard_json() {
    let s = witness_to_json(&square_witness()).unwrap();
    let v: serde_json::Value = serde_json::from_str(&s).expect("witness must be valid JSON");
    assert_eq!(v["x"], 3);
    assert_eq!(v["y"], 9);
}

fn sample_snark(tt: TranscriptType) -> Snark {
    Snark {
        instances: vec![3, 9],
        proof: vec![1, 2, 250],
        transcript_type: tt,
        pretty_public_inputs: "x=3,y=9".to_string(),
    }
}

#[test]
fn test_snark_render_exactly() {
    let s = snark_to_json(&sample_snark(TranscriptType::EVM)).unwrap();
    assert_eq!(
        s,
        "{\"instances\":[3,9],\"proof\":[1,2,250],\"transcript_type\":\"EVM\",\
         \"pretty_public_inputs\":\"x=3,y=9\"}"
    );
}

#[test]
fn test_snark_round_trip() {
    let sn = sample_snark(TranscriptType::Poseidon);
    let s = snark_to_json(&sn).unwrap();
    let back = snark_from_json(&s).unwrap();
    assert_eq!(back.instances, sn.instances);
    assert_eq!(back.proof, sn.proof);
    assert_eq!(back.transcript_type, TranscriptType::Poseidon);
    assert_eq!(back.pretty_public_inputs, "x=3,y=9");
}

#[test]
fn test_snark_is_standard_json() {
    let s = snark_to_json(&sample_snark(TranscriptType::EVM)).unwrap();
    let v: serde_json::Value = serde_json::from_str(&s).expect("proof must be valid JSON");
    assert_eq!(v["instances"][0], 3);
    assert_eq!(v["instances"][1], 9);
    assert_eq!(v["proof"][2], 250);
    assert_eq!(v["transcript_type"], "EVM");
    assert_eq!(v["pretty_public_inputs"], "x=3,y=9");
}

#[test]
fn test_snark_rejects_malformed() {
    assert!(matches!(
        snark_from_json("{}"),
        Err(InnerEZKLError::InvalidInput(_))
    ));
    assert!(matches!(
        snark_from_json(
            "{\"instances\":[3],\"proof\":[999],\"transcript_type\":\"EVM\",\
             \"pretty_public_inputs\":\"x=3\"}"
        ),
        Err(InnerEZKLError::InvalidInput(_))
    ));
    assert!(matches!(
        snark_from_json(
            "{\"instances\":[3],\"proof\":[1],\"transcript_type\":\"Keccak\",\
             \"pretty_public_inputs\":\"x=3\"}"
        ),
        Err(InnerEZKLError::InvalidInput(_))
    ));
}

#[test]
fn test_snark_empty_arrays() {
    let sn = Snark {
        instances: Vec::new(),
        proof: Vec::new(),
        transcript_type: TranscriptType::EVM,
        pretty_public_inputs: String::new(),
    };
    let s = snark_to_json(&sn).unwrap();
    assert_eq!(
        s,
        "{\"instances\":[],\"proof\":[],\"transcript_type\":\"EVM\",\"pretty_public_inputs\":\"\"}"
    );
    let back = snark_from_json(&s).unwrap();
    assert_eq!(back.instances.len(), 0);
    assert_eq!(back.proof.len(), 0);
}

#[test]
fn test_number_bounds() {
    // the largest u64 value round-trips
    let w = GraphWitness {
        vars: vec![WitnessVar { name: "big".to_string(), value: u64::MAX }],
    };
    let s = witness_to_json(&w).unwrap();
    assert_eq!(s, "{\"big\":18446744073709551615}");
    let back = witness_from_json(&s).unwrap();
    assert_eq!(back.vars[0].value, u64::MAX);
    // one past it does not
    assert!(matches!(
        witness_from_json("{\"big\":18446744073709551616}"),
        Err(InnerEZKLError::InvalidInput(_))
    ));
}

#[test]
fn test_settings_rejects_trailing_data() {
    let s = settings_to_json(&kzg_settings());
    let mut with_tail = s.clone();
    with_tail.push(' ');
    // the settings document is read strictly: nothing may follow the brace
    assert!(matches!(
        settings_from_json(&with_tail),
        Err(InnerEZKLError::InvalidInput(_))
    ));
}

#[test]
fn test_zero_values_render_canonically() {
    let w = GraphWitness {
        vars: vec![WitnessVar { name: "z".to_string(), value: 0 }],
    };
    let s = witness_to_json(&w).unwrap();
    assert_eq!(s, "{\"z\":0}");
    let back = witness_from_json(&s).unwrap();
    assert_eq!(back.vars[0].value, 0);
}
