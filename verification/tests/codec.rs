use ezkl::codec::{
    decode_params, decode_proving_key, decode_settings, decode_snark, decode_verification_key,
    encode_params, encode_proving_key, encode_settings, encode_snark, encode_verification_key,
};
use ezkl::lifecycle::{CommitmentParams, ProvingKey, Snark, TranscriptType, VerificationKey};
use ezkl::settings::{CircuitSettings, LookupRange};

fn sample_settings() -> CircuitSettings {
    CircuitSettings {
        input_scale: 4,
        param_scale: 6,
        scale_rebase_multiplier: 10,
        logrows: 17,
        lookup_range: LookupRange {
            lo: -32768,
            hi: 32767,
        },
        required_lookups: vec![1, 5, 9],
        model_input_scales: vec![4, 4],
        model_output_scales: vec![6],
        num_constraints: 123456,
        total_const_size: 789,
        model_instance_shapes: vec![vec![1, 10], vec![3]],
    }
}

#[test]
fn settings_round_trip_is_bit_exact() {
    let s = sample_settings();
    let bytes = encode_settings(&s);
    let loaded = decode_settings(&bytes).unwrap();
    assert_eq!(loaded, s);
    // a second save of the loaded value produces identical bytes
    assert_eq!(encode_settings(&loaded), bytes);
}

#[test]
fn settings_with_negative_range_and_empty_lists_round_trip() {
    let mut s = sample_settings();
    s.lookup_range = LookupRange {
        lo: i64::MIN / 4,
        hi: i64::MAX / 4,
    };
    s.required_lookups = vec![];
    s.model_instance_shapes = vec![];
    let loaded = decode_settings(&encode_settings(&s)).unwrap();
    assert_eq!(loaded, s);
}

#[test]
fn truncated_settings_are_rejected() {
    let s = sample_settings();
    let mut bytes = encode_settings(&s);
    bytes.pop();
    assert!(decode_settings(&bytes).is_none());
    assert!(decode_settings(&vec![]).is_none());
}

#[test]
fn trailing_garbage_is_rejected() {
    let s = sample_settings();
    let mut bytes = encode_settings(&s);
    bytes.push(0);
    assert!(decode_settings(&bytes).is_none());
}

#[test]
fn params_round_trip_is_bit_exact() {
    let p = CommitmentParams {
        k: 23,
        generator: 0xDEAD_BEEF,
    };
    let bytes = encode_params(&p);
    assert_eq!(decode_params(&bytes).unwrap(), p);
    assert!(decode_params(&bytes[..bytes.len() - 1].to_vec()).is_none());
}

#[test]
fn key_round_trips_are_bit_exact() {
    let pk = ProvingKey {
        payload: vec![7; 100],
    };
    let vk = VerificationKey {
        payload: vec![],
    };
    assert_eq!(decode_proving_key(&encode_proving_key(&pk)).unwrap(), pk);
    assert_eq!(
        decode_verification_key(&encode_verification_key(&vk)).unwrap(),
        vk
    );
    let mut bytes = encode_proving_key(&pk);
    bytes.pop();
    assert!(decode_proving_key(&bytes).is_none());
}

#[test]
fn snark_round_trip_is_bit_exact_for_every_transcript() {
    for t in [
        TranscriptType::Blake,
        TranscriptType::Poseidon,
        TranscriptType::Evm,
    ] {
        let s = Snark {
            proof: vec![0, 255, 26, 3],
            instances: vec![vec![1, 2], vec![], vec![u64::MAX]],
            protocol: vec![11, 22, 33],
            transcript_type: t,
        };
        let bytes = encode_snark(&s);
        let loaded = decode_snark(&bytes).unwrap();
        assert_eq!(loaded, s);
        assert_eq!(encode_snark(&loaded), bytes);
    }
}

#[test]
fn snark_with_unknown_transcript_tag_is_rejected() {
    let s = Snark {
        proof: vec![1],
        instances: vec![],
        protocol: vec![],
        transcript_type: TranscriptType::Blake,
    };
    let mut bytes = encode_snark(&s);
    // the transcript tag is the final stored word; make it unassigned
    let n = bytes.len();
    bytes[n - 8] = 99;
    assert!(decode_snark(&bytes).is_none());
}

#[test]
fn stored_words_too_wide_for_a_narrow_field_are_rejected() {
    // input_scale is stored as a word; a value above u32::MAX cannot decode
    let s = sample_settings();
    let mut bytes = encode_settings(&s);
    // the first stored word is input_scale; set its fifth byte
    bytes[4] = 1;
    assert!(decode_settings(&bytes).is_none());
}
