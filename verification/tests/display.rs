use ezkl::hexfmt::proof_hex;
use ezkl::hub::{Artifact, Organization, Organizations, Proof};
use ezkl::lifecycle::{Snark, TranscriptType};

fn snark_with_proof(proof: Vec<u8>) -> Snark {
    Snark {
        proof,
        instances: vec![vec![1]],
        protocol: vec![],
        transcript_type: TranscriptType::Evm,
    }
}

#[test]
fn proof_bytes_render_as_lowercase_hex() {
    let s = snark_with_proof(vec![0x00, 0xff, 0x1a]);
    assert_eq!(proof_hex(&s), "00ff1a");
}

#[test]
fn empty_proof_renders_as_the_empty_string() {
    let s = snark_with_proof(vec![]);
    assert_eq!(proof_hex(&s), "");
}

#[test]
fn all_byte_values_render_to_two_digits() {
    let bytes: Vec<u8> = (0..=255).collect();
    let s = snark_with_proof(bytes);
    let hex = proof_hex(&s);
    assert_eq!(hex.len(), 512);
    assert!(hex.starts_with("000102030405060708090a0b0c0d0e0f10"));
    assert!(hex.ends_with("f8f9fafbfcfdfeff"));
}

#[test]
fn hub_reply_types_carry_plain_values() {
    let orgs = Organizations {
        organizations: vec![Organization {
            id: "org-1".to_string(),
            name: "prover".to_string(),
        }],
    };
    assert_eq!(orgs.organizations[0].name, "prover");

    let reply = Proof {
        artifact: Some(Artifact {
            id: Some("artifact-1".to_string()),
            name: None,
        }),
        id: "proof-1".to_string(),
        instances: None,
        proof: Some("00ff1a".to_string()),
        status: Some("done".to_string()),
        strategy: None,
        transcript_type: Some("evm".to_string()),
    };
    assert!(reply.has_proof());

    let pending = Proof {
        artifact: None,
        id: "proof-2".to_string(),
        instances: None,
        proof: None,
        status: Some("pending".to_string()),
        strategy: None,
        transcript_type: None,
    };
    assert!(!pending.has_proof());
}
