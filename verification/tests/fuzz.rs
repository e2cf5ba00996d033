use ezkl::fuzz::{
    campaigns, corrupt_instances, corrupt_proof_bytes, count_failures, fuzz_report,
    random_inputs_like, FuzzCampaign, PROOF_BYTE_FUZZ_BOUND,
};
use ezkl::lifecycle::{Snark, TranscriptType};

fn valid_proof() -> Snark {
    Snark {
        proof: vec![200, 201, 202, 203, 204, 205],
        instances: vec![vec![1, 2, 3], vec![4]],
        protocol: vec![42, 43],
        transcript_type: TranscriptType::Evm,
    }
}

#[test]
fn five_campaigns_in_order() {
    assert_eq!(
        campaigns(),
        vec![
            FuzzCampaign::ProvingKey,
            FuzzCampaign::PublicInputs,
            FuzzCampaign::VerificationKey,
            FuzzCampaign::ProofBytes,
            FuzzCampaign::ProofInstances,
        ]
    );
}

#[test]
fn failure_count_is_the_number_of_accepting_trials() {
    assert_eq!(count_failures(&vec![false, false, false]), 0);
    assert_eq!(count_failures(&vec![true, false, true]), 2);
    assert_eq!(count_failures(&vec![]), 0);
}

#[test]
fn harness_passes_only_when_every_campaign_counts_zero() {
    // a correctly implemented backend rejects every corrupted artifact
    let clean: Vec<Vec<bool>> = vec![
        vec![false; 4],
        vec![false; 4],
        vec![false; 4],
        vec![false; 4],
        vec![false; 4],
    ];
    let (counts, passed) = fuzz_report(&clean);
    assert_eq!(counts, vec![0, 0, 0, 0, 0]);
    assert!(passed);

    // a backend that ignores public inputs lets one campaign's trials verify
    let broken: Vec<Vec<bool>> = vec![
        vec![false; 4],
        vec![true, false, true, false],
        vec![false; 4],
        vec![false; 4],
        vec![false; 4],
    ];
    let (counts, passed) = fuzz_report(&broken);
    assert_eq!(counts, vec![0, 2, 0, 0, 0]);
    assert!(!passed);
}

#[test]
fn one_trial_is_enough_to_fail_the_harness() {
    let (counts, passed) = fuzz_report(&vec![
        vec![false],
        vec![false],
        vec![false],
        vec![true],
        vec![false],
    ]);
    assert_eq!(counts.iter().sum::<u64>(), 1);
    assert!(!passed);
}

#[test]
fn corrupted_proof_bytes_keep_instances_and_protocol() {
    let original = valid_proof();
    let bad = corrupt_proof_bytes(&original, TranscriptType::Evm);
    assert_eq!(bad.proof.len(), original.proof.len());
    for b in &bad.proof {
        assert!(*b < PROOF_BYTE_FUZZ_BOUND);
    }
    assert_eq!(bad.instances, original.instances);
    assert_eq!(bad.protocol, original.protocol);
    assert_eq!(bad.transcript_type, TranscriptType::Evm);
    // the original's bytes were all >= the fuzz bound, so they were replaced
    assert_ne!(bad.proof, original.proof);
}

#[test]
fn corrupted_instances_keep_proof_bytes_and_shape() {
    let original = valid_proof();
    let bad = corrupt_instances(&original, TranscriptType::Poseidon);
    assert_eq!(bad.proof, original.proof);
    assert_eq!(bad.protocol, original.protocol);
    assert_eq!(bad.instances.len(), original.instances.len());
    for (b, o) in bad.instances.iter().zip(original.instances.iter()) {
        assert_eq!(b.len(), o.len());
    }
    assert_eq!(bad.transcript_type, TranscriptType::Poseidon);
}

#[test]
fn sampled_inputs_match_the_original_count() {
    let inputs: Vec<u64> = vec![5, 5, 5, 5, 5, 5, 5];
    assert_eq!(random_inputs_like(&inputs).len(), inputs.len());
}
