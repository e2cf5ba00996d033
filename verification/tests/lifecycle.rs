use ezkl::lifecycle::{
    load_params_for, mock_outcome, resolve_params_size, strategy_of, transcript_of, Aggregator,
    CheckMode, CommitmentParams, ConstraintFailure, ExecutionError, LifecycleError, Orchestrator,
    ProofType, ProvingKey, Snark, StrategyType, TranscriptType, VerificationKey,
};
use ezkl::settings::{CircuitSettings, LookupRange};

fn params(k: u32) -> CommitmentParams {
    CommitmentParams { k, generator: 7 }
}

fn snark(transcript_type: TranscriptType) -> Snark {
    Snark {
        proof: vec![1, 2, 3],
        instances: vec![vec![10, 20], vec![30]],
        protocol: vec![9, 9],
        transcript_type,
    }
}

#[test]
fn params_are_downsized_never_upsized() {
    // loading k = 15 parameters for a 10-row-exponent circuit downsizes them
    let p = load_params_for(params(15), 10).unwrap();
    assert_eq!(p.k, 10);
    assert_eq!(p.generator, 7);

    // requesting more rows than the parameters support is an error
    let e = load_params_for(params(15), 20).unwrap_err();
    assert_eq!(
        e,
        LifecycleError::SizeMismatch {
            requested: 20,
            available: 15
        }
    );
    assert_eq!(
        e.describe(),
        "requested logrows exceed the commitment parameters' capacity"
    );
}

#[test]
fn exact_size_params_load_unchanged() {
    let p = load_params_for(params(12), 12).unwrap();
    assert_eq!(p.k, 12);
}

#[test]
fn proof_type_determines_strategy_and_transcript() {
    assert_eq!(strategy_of(ProofType::Single), StrategyType::Single);
    assert_eq!(transcript_of(ProofType::Single), TranscriptType::Evm);
    assert_eq!(strategy_of(ProofType::ForAggr), StrategyType::Accum);
    assert_eq!(transcript_of(ProofType::ForAggr), TranscriptType::Poseidon);
}

#[test]
fn single_proof_lifecycle_walk() {
    let mut o = Orchestrator::new(10, CheckMode::Safe, params(15)).unwrap();
    assert_eq!(o.params.k, 10);
    assert!(o.keys.is_none() && o.instances.is_none() && o.proof.is_none() && !o.verified);

    o.install_keys(
        ProvingKey {
            payload: vec![1, 1],
        },
        VerificationKey {
            payload: vec![2, 2],
        },
    );
    assert!(o.keys.is_some());

    o.bind_witness(vec![5, 6, 7]);
    assert_eq!(o.instances.as_ref().unwrap(), &vec![5, 6, 7]);

    let req = o.proof_request(ProofType::Single);
    assert_eq!(req.strategy, StrategyType::Single);
    assert_eq!(req.transcript, TranscriptType::Evm);
    // the command's check mode propagates into the request unchanged
    assert_eq!(req.check_mode, CheckMode::Safe);
    assert_eq!(req.logrows, 10);
    assert_eq!(req.instances, vec![5, 6, 7]);

    o.record_proof(snark(TranscriptType::Evm));
    assert!(o.proof.is_some());
    assert_eq!(o.verify_strategy(), StrategyType::Single);

    o.record_verification(true);
    assert!(o.verified);
}

#[test]
fn rejected_verification_leaves_the_proof_unverified() {
    let mut o = Orchestrator::new(10, CheckMode::Unsafe, params(10)).unwrap();
    o.install_keys(ProvingKey { payload: vec![] }, VerificationKey { payload: vec![] });
    o.bind_witness(vec![]);
    o.record_proof(snark(TranscriptType::Evm));
    o.record_verification(false);
    assert!(!o.verified);
    assert!(o.proof.is_some());
}

#[test]
fn orchestrator_rejects_undersized_params() {
    let r = Orchestrator::new(20, CheckMode::Safe, params(15));
    match r {
        Ok(_) => panic!("undersized parameters must be rejected"),
        Err(e) => assert_eq!(
            e,
            LifecycleError::SizeMismatch {
                requested: 20,
                available: 15
            }
        ),
    }
}

#[test]
fn aggregation_track_walk() {
    let inputs = vec![snark(TranscriptType::Poseidon), snark(TranscriptType::Poseidon)];
    let mut a = Aggregator::new(20, CheckMode::Unsafe, params(23), inputs).unwrap();
    assert_eq!(a.params.k, 20);
    // the accumulation base is the parameters' first generator
    assert_eq!(a.accumulation_base, 7);
    assert_eq!(a.snarks.len(), 2);

    a.install_keys(
        ProvingKey {
            payload: vec![4],
        },
        VerificationKey {
            payload: vec![5],
        },
    );
    let req = a.proof_request(TranscriptType::Evm, vec![77, 88]);
    // aggregation always proves under the accumulator strategy
    assert_eq!(req.strategy, StrategyType::Accum);
    assert_eq!(req.transcript, TranscriptType::Evm);
    assert_eq!(req.check_mode, CheckMode::Unsafe);
    assert_eq!(req.instances, vec![77, 88]);

    a.record_proof(snark(TranscriptType::Evm));
    assert_eq!(a.verify_strategy(), StrategyType::Accum);
    a.record_verification(true);
    assert!(a.verified);
}

#[test]
fn mock_outcome_reports_every_violated_constraint() {
    assert_eq!(mock_outcome(vec![]), Ok(()));

    let failures = vec![
        ConstraintFailure {
            constraint: 3,
            row: 17,
        },
        ConstraintFailure {
            constraint: 8,
            row: 2,
        },
    ];
    let e = mock_outcome(failures.clone()).unwrap_err();
    assert_eq!(e, ExecutionError::VerifyError(failures));
}

#[test]
fn snark_duplicate_is_bit_identical() {
    let s = snark(TranscriptType::Blake);
    assert_eq!(s.duplicate(), s);
}

#[test]
fn params_size_comes_from_settings_first() {
    let s = CircuitSettings {
        input_scale: 2,
        param_scale: 2,
        scale_rebase_multiplier: 1,
        logrows: 14,
        lookup_range: LookupRange { lo: 0, hi: 1 },
        required_lookups: vec![],
        model_input_scales: vec![],
        model_output_scales: vec![],
        num_constraints: 1,
        total_const_size: 1,
        model_instance_shapes: vec![],
    };
    assert_eq!(resolve_params_size(Some(&s), Some(20)), Some(14));
    assert_eq!(resolve_params_size(None, Some(20)), Some(20));
    assert_eq!(resolve_params_size(None, None), None);
}
