//! Proof lifecycle orchestration: commitment parameters and their
//! downsize-only loading rule, the proof-type selector, and the state
//! machines that sequence a circuit from settings through key generation,
//! witness binding, proving and verification, plus the parallel aggregation
//! track. The cryptographic backend performs key derivation, proof creation
//! and proof checking; the orchestrator owns every decision around those
//! calls and records their outcomes.

use vstd::prelude::*;

use crate::settings::{copy_bytes, copy_shapes, copy_u64s};

verus! {

/// Whether the backend performs its expensive internal self-consistency
/// checks while proving.
#[derive(Clone, Copy, Debug, PartialEq, Eq, Structural)]
pub enum CheckMode {
    Safe,
    Unsafe,
}

/// The hashing/challenge-derivation scheme that makes a proof
/// non-interactive.
#[derive(Clone, Copy, Debug, PartialEq, Eq, Structural)]
pub enum TranscriptType {
    Blake,
    Poseidon,
    Evm,
}

/// Verification mode: check one proof immediately, or accumulate
/// verification work for later batch checking.
#[derive(Clone, Copy, Debug, PartialEq, Eq, Structural)]
pub enum StrategyType {
    Single,
    Accum,
}

/// The proof-type selector: one selector determines both the strategy and
/// the transcript of a proving run.
#[derive(Clone, Copy, Debug, PartialEq, Eq, Structural)]
pub enum ProofType {
    /// One proof, one verification.
    Single,
    /// An accumulator-compatible proof, consumable by aggregation.
    ForAggr,
}

/// The strategy a proof-type selector determines.
pub open spec fn spec_strategy_of(p: ProofType) -> StrategyType {
    match p {
        ProofType::Single => StrategyType::Single,
        ProofType::ForAggr => StrategyType::Accum,
    }
}

/// The transcript a proof-type selector determines.
pub open spec fn spec_transcript_of(p: ProofType) -> TranscriptType {
    match p {
        ProofType::Single => TranscriptType::Evm,
        ProofType::ForAggr => TranscriptType::Poseidon,
    }
}

/// Select the proof strategy for a proof type.
pub fn strategy_of(p: ProofType) -> (r: StrategyType)
    ensures
        r == spec_strategy_of(p),
{
    match p {
        ProofType::Single => StrategyType::Single,
        ProofType::ForAggr => StrategyType::Accum,
    }
}

/// Select the transcript kind for a proof type.
pub fn transcript_of(p: ProofType) -> (r: TranscriptType)
    ensures
        r == spec_transcript_of(p),
{
    match p {
        ProofType::Single => TranscriptType::Evm,
        ProofType::ForAggr => TranscriptType::Poseidon,
    }
}

/// Errors of the proof lifecycle.
#[derive(Clone, Copy, Debug, PartialEq, Eq, Structural)]
pub enum LifecycleError {
    /// The requested `logrows` exceeds the loaded commitment parameters'
    /// capacity; parameters are never upsized.
    SizeMismatch { requested: u32, available: u32 },
    /// Key or proof creation, or verification, failed at the cryptographic
    /// layer.
    Backend,
}

impl LifecycleError {
    /// A short human-readable account of the failure.
    pub fn describe(&self) -> (r: &'static str)
        ensures
            (*self is SizeMismatch) ==> r@ =~= "requested logrows exceed the commitment parameters' capacity"@,
            (*self is Backend) ==> r@ =~= "the cryptographic backend failed"@,
    {
        match self {
            LifecycleError::SizeMismatch { .. } => {
                "requested logrows exceed the commitment parameters' capacity"
            },
            LifecycleError::Backend => "the cryptographic backend failed",
        }
    }
}

/// Commitment-scheme parameters, modelled by what the orchestration logic
/// reads of them: their size exponent `k` (they support circuits of up to
/// `2^k` rows) and their first generator point, which seeds aggregation.
#[derive(Clone, Copy, Debug, PartialEq, Eq, Structural)]
pub struct CommitmentParams {
    pub k: u32,
    pub generator: u64,
}

/// Load commitment parameters for a circuit of size `logrows`: parameters
/// larger than needed are downsized in place; parameters too small are
/// rejected, never upsized.
pub fn load_params_for(params: CommitmentParams, logrows: u32) -> (r: Result<
    CommitmentParams,
    LifecycleError,
>)
    ensures
        match r {
            Ok(p) => logrows <= params.k && p == (CommitmentParams {
                k: logrows,
                generator: params.generator,
            }),
            Err(e) => logrows > params.k && e == (LifecycleError::SizeMismatch {
                requested: logrows,
                available: params.k,
            }),
        },
{
    if logrows > params.k {
        Err(LifecycleError::SizeMismatch { requested: logrows, available: params.k })
    } else {
        Ok(CommitmentParams { k: logrows, generator: params.generator })
    }
}

/// The circuit size a commitment-parameters request resolves to: the size
/// recorded in a settings artifact when one is supplied (it takes precedence),
/// else the explicitly requested size, else nothing.
pub fn resolve_params_size(settings: Option<&crate::settings::CircuitSettings>, logrows: Option<
    u32,
>) -> (r: Option<u32>)
    ensures
        settings matches Some(s) ==> r == Some(s.logrows),
        settings is None ==> r == logrows,
{
    match settings {
        Some(s) => Some(s.logrows),
        None => logrows,
    }
}

/// A proving key, opaque to the orchestrator.
#[derive(Clone, Debug, PartialEq, Eq)]
pub struct ProvingKey {
    pub payload: Vec<u8>,
}

impl View for ProvingKey {
    type V = Seq<u8>;

    open spec fn view(&self) -> Seq<u8> {
        self.payload@
    }
}

/// A verification key, opaque to the orchestrator.
#[derive(Clone, Debug, PartialEq, Eq)]
pub struct VerificationKey {
    pub payload: Vec<u8>,
}

impl View for VerificationKey {
    type V = Seq<u8>;

    open spec fn view(&self) -> Seq<u8> {
        self.payload@
    }
}

/// A proving/verification key pair derived for one circuit.
#[derive(Clone, Debug, PartialEq, Eq)]
pub struct KeyPair {
    pub pk: ProvingKey,
    pub vk: VerificationKey,
}

/// A succinct proof artifact: proof bytes, public instances, an opaque
/// protocol descriptor, and the transcript kind the proof was produced with.
#[derive(Clone, Debug, PartialEq, Eq)]
pub struct Snark {
    pub proof: Vec<u8>,
    pub instances: Vec<Vec<u64>>,
    pub protocol: Vec<u8>,
    pub transcript_type: TranscriptType,
}

/// Mathematical model of [`Snark`].
#[verifier::ext_equal]
pub struct SnarkV {
    pub proof: Seq<u8>,
    pub instances: Seq<Seq<u64>>,
    pub protocol: Seq<u8>,
    pub transcript_type: TranscriptType,
}

impl View for Snark {
    type V = SnarkV;

    open spec fn view(&self) -> SnarkV {
        SnarkV {
            proof: self.proof@,
            instances: self.instances.deep_view(),
            protocol: self.protocol@,
            transcript_type: self.transcript_type,
        }
    }
}

impl DeepView for Snark {
    type V = SnarkV;

    open spec fn deep_view(&self) -> SnarkV {
        self.view()
    }
}

impl Snark {
    /// An explicit copy whose model is equal to the original's.
    pub fn duplicate(&self) -> (r: Snark)
        ensures
            r@ =~= self@,
    {
        Snark {
            proof: copy_bytes(&self.proof),
            instances: copy_shapes(&self.instances),
            protocol: copy_bytes(&self.protocol),
            transcript_type: self.transcript_type,
        }
    }
}

/// One constraint the mock prover found violated.
#[derive(Clone, Copy, Debug, PartialEq, Eq, Structural)]
pub struct ConstraintFailure {
    pub constraint: u64,
    pub row: u64,
}

/// A wrapper for verification-related errors.
#[derive(Clone, Debug, PartialEq, Eq)]
pub enum ExecutionError {
    /// The mock constraint-satisfaction run failed; carries every violated
    /// constraint, not just the first.
    VerifyError(Vec<ConstraintFailure>),
}

/// Turn the mock prover's list of violated constraints into the command
/// outcome: success exactly when no constraint is violated, and otherwise an
/// error carrying the full list, verbatim.
pub fn mock_outcome(failures: Vec<ConstraintFailure>) -> (r: Result<(), ExecutionError>)
    ensures
        r is Ok <==> failures@.len() == 0,
        r matches Err(e) ==> e == ExecutionError::VerifyError(failures),
{
    if failures.len() == 0 {
        Ok(())
    } else {
        Err(ExecutionError::VerifyError(failures))
    }
}

/// The states of the single-proof lifecycle.
#[derive(Clone, Copy, Debug, PartialEq, Eq, Structural)]
pub enum LifecycleState {
    Compiled,
    KeysReady,
    WitnessBound,
    Proven,
    Verified,
}

/// Everything the backend needs for one proving run. `check_mode` is the
/// orchestrator's own, propagated unchanged.
pub struct ProofRequest {
    pub strategy: StrategyType,
    pub transcript: TranscriptType,
    pub check_mode: CheckMode,
    pub logrows: u32,
    pub instances: Vec<u64>,
}

/// The single-proof lifecycle orchestrator: owns the artifacts of one
/// command, sequences `Compiled -> KeysReady -> WitnessBound -> Proven ->
/// Verified`, and never mutates keys after creation.
pub struct Orchestrator {
    pub logrows: u32,
    pub check_mode: CheckMode,
    pub params: CommitmentParams,
    pub keys: Option<KeyPair>,
    pub instances: Option<Vec<u64>>,
    pub proof: Option<Snark>,
    pub verified: bool,
}

impl Orchestrator {
    /// The lifecycle state, read off the artifacts present.
    pub open spec fn state(self) -> LifecycleState {
        if self.verified {
            LifecycleState::Verified
        } else if self.proof is Some {
            LifecycleState::Proven
        } else if self.instances is Some {
            LifecycleState::WitnessBound
        } else if self.keys is Some {
            LifecycleState::KeysReady
        } else {
            LifecycleState::Compiled
        }
    }

    /// Artifacts only ever accumulate in lifecycle order, and the parameters
    /// are downsized to the circuit's size before any of them exist.
    pub open spec fn wf(self) -> bool {
        &&& self.params.k == self.logrows
        &&& (self.verified ==> self.proof is Some)
        &&& (self.proof is Some ==> self.instances is Some)
        &&& (self.instances is Some ==> self.keys is Some)
    }

    /// Start a command for a circuit of size `logrows`: load the commitment
    /// parameters under the downsize-only rule and hold them read-only for
    /// the rest of the command.
    pub fn new(logrows: u32, check_mode: CheckMode, params: CommitmentParams) -> (r: Result<
        Orchestrator,
        LifecycleError,
    >)
        ensures
            match r {
                Ok(o) => {
                    &&& logrows <= params.k
                    &&& o.wf()
                    &&& o.state() == LifecycleState::Compiled
                    &&& o.logrows == logrows
                    &&& o.check_mode == check_mode
                    &&& o.params == (CommitmentParams { k: logrows, generator: params.generator })
                },
                Err(e) => logrows > params.k && e == (LifecycleError::SizeMismatch {
                    requested: logrows,
                    available: params.k,
                }),
            },
    {
        let p = load_params_for(params, logrows)?;
        Ok(
            Orchestrator {
                logrows,
                check_mode,
                params: p,
                keys: None,
                instances: None,
                proof: None,
                verified: false,
            },
        )
    }

    /// Record the key pair the backend derived from the circuit and the
    /// loaded parameters.
    pub fn install_keys(&mut self, pk: ProvingKey, vk: VerificationKey)
        requires
            old(self).wf(),
            old(self).state() == LifecycleState::Compiled,
        ensures
            final(self).wf(),
            final(self).state() == LifecycleState::KeysReady,
            (final(self).keys matches Some(kp) && kp.pk@ == pk@ && kp.vk@ == vk@),
            final(self).logrows == old(self).logrows,
            final(self).check_mode == old(self).check_mode,
            final(self).params == old(self).params,
            final(self).instances == old(self).instances,
            final(self).proof == old(self).proof,
            final(self).verified == old(self).verified,
    {
        self.keys = Some(KeyPair { pk, vk });
    }

    /// Bind a witness: record the public instances derived from it.
    pub fn bind_witness(&mut self, instances: Vec<u64>)
        requires
            old(self).wf(),
            old(self).state() == LifecycleState::KeysReady,
        ensures
            final(self).wf(),
            final(self).state() == LifecycleState::WitnessBound,
            (final(self).instances matches Some(v) && v@ == instances@),
            final(self).logrows == old(self).logrows,
            final(self).check_mode == old(self).check_mode,
            final(self).params == old(self).params,
            final(self).keys == old(self).keys,
            final(self).proof == old(self).proof,
            final(self).verified == old(self).verified,
    {
        self.instances = Some(instances);
    }

    /// Plan one proving run: the strategy and transcript are both determined
    /// by the proof-type selector, and the command's check mode propagates
    /// into the request unchanged.
    pub fn proof_request(&self, proof_type: ProofType) -> (r: ProofRequest)
        requires
            self.wf(),
            self.state() == LifecycleState::WitnessBound,
        ensures
            r.strategy == spec_strategy_of(proof_type),
            r.transcript == spec_transcript_of(proof_type),
            r.check_mode == self.check_mode,
            r.logrows == self.logrows,
            (self.instances matches Some(v) && r.instances@ == v@),
    {
        let instances = match &self.instances {
            Some(v) => copy_u64s(v),
            None => Vec::new(),
        };
        ProofRequest {
            strategy: strategy_of(proof_type),
            transcript: transcript_of(proof_type),
            check_mode: self.check_mode,
            logrows: self.logrows,
            instances,
        }
    }

    /// Record the proof the backend created for the planned run.
    pub fn record_proof(&mut self, snark: Snark)
        requires
            old(self).wf(),
            old(self).state() == LifecycleState::WitnessBound,
        ensures
            final(self).wf(),
            final(self).state() == LifecycleState::Proven,
            (final(self).proof matches Some(s) && s@ == snark@),
            final(self).logrows == old(self).logrows,
            final(self).check_mode == old(self).check_mode,
            final(self).params == old(self).params,
            final(self).keys == old(self).keys,
            final(self).instances == old(self).instances,
            final(self).verified == old(self).verified,
    {
        self.proof = Some(snark);
    }

    /// The strategy verification reconstructs from the parameters: a single
    /// proof is always checked immediately and independently.
    pub fn verify_strategy(&self) -> (r: StrategyType)
        ensures
            r == StrategyType::Single,
    {
        StrategyType::Single
    }

    /// Record the backend's verification verdict. Verification mutates no
    /// artifact: only the state advances, and only on acceptance.
    pub fn record_verification(&mut self, accepted: bool)
        requires
            old(self).wf(),
            old(self).state() == LifecycleState::Proven,
        ensures
            final(self).wf(),
            final(self).verified == accepted,
            accepted ==> final(self).state() == LifecycleState::Verified,
            !accepted ==> final(self).state() == LifecycleState::Proven,
            final(self).logrows == old(self).logrows,
            final(self).check_mode == old(self).check_mode,
            final(self).params == old(self).params,
            final(self).keys == old(self).keys,
            final(self).instances == old(self).instances,
            final(self).proof == old(self).proof,
    {
        self.verified = accepted;
    }
}

/// The states of the aggregation track.
#[derive(Clone, Copy, Debug, PartialEq, Eq, Structural)]
pub enum AggregationState {
    AggregationReady,
    AggregateProven,
    AggregateVerified,
}

/// Everything the backend needs to prove an aggregation circuit: always the
/// accumulator strategy, the caller's transcript, the command's check mode
/// unchanged, and the aggregation circuit's own instances (the accumulated
/// verification data of its input proofs) as public inputs.
pub struct AggregationRequest {
    pub strategy: StrategyType,
    pub transcript: TranscriptType,
    pub check_mode: CheckMode,
    pub logrows: u32,
    pub instances: Vec<u64>,
}

/// The aggregation-track orchestrator: wraps the input proofs and the
/// accumulation base point (the first generator of the commitment
/// parameters), and sequences `AggregationReady -> AggregateProven ->
/// AggregateVerified`.
pub struct Aggregator {
    pub logrows: u32,
    pub check_mode: CheckMode,
    pub params: CommitmentParams,
    pub accumulation_base: u64,
    pub snarks: Vec<Snark>,
    pub keys: Option<KeyPair>,
    pub proof: Option<Snark>,
    pub verified: bool,
}

impl Aggregator {
    /// The aggregation state, read off the artifacts present.
    pub open spec fn state(self) -> AggregationState {
        if self.verified {
            AggregationState::AggregateVerified
        } else if self.proof is Some {
            AggregationState::AggregateProven
        } else {
            AggregationState::AggregationReady
        }
    }

    /// The parameters are downsized to the aggregation circuit's size and
    /// seed the accumulation base; artifacts accumulate in order.
    pub open spec fn wf(self) -> bool {
        &&& self.params.k == self.logrows
        &&& self.accumulation_base == self.params.generator
        &&& (self.verified ==> self.proof is Some)
    }

    /// Start an aggregation command over the given input proofs: load the
    /// parameters under the downsize-only rule and take the accumulation
    /// base from their first generator. The aggregator exclusively owns its
    /// input proofs for the duration of the command.
    pub fn new(logrows: u32, check_mode: CheckMode, params: CommitmentParams, snarks: Vec<Snark>)
        -> (r: Result<Aggregator, LifecycleError>)
        ensures
            match r {
                Ok(a) => {
                    &&& logrows <= params.k
                    &&& a.wf()
                    &&& a.state() == AggregationState::AggregationReady
                    &&& a.logrows == logrows
                    &&& a.check_mode == check_mode
                    &&& a.params == (CommitmentParams { k: logrows, generator: params.generator })
                    &&& a.accumulation_base == params.generator
                    &&& a.snarks.deep_view() == snarks.deep_view()
                },
                Err(e) => logrows > params.k && e == (LifecycleError::SizeMismatch {
                    requested: logrows,
                    available: params.k,
                }),
            },
    {
        let p = load_params_for(params, logrows)?;
        Ok(
            Aggregator {
                logrows,
                check_mode,
                params: p,
                accumulation_base: p.generator,
                snarks,
                keys: None,
                proof: None,
                verified: false,
            },
        )
    }

    /// Record the key pair the backend derived for the aggregation circuit
    /// (derived the same way as single-circuit keys).
    pub fn install_keys(&mut self, pk: ProvingKey, vk: VerificationKey)
        requires
            old(self).wf(),
            old(self).state() == AggregationState::AggregationReady,
        ensures
            final(self).wf(),
            final(self).state() == AggregationState::AggregationReady,
            (final(self).keys matches Some(kp) && kp.pk@ == pk@ && kp.vk@ == vk@),
            final(self).logrows == old(self).logrows,
            final(self).check_mode == old(self).check_mode,
            final(self).params == old(self).params,
            final(self).accumulation_base == old(self).accumulation_base,
            final(self).snarks == old(self).snarks,
            final(self).proof == old(self).proof,
            final(self).verified == old(self).verified,
    {
        self.keys = Some(KeyPair { pk, vk });
    }

    /// Plan the aggregation proving run: always the accumulator strategy,
    /// with the aggregation circuit's own instances (handed back by the
    /// backend when it rebuilt the circuit) as public inputs, and the
    /// command's check mode unchanged.
    pub fn proof_request(&self, transcript: TranscriptType, instances: Vec<u64>) -> (r:
        AggregationRequest)
        requires
            self.wf(),
            self.state() == AggregationState::AggregationReady,
            self.keys is Some,
        ensures
            r.strategy == StrategyType::Accum,
            r.transcript == transcript,
            r.check_mode == self.check_mode,
            r.logrows == self.logrows,
            r.instances@ == instances@,
    {
        AggregationRequest {
            strategy: StrategyType::Accum,
            transcript,
            check_mode: self.check_mode,
            logrows: self.logrows,
            instances,
        }
    }

    /// Record the aggregation proof the backend created. Its instances are
    /// the accumulated verification data of the inputs, not the original
    /// circuits' outputs.
    pub fn record_proof(&mut self, snark: Snark)
        requires
            old(self).wf(),
            old(self).state() == AggregationState::AggregationReady,
            old(self).keys is Some,
        ensures
            final(self).wf(),
            final(self).state() == AggregationState::AggregateProven,
            (final(self).proof matches Some(s) && s@ == snark@),
            final(self).logrows == old(self).logrows,
            final(self).check_mode == old(self).check_mode,
            final(self).params == old(self).params,
            final(self).accumulation_base == old(self).accumulation_base,
            final(self).snarks == old(self).snarks,
            final(self).keys == old(self).keys,
            final(self).verified == old(self).verified,
    {
        self.proof = Some(snark);
    }

    /// The strategy aggregate verification uses: always the accumulator.
    pub fn verify_strategy(&self) -> (r: StrategyType)
        ensures
            r == StrategyType::Accum,
    {
        StrategyType::Accum
    }

    /// Record the backend's verdict on the aggregation proof.
    pub fn record_verification(&mut self, accepted: bool)
        requires
            old(self).wf(),
            old(self).state() == AggregationState::AggregateProven,
        ensures
            final(self).wf(),
            final(self).verified == accepted,
            accepted ==> final(self).state() == AggregationState::AggregateVerified,
            !accepted ==> final(self).state() == AggregationState::AggregateProven,
            final(self).logrows == old(self).logrows,
            final(self).check_mode == old(self).check_mode,
            final(self).params == old(self).params,
            final(self).accumulation_base == old(self).accumulation_base,
            final(self).snarks == old(self).snarks,
            final(self).keys == old(self).keys,
            final(self).proof == old(self).proof,
    {
        self.verified = accepted;
    }
}

} // verus!
