//! Soundness-fuzzing harness: five mutation campaigns corrupt one artifact
//! of the proof pipeline each, and every corrupted artifact is expected to
//! fail verification. A trial whose corrupted artifact verifies successfully
//! is a soundness failure; the harness passes only when every campaign
//! counts zero failures.

use vstd::prelude::*;

use crate::lifecycle::{Snark, TranscriptType};
use crate::settings::{copy_bytes, copy_shapes};
use rand::Rng;

verus! {

/// Corrupted proof bytes are sampled below this bound, as small byte values.
pub const PROOF_BYTE_FUZZ_BOUND: u8 = 20;

/// The five mutation campaigns, in the order they run.
#[derive(Clone, Copy, Debug, PartialEq, Eq, Structural)]
pub enum FuzzCampaign {
    /// Prove with a key derived from different parameters; verify against
    /// the original verification key.
    ProvingKey,
    /// Prove over freshly sampled public inputs with the original keys.
    PublicInputs,
    /// Verify a valid proof against a verification key derived from
    /// different parameters.
    VerificationKey,
    /// Overwrite a valid proof's byte payload with small random values,
    /// keeping instances and protocol intact.
    ProofBytes,
    /// Replace a valid proof's declared public instances with random field
    /// elements, keeping the proof bytes intact.
    ProofInstances,
}

/// The campaigns in execution order.
pub fn campaigns() -> (r: Vec<FuzzCampaign>)
    ensures
        r@ =~= seq![
            FuzzCampaign::ProvingKey,
            FuzzCampaign::PublicInputs,
            FuzzCampaign::VerificationKey,
            FuzzCampaign::ProofBytes,
            FuzzCampaign::ProofInstances,
        ],
{
    vec![
        FuzzCampaign::ProvingKey,
        FuzzCampaign::PublicInputs,
        FuzzCampaign::VerificationKey,
        FuzzCampaign::ProofBytes,
        FuzzCampaign::ProofInstances,
    ]
}

/// Relies on `rand::Rng::gen_range`: the sampled value lies in the requested
/// half-open range (the range must be nonempty).
#[verifier::external_body]
fn random_byte_below(bound: u8) -> (r: u8)
    requires
        bound > 0,
    ensures
        r < bound,
{
    rand::thread_rng().gen_range(0..bound)
}

/// Relies on `rand::Rng::gen`: a uniformly sampled machine word, standing in
/// for a freshly sampled field element. Nothing is promised of the value.
#[verifier::external_body]
fn random_field_word() -> (r: u64) {
    rand::thread_rng().gen()
}

/// Freshly sampled stand-in field elements, one per original input value.
pub fn random_inputs_like(inputs: &Vec<u64>) -> (r: Vec<u64>)
    ensures
        r@.len() == inputs@.len(),
{
    let mut r: Vec<u64> = Vec::new();
    let mut i: usize = 0;
    while i < inputs.len()
        invariant
            i <= inputs@.len(),
            r@.len() == i,
        decreases inputs@.len() - i,
    {
        r.push(random_field_word());
        i = i + 1;
    }
    r
}

/// A corrupted copy of a valid proof: the byte payload is overwritten with
/// small random values while the instances and the protocol descriptor stay
/// intact.
pub fn corrupt_proof_bytes(original: &Snark, transcript: TranscriptType) -> (r: Snark)
    ensures
        r@.instances == original@.instances,
        r@.protocol == original@.protocol,
        r@.proof.len() == original@.proof.len(),
        forall|i: int| 0 <= i < r@.proof.len() ==> #[trigger] r@.proof[i] < PROOF_BYTE_FUZZ_BOUND,
        r@.transcript_type == transcript,
{
    let mut bad: Vec<u8> = Vec::new();
    let mut i: usize = 0;
    while i < original.proof.len()
        invariant
            i <= original.proof@.len(),
            bad@.len() == i,
            forall|k: int| 0 <= k < i ==> #[trigger] bad@[k] < PROOF_BYTE_FUZZ_BOUND,
        decreases original.proof@.len() - i,
    {
        bad.push(random_byte_below(PROOF_BYTE_FUZZ_BOUND));
        i = i + 1;
    }
    Snark {
        proof: bad,
        instances: copy_shapes(&original.instances),
        protocol: copy_bytes(&original.protocol),
        transcript_type: transcript,
    }
}

/// A corrupted copy of a valid proof: the declared public instances are
/// replaced by random field elements of the same shape while the proof bytes
/// and the protocol descriptor stay intact.
pub fn corrupt_instances(original: &Snark, transcript: TranscriptType) -> (r: Snark)
    ensures
        r@.proof == original@.proof,
        r@.protocol == original@.protocol,
        r@.instances.len() == original@.instances.len(),
        forall|i: int|
            0 <= i < r@.instances.len() ==> (#[trigger] r@.instances[i]).len()
                == original@.instances[i].len(),
        r@.transcript_type == transcript,
{
    let mut bad: Vec<Vec<u64>> = Vec::new();
    let mut i: usize = 0;
    while i < original.instances.len()
        invariant
            i <= original.instances@.len(),
            bad@.len() == i,
            forall|k: int|
                0 <= k < i ==> (#[trigger] bad@[k])@.len() == original.instances@[k]@.len(),
        decreases original.instances@.len() - i,
    {
        let row = random_inputs_like(&original.instances[i]);
        bad.push(row);
        i = i + 1;
    }
    proof {
        assert(forall|k: int|
            0 <= k < original.instances@.len() ==> (#[trigger] original.instances.deep_view()[k]).len()
                == original.instances@[k]@.len());
        assert(forall|k: int|
            0 <= k < bad@.len() ==> (#[trigger] bad.deep_view()[k]).len() == bad@[k]@.len());
    }
    Snark {
        proof: copy_bytes(&original.proof),
        instances: bad,
        protocol: copy_bytes(&original.protocol),
        transcript_type: transcript,
    }
}

/// How many trials of one campaign ended in `true` (the corrupted artifact
/// verified successfully: a soundness failure).
pub open spec fn count_true(s: Seq<bool>) -> int
    decreases s.len(),
{
    if s.len() == 0 {
        0
    } else {
        count_true(s.drop_last()) + if s.last() {
            1int
        } else {
            0int
        }
    }
}

/// The harness passes exactly when every campaign counted zero failures.
pub open spec fn spec_fuzz_passed(verdicts: Seq<Seq<bool>>) -> bool {
    forall|c: int| 0 <= c < verdicts.len() ==> count_true(#[trigger] verdicts[c]) == 0
}

proof fn lemma_count_true_bounds(s: Seq<bool>)
    ensures
        0 <= count_true(s) <= s.len(),
    decreases s.len(),
{
    if s.len() > 0 {
        lemma_count_true_bounds(s.drop_last());
    }
}

proof fn lemma_count_true_zero(s: Seq<bool>)
    ensures
        count_true(s) == 0 <==> (forall|t: int| 0 <= t < s.len() ==> !(#[trigger] s[t])),
    decreases s.len(),
{
    if s.len() > 0 {
        lemma_count_true_zero(s.drop_last());
        lemma_count_true_bounds(s.drop_last());
        assert(forall|t: int| 0 <= t < s.len() - 1 ==> s.drop_last()[t] == #[trigger] s[t]);
    }
}

/// Law (soundness): for any trial counts, the harness passes exactly when no
/// corrupted artifact of any campaign ever verified; one accepting trial in
/// any campaign makes it fail with a failure count of at least one.
pub proof fn lemma_fuzz_soundness(verdicts: Seq<Seq<bool>>)
    ensures
        spec_fuzz_passed(verdicts) <==> (forall|c: int, t: int|
            0 <= c < verdicts.len() && 0 <= t < verdicts[c].len() ==> !(#[trigger] verdicts[c][t])),
        !spec_fuzz_passed(verdicts) ==> (exists|c: int|
            0 <= c < verdicts.len() && count_true(#[trigger] verdicts[c]) >= 1),
{
    assert forall|c: int| 0 <= c < verdicts.len() implies (count_true(#[trigger] verdicts[c]) == 0
        <==> (forall|t: int| 0 <= t < verdicts[c].len() ==> !(#[trigger] verdicts[c][t]))) by {
        lemma_count_true_zero(verdicts[c]);
    }
    if !spec_fuzz_passed(verdicts) {
        let c = choose|c: int| 0 <= c < verdicts.len() && count_true(#[trigger] verdicts[c]) != 0;
        lemma_count_true_bounds(verdicts[c]);
    }
}

/// Count one campaign's failures: the number of trials whose corrupted
/// artifact verified successfully.
pub fn count_failures(verdicts: &Vec<bool>) -> (n: u64)
    requires
        verdicts@.len() <= 0xFFFF_FFFF,
    ensures
        n as int == count_true(verdicts@),
{
    let mut n: u64 = 0;
    let mut i: usize = 0;
    proof {
        lemma_count_true_bounds(verdicts@.take(0));
    }
    while i < verdicts.len()
        invariant
            i <= verdicts@.len(),
            verdicts@.len() <= 0xFFFF_FFFF,
            n as int == count_true(verdicts@.take(i as int)),
            n <= i,
        decreases verdicts@.len() - i,
    {
        proof {
            assert(verdicts@.take(i + 1).drop_last() =~= verdicts@.take(i as int));
            assert(verdicts@.take(i + 1).last() == verdicts@[i as int]);
        }
        if verdicts[i] {
            n = n + 1;
        }
        i = i + 1;
    }
    proof {
        assert(verdicts@.take(verdicts@.len() as int) =~= verdicts@);
    }
    n
}

/// The per-campaign failure counts and the overall verdict of one harness
/// run: the command succeeds only if the failure count is zero across all
/// campaigns.
pub fn fuzz_report(all_verdicts: &Vec<Vec<bool>>) -> (r: (Vec<u64>, bool))
    requires
        forall|c: int|
            0 <= c < all_verdicts@.len() ==> (#[trigger] all_verdicts@[c])@.len() <= 0xFFFF_FFFF,
    ensures
        r.0@.len() == all_verdicts@.len(),
        forall|c: int|
            0 <= c < all_verdicts@.len() ==> (#[trigger] r.0@[c]) as int == count_true(
                all_verdicts.deep_view()[c],
            ),
        r.1 <==> spec_fuzz_passed(all_verdicts.deep_view()),
{
    let ghost dv = all_verdicts.deep_view();
    proof {
        assert(dv.len() == all_verdicts@.len());
        assert(forall|k: int| 0 <= k < dv.len() ==> dv[k] == (#[trigger] all_verdicts@[k])@);
    }
    let mut counts: Vec<u64> = Vec::new();
    let mut passed: bool = true;
    let mut i: usize = 0;
    while i < all_verdicts.len()
        invariant
            dv == all_verdicts.deep_view(),
            dv.len() == all_verdicts@.len(),
            forall|k: int| 0 <= k < dv.len() ==> dv[k] == (#[trigger] all_verdicts@[k])@,
            forall|c: int|
                0 <= c < all_verdicts@.len() ==> (#[trigger] all_verdicts@[c])@.len()
                    <= 0xFFFF_FFFF,
            i <= dv.len(),
            counts@.len() == i,
            forall|c: int| 0 <= c < i ==> (#[trigger] counts@[c]) as int == count_true(dv[c]),
            passed <==> (forall|c: int| 0 <= c < i ==> count_true(#[trigger] dv[c]) == 0),
        decreases all_verdicts@.len() - i,
    {
        let n = count_failures(&all_verdicts[i]);
        if n != 0 {
            passed = false;
        }
        counts.push(n);
        i = i + 1;
    }
    (counts, passed)
}

} // verus!
