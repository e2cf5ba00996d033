//! Calibration engine: enumerates quantization trials over a scale range,
//! reduces the surviving batch results of each trial to one candidate, and
//! selects the winning settings under the requested target policy.

use vstd::prelude::*;

use crate::settings::{
    shape_sum, shape_wf, seq_product, CalibrationTarget, CircuitSettings, LookupRange, SettingsV,
    Trial, MIN_LOGROWS,
};
use itertools::Itertools;

verus! {

/// Errors of the calibration engine.
#[derive(Clone, Copy, Debug, PartialEq, Eq, Structural)]
pub enum CalibrationError {
    /// No trial produced a candidate: the dataset admits no viable parameters.
    Infeasible,
}

impl CalibrationError {
    /// A short human-readable account of the failure.
    pub fn describe(&self) -> (r: &'static str)
        ensures
            *self is Infeasible,
    {
        "calibration failed, could not find any suitable parameters given the calibration dataset"
    }
}

/// The cartesian product of two sequences in row-major order: element `k` is
/// `(a[k / |b|], b[k % |b|])`.
pub open spec fn spec_cartesian<A, B>(a: Seq<A>, b: Seq<B>) -> Seq<(A, B)> {
    Seq::new(a.len() * b.len(), |k: int| (a[k / b.len() as int], b[k % b.len() as int]))
}

/// Relies on `itertools::Itertools::cartesian_product`: the product iterator
/// yields, for each element of `a` in order, that element paired with every
/// element of `b` in order.
#[verifier::external_body]
fn cartesian_product_copy<A: Copy, B: Copy>(a: &Vec<A>, b: &Vec<B>) -> (r: Vec<(A, B)>)
    requires
        a@.len() * b@.len() <= usize::MAX,
    ensures
        r@ == spec_cartesian(a@, b@),
{
    a.iter().cartesian_product(b.iter()).map(|(x, y)| (*x, *y)).collect()
}

/// The scale pairs that survive the validity filter `input <= param`, in
/// enumeration order.
pub open spec fn filter_le_pairs(p: Seq<(u32, u32)>) -> Seq<(u32, u32)>
    decreases p.len(),
{
    if p.len() == 0 {
        Seq::empty()
    } else if p.last().0 <= p.last().1 {
        filter_le_pairs(p.drop_last()).push(p.last())
    } else {
        filter_le_pairs(p.drop_last())
    }
}

/// The valid scale pairs of a scale range: its cartesian square, filtered.
pub open spec fn valid_pairs(scales: Seq<u32>) -> Seq<(u32, u32)> {
    filter_le_pairs(spec_cartesian(scales, scales))
}

/// The full trial grid: valid scale pairs crossed with the rebase multipliers,
/// in enumeration order.
pub open spec fn spec_trial_grid(scales: Seq<u32>, rebase: Seq<u32>) -> Seq<Trial> {
    let crossed = spec_cartesian(valid_pairs(scales), rebase);
    Seq::new(
        crossed.len(),
        |k: int|
            Trial {
                input_scale: crossed[k].0.0,
                param_scale: crossed[k].0.1,
                scale_rebase_multiplier: crossed[k].1,
            },
    )
}

proof fn lemma_filter_le_pairs_len(p: Seq<(u32, u32)>)
    ensures
        filter_le_pairs(p).len() <= p.len(),
    decreases p.len(),
{
    if p.len() > 0 {
        lemma_filter_le_pairs_len(p.drop_last());
    }
}

proof fn lemma_filter_le_pairs_valid(p: Seq<(u32, u32)>, k: int)
    requires
        0 <= k < filter_le_pairs(p).len(),
    ensures
        filter_le_pairs(p)[k].0 <= filter_le_pairs(p)[k].1,
    decreases p.len(),
{
    if p.len() > 0 {
        let rest = filter_le_pairs(p.drop_last());
        if k < rest.len() {
            lemma_filter_le_pairs_valid(p.drop_last(), k);
        }
    }
}

/// Law (filter invariant): every trial the grid emits satisfies
/// `input_scale <= param_scale`.
pub proof fn lemma_trial_grid_filter_invariant(scales: Seq<u32>, rebase: Seq<u32>, k: int)
    requires
        0 <= k < spec_trial_grid(scales, rebase).len(),
    ensures
        spec_trial_grid(scales, rebase)[k].input_scale <= spec_trial_grid(scales, rebase)[
            k
        ].param_scale,
{
    let vp = valid_pairs(scales);
    let crossed = spec_cartesian(vp, rebase);
    let n = rebase.len() as int;
    let i = k / n;
    let j = k % n;
    assert(0 < n) by {
        if n <= 0 {
            assert(crossed.len() == vp.len() * rebase.len());
            assert(crossed.len() == 0);
        }
    }
    vstd::arithmetic::div_mod::lemma_fundamental_div_mod(k, n);
    assert(0 <= j < n) by {
        vstd::arithmetic::div_mod::lemma_mod_bound(k, n);
    }
    assert(0 <= i < vp.len()) by (nonlinear_arith)
        requires
            k == n * i + j,
            0 <= j < n,
            0 <= k < vp.len() * n,
    ;
    assert(crossed[k].0 == vp[i]);
    lemma_filter_le_pairs_valid(spec_cartesian(scales, scales), i);
}

/// Lexicographic order on integer triples (with ties allowed).
pub open spec fn lex3_le(a0: int, a1: int, a2: int, b0: int, b1: int, b2: int) -> bool {
    ||| a0 < b0
    ||| (a0 == b0 && a1 < b1)
    ||| (a0 == b0 && a1 == b1 && a2 <= b2)
}

/// Order of batch results within one trial: by `(logrows, input_scale,
/// param_scale)`, lexicographically.
pub open spec fn batch_le(a: SettingsV, b: SettingsV) -> bool {
    lex3_le(
        a.logrows as int,
        a.input_scale as int,
        a.param_scale as int,
        b.logrows as int,
        b.input_scale as int,
        b.param_scale as int,
    )
}

/// Precision order of candidates: by `(input_scale, param_scale,
/// scale_rebase_multiplier)`, lexicographically.
pub open spec fn scale_le(a: SettingsV, b: SettingsV) -> bool {
    lex3_le(
        a.input_scale as int,
        a.param_scale as int,
        a.scale_rebase_multiplier as int,
        b.input_scale as int,
        b.param_scale as int,
        b.scale_rebase_multiplier as int,
    )
}

/// Two candidates carry the same precision key.
pub open spec fn same_scale(a: SettingsV, b: SettingsV) -> bool {
    &&& a.input_scale == b.input_scale
    &&& a.param_scale == b.param_scale
    &&& a.scale_rebase_multiplier == b.scale_rebase_multiplier
}

fn batch_le_exec(a: &CircuitSettings, b: &CircuitSettings) -> (r: bool)
    ensures
        r == batch_le(a@, b@),
{
    a.logrows < b.logrows || (a.logrows == b.logrows && (a.input_scale < b.input_scale || (
    a.input_scale == b.input_scale && a.param_scale <= b.param_scale)))
}

fn scale_le_exec(a: &CircuitSettings, b: &CircuitSettings) -> (r: bool)
    ensures
        r == scale_le(a@, b@),
{
    a.input_scale < b.input_scale || (a.input_scale == b.input_scale && (a.param_scale
        < b.param_scale || (a.param_scale == b.param_scale && a.scale_rebase_multiplier
        <= b.scale_rebase_multiplier)))
}

/// The index a "keep the later of equals" maximum scan settles on: the last
/// index whose batch key is maximal.
pub open spec fn best_batch_idx(res: Seq<SettingsV>) -> int
    decreases res.len(),
{
    if res.len() <= 1 {
        0
    } else {
        let prev = best_batch_idx(res.drop_last());
        if batch_le(res[prev], res.last()) {
            res.len() - 1
        } else {
            prev
        }
    }
}

/// The smallest lookup lower bound over a trial's surviving batches.
pub open spec fn min_lookup_lo(res: Seq<SettingsV>) -> i64
    decreases res.len(),
{
    if res.len() == 0 {
        0i64
    } else if res.len() == 1 {
        res[0].lookup_lo
    } else {
        let m = min_lookup_lo(res.drop_last());
        if res.last().lookup_lo < m {
            res.last().lookup_lo
        } else {
            m
        }
    }
}

/// The largest lookup upper bound over a trial's surviving batches.
pub open spec fn max_lookup_hi(res: Seq<SettingsV>) -> i64
    decreases res.len(),
{
    if res.len() == 0 {
        0i64
    } else if res.len() == 1 {
        res[0].lookup_hi
    } else {
        let m = max_lookup_hi(res.drop_last());
        if res.last().lookup_hi > m {
            res.last().lookup_hi
        } else {
            m
        }
    }
}

/// The candidate one trial contributes: its best batch result, with the
/// lookup range overwritten by the merge over all surviving batches.
pub open spec fn trial_candidate(res: Seq<SettingsV>) -> SettingsV {
    let b = res[best_batch_idx(res)];
    SettingsV {
        input_scale: b.input_scale,
        param_scale: b.param_scale,
        scale_rebase_multiplier: b.scale_rebase_multiplier,
        logrows: b.logrows,
        lookup_lo: min_lookup_lo(res),
        lookup_hi: max_lookup_hi(res),
        required_lookups: b.required_lookups,
        model_input_scales: b.model_input_scales,
        model_output_scales: b.model_output_scales,
        num_constraints: b.num_constraints,
        total_const_size: b.total_const_size,
        model_instance_shapes: b.model_instance_shapes,
    }
}

/// The best batch index is in range, is a maximum of the batch order, and is
/// the last index attaining it.
pub proof fn lemma_best_batch_idx_props(res: Seq<SettingsV>)
    requires
        res.len() > 0,
    ensures
        0 <= best_batch_idx(res) < res.len(),
        forall|i: int| 0 <= i < res.len() ==> batch_le(#[trigger] res[i], res[best_batch_idx(res)]),
        forall|i: int|
            best_batch_idx(res) < i < res.len() ==> !batch_le(
                res[best_batch_idx(res)],
                #[trigger] res[i],
            ),
    decreases res.len(),
{
    if res.len() > 1 {
        lemma_best_batch_idx_props(res.drop_last());
        assert(forall|i: int| 0 <= i < res.len() - 1 ==> res.drop_last()[i] == #[trigger] res[i]);
    }
}

/// Law (range merge): a trial candidate's lookup range is exactly the merge
/// over its surviving batches: the smallest lower bound and the largest upper
/// bound, each attained by some batch.
pub proof fn lemma_range_merge(res: Seq<SettingsV>)
    requires
        res.len() > 0,
    ensures
        forall|i: int| 0 <= i < res.len() ==> trial_candidate(res).lookup_lo <= #[trigger] res[i].lookup_lo,
        forall|i: int| 0 <= i < res.len() ==> trial_candidate(res).lookup_hi >= #[trigger] res[i].lookup_hi,
        exists|i: int| 0 <= i < res.len() && trial_candidate(res).lookup_lo == #[trigger] res[i].lookup_lo,
        exists|i: int| 0 <= i < res.len() && trial_candidate(res).lookup_hi == #[trigger] res[i].lookup_hi,
    decreases res.len(),
{
    lemma_min_max_lookup_props(res);
}

proof fn lemma_min_max_lookup_props(res: Seq<SettingsV>)
    requires
        res.len() > 0,
    ensures
        forall|i: int| 0 <= i < res.len() ==> min_lookup_lo(res) <= #[trigger] res[i].lookup_lo,
        forall|i: int| 0 <= i < res.len() ==> max_lookup_hi(res) >= #[trigger] res[i].lookup_hi,
        exists|i: int| 0 <= i < res.len() && min_lookup_lo(res) == #[trigger] res[i].lookup_lo,
        exists|i: int| 0 <= i < res.len() && max_lookup_hi(res) == #[trigger] res[i].lookup_hi,
    decreases res.len(),
{
    if res.len() > 1 {
        lemma_min_max_lookup_props(res.drop_last());
        assert(forall|i: int| 0 <= i < res.len() - 1 ==> res.drop_last()[i] == #[trigger] res[i]);
        let sub = res.drop_last();
        let w1 = choose|i: int| 0 <= i < sub.len() && min_lookup_lo(sub) == sub[i].lookup_lo;
        let w2 = choose|i: int| 0 <= i < sub.len() && max_lookup_hi(sub) == sub[i].lookup_hi;
        if res.last().lookup_lo < min_lookup_lo(sub) {
            assert(min_lookup_lo(res) == res[res.len() - 1].lookup_lo);
        } else {
            assert(min_lookup_lo(res) == res[w1].lookup_lo);
        }
        if res.last().lookup_hi > max_lookup_hi(sub) {
            assert(max_lookup_hi(res) == res[res.len() - 1].lookup_hi);
        } else {
            assert(max_lookup_hi(res) == res[w2].lookup_hi);
        }
    } else {
        assert(min_lookup_lo(res) == res[0].lookup_lo);
        assert(max_lookup_hi(res) == res[0].lookup_hi);
    }
}

/// Reduce one trial's surviving batch results to the trial's candidate
/// settings: pick the best batch by `(logrows, input_scale, param_scale)`
/// (the last such under exact ties) and overwrite its lookup range with the
/// merged `(min of lower, max of upper)` over all surviving batches. A trial
/// with no surviving batch contributes no candidate.
pub fn select_best_batch(res: &Vec<CircuitSettings>) -> (r: Option<CircuitSettings>)
    ensures
        r is Some <==> res@.len() > 0,
        res@.len() > 0 ==> (r matches Some(s) && s@ == trial_candidate(res.deep_view())),
{
    if res.len() == 0 {
        return None;
    }
    let ghost dv = res.deep_view();
    proof {
        assert(dv.len() == res@.len());
        assert(forall|k: int| 0 <= k < dv.len() ==> dv[k] == (#[trigger] res@[k])@);
    }
    let mut bi: usize = 0;
    let mut mn: i64 = res[0].lookup_range.lo;
    let mut mx: i64 = res[0].lookup_range.hi;
    let mut i: usize = 1;
    proof {
        assert(dv.take(1).len() == 1);
        assert(dv.take(1)[0] == dv[0]);
    }
    while i < res.len()
        invariant
            1 <= i <= dv.len(),
            dv == res.deep_view(),
            dv.len() == res@.len(),
            forall|k: int| 0 <= k < dv.len() ==> dv[k] == (#[trigger] res@[k])@,
            (bi as int) < (i as int),
            bi as int == best_batch_idx(dv.take(i as int)),
            mn == min_lookup_lo(dv.take(i as int)),
            mx == max_lookup_hi(dv.take(i as int)),
        decreases res@.len() - i,
    {
        proof {
            assert(dv.take(i + 1).drop_last() =~= dv.take(i as int));
            assert(dv.take(i + 1).last() == dv[i as int]);
            assert(dv.take(i + 1).len() == i + 1 > 1);
        }
        if batch_le_exec(&res[bi], &res[i]) {
            bi = i;
        }
        if res[i].lookup_range.lo < mn {
            mn = res[i].lookup_range.lo;
        }
        if res[i].lookup_range.hi > mx {
            mx = res[i].lookup_range.hi;
        }
        i = i + 1;
    }
    proof {
        assert(dv.take(dv.len() as int) =~= dv);
    }
    let mut s = res[bi].duplicate();
    s.lookup_range = LookupRange { lo: mn, hi: mx };
    proof {
        assert(s@ =~= trial_candidate(dv));
    }
    Some(s)
}

/// The smallest `logrows` over a candidate set.
pub open spec fn min_logrows(c: Seq<SettingsV>) -> u32
    decreases c.len(),
{
    if c.len() == 0 {
        0u32
    } else if c.len() == 1 {
        c[0].logrows
    } else {
        let m = min_logrows(c.drop_last());
        if c.last().logrows < m {
            c.last().logrows
        } else {
            m
        }
    }
}

/// The candidates whose `logrows` equals `m`, in enumeration order.
pub open spec fn filter_logrows_eq(c: Seq<SettingsV>, m: u32) -> Seq<SettingsV>
    decreases c.len(),
{
    if c.len() == 0 {
        Seq::empty()
    } else if c.last().logrows == m {
        filter_logrows_eq(c.drop_last(), m).push(c.last())
    } else {
        filter_logrows_eq(c.drop_last(), m)
    }
}

/// The candidate a "keep the later of equals" maximum scan by precision key
/// settles on: the last candidate whose precision key is maximal.
pub open spec fn last_scale_max(c: Seq<SettingsV>) -> SettingsV
    decreases c.len(),
{
    if c.len() <= 1 {
        c[0]
    } else {
        let p = last_scale_max(c.drop_last());
        if scale_le(p, c.last()) {
            c.last()
        } else {
            p
        }
    }
}

/// The candidates with the same precision key as `k`, in enumeration order.
pub open spec fn filter_same_scale(c: Seq<SettingsV>, k: SettingsV) -> Seq<SettingsV>
    decreases c.len(),
{
    if c.len() == 0 {
        Seq::empty()
    } else if same_scale(c.last(), k) {
        filter_same_scale(c.drop_last(), k).push(c.last())
    } else {
        filter_same_scale(c.drop_last(), k)
    }
}

/// The candidate a "keep the earlier of equals" minimum scan by `logrows`
/// settles on: the first candidate whose `logrows` is minimal.
pub open spec fn first_min_logrows(c: Seq<SettingsV>) -> SettingsV
    decreases c.len(),
{
    if c.len() <= 1 {
        c[0]
    } else {
        let p = first_min_logrows(c.drop_last());
        if c.last().logrows < p.logrows {
            c.last()
        } else {
            p
        }
    }
}

/// The `Resources` winner: among the candidates with the globally minimal
/// `logrows`, the one with the maximal precision key (the last under exact
/// ties).
pub open spec fn resources_choice(c: Seq<SettingsV>) -> SettingsV {
    last_scale_max(filter_logrows_eq(c, min_logrows(c)))
}

/// The `Accuracy` winner: among the candidates sharing the maximal precision
/// key (the last under exact ties), the one with the minimal `logrows` (the
/// first under exact ties).
pub open spec fn accuracy_choice(c: Seq<SettingsV>) -> SettingsV {
    first_min_logrows(filter_same_scale(c, last_scale_max(c)))
}

proof fn lemma_min_logrows_le_all(c: Seq<SettingsV>)
    requires
        c.len() > 0,
    ensures
        forall|i: int| 0 <= i < c.len() ==> min_logrows(c) <= (#[trigger] c[i]).logrows,
    decreases c.len(),
{
    if c.len() > 1 {
        lemma_min_logrows_le_all(c.drop_last());
        assert(forall|i: int| 0 <= i < c.len() - 1 ==> c.drop_last()[i] == #[trigger] c[i]);
    }
}

proof fn lemma_filter_logrows_min_nonempty(c: Seq<SettingsV>)
    requires
        c.len() > 0,
    ensures
        filter_logrows_eq(c, min_logrows(c)).len() > 0,
    decreases c.len(),
{
    if c.len() > 1 {
        let sub = c.drop_last();
        if c.last().logrows < min_logrows(sub) {
            assert(min_logrows(c) == c.last().logrows);
        } else {
            lemma_filter_logrows_min_nonempty(sub);
        }
    }
}

proof fn lemma_filter_logrows_members(c: Seq<SettingsV>, m: u32)
    ensures
        forall|k: int|
            0 <= k < filter_logrows_eq(c, m).len() ==> (#[trigger] filter_logrows_eq(c, m)[k]).logrows
                == m && exists|i: int| 0 <= i < c.len() && c[i] == filter_logrows_eq(c, m)[k],
    decreases c.len(),
{
    if c.len() > 0 {
        lemma_filter_logrows_members(c.drop_last(), m);
        assert(forall|i: int| 0 <= i < c.len() - 1 ==> c.drop_last()[i] == #[trigger] c[i]);
        let f = filter_logrows_eq(c, m);
        assert forall|k: int| 0 <= k < f.len() implies (#[trigger] f[k]).logrows == m && exists|i: int|
            0 <= i < c.len() && c[i] == f[k] by {
            let fsub = filter_logrows_eq(c.drop_last(), m);
            if k < fsub.len() {
                let i = choose|i: int| 0 <= i < c.len() - 1 && c.drop_last()[i] == fsub[k];
                assert(c[i] == f[k]);
            } else {
                assert(c[c.len() - 1] == f[k]);
            }
        }
    }
}

proof fn lemma_last_scale_max_props(c: Seq<SettingsV>)
    requires
        c.len() > 0,
    ensures
        exists|i: int| 0 <= i < c.len() && c[i] == last_scale_max(c),
        forall|i: int| 0 <= i < c.len() ==> scale_le(#[trigger] c[i], last_scale_max(c)),
    decreases c.len(),
{
    if c.len() > 1 {
        lemma_last_scale_max_props(c.drop_last());
        assert(forall|i: int| 0 <= i < c.len() - 1 ==> c.drop_last()[i] == #[trigger] c[i]);
        let p = last_scale_max(c.drop_last());
        if scale_le(p, c.last()) {
            assert(c[c.len() - 1] == last_scale_max(c));
        } else {
            let i = choose|i: int| 0 <= i < c.len() - 1 && c.drop_last()[i] == p;
            assert(c[i] == last_scale_max(c));
        }
    } else {
        assert(c[0] == last_scale_max(c));
    }
}

proof fn lemma_filter_same_scale_members(c: Seq<SettingsV>, k: SettingsV)
    ensures
        forall|j: int|
            0 <= j < filter_same_scale(c, k).len() ==> same_scale(
                #[trigger] filter_same_scale(c, k)[j],
                k,
            ) && exists|i: int| 0 <= i < c.len() && c[i] == filter_same_scale(c, k)[j],
    decreases c.len(),
{
    if c.len() > 0 {
        lemma_filter_same_scale_members(c.drop_last(), k);
        assert(forall|i: int| 0 <= i < c.len() - 1 ==> c.drop_last()[i] == #[trigger] c[i]);
        let f = filter_same_scale(c, k);
        assert forall|j: int| 0 <= j < f.len() implies same_scale(#[trigger] f[j], k) && exists|i: int|
            0 <= i < c.len() && c[i] == f[j] by {
            let fsub = filter_same_scale(c.drop_last(), k);
            if j < fsub.len() {
                let i = choose|i: int| 0 <= i < c.len() - 1 && c.drop_last()[i] == fsub[j];
                assert(c[i] == f[j]);
            } else {
                assert(c[c.len() - 1] == f[j]);
            }
        }
    }
}

proof fn lemma_filter_same_scale_nonempty(c: Seq<SettingsV>)
    requires
        c.len() > 0,
    ensures
        filter_same_scale(c, last_scale_max(c)).len() > 0,
    decreases c.len(),
{
    if c.len() > 1 {
        let sub = c.drop_last();
        let p = last_scale_max(sub);
        if scale_le(p, c.last()) {
            assert(same_scale(c.last(), last_scale_max(c)));
        } else {
            lemma_filter_same_scale_nonempty(sub);
            assert(filter_same_scale(c, last_scale_max(c)).len() >= filter_same_scale(
                sub,
                last_scale_max(c),
            ).len());
        }
    } else {
        assert(same_scale(c.last(), last_scale_max(c)));
    }
}

proof fn lemma_first_min_logrows_props(c: Seq<SettingsV>)
    requires
        c.len() > 0,
    ensures
        exists|i: int| 0 <= i < c.len() && c[i] == first_min_logrows(c),
        forall|i: int| 0 <= i < c.len() ==> first_min_logrows(c).logrows <= (#[trigger] c[i]).logrows,
    decreases c.len(),
{
    if c.len() > 1 {
        lemma_first_min_logrows_props(c.drop_last());
        assert(forall|i: int| 0 <= i < c.len() - 1 ==> c.drop_last()[i] == #[trigger] c[i]);
        let p = first_min_logrows(c.drop_last());
        if c.last().logrows < p.logrows {
            assert(c[c.len() - 1] == first_min_logrows(c));
        } else {
            let i = choose|i: int| 0 <= i < c.len() - 1 && c.drop_last()[i] == p;
            assert(c[i] == first_min_logrows(c));
        }
    } else {
        assert(c[0] == first_min_logrows(c));
    }
}

proof fn lemma_filter_logrows_complete(c: Seq<SettingsV>, m: u32, i: int)
    requires
        0 <= i < c.len(),
        c[i].logrows == m,
    ensures
        exists|k: int|
            0 <= k < filter_logrows_eq(c, m).len() && filter_logrows_eq(c, m)[k] == c[i],
    decreases c.len(),
{
    if c.len() > 0 {
        let f = filter_logrows_eq(c, m);
        if i == c.len() - 1 {
            assert(f[f.len() - 1] == c[i]);
        } else {
            lemma_filter_logrows_complete(c.drop_last(), m, i);
            let fsub = filter_logrows_eq(c.drop_last(), m);
            let k = choose|k: int| 0 <= k < fsub.len() && fsub[k] == c.drop_last()[i];
            assert(f[k] == c[i]);
        }
    }
}

proof fn lemma_filter_same_scale_complete(c: Seq<SettingsV>, s: SettingsV, i: int)
    requires
        0 <= i < c.len(),
        same_scale(c[i], s),
    ensures
        exists|k: int|
            0 <= k < filter_same_scale(c, s).len() && filter_same_scale(c, s)[k] == c[i],
    decreases c.len(),
{
    if c.len() > 0 {
        let f = filter_same_scale(c, s);
        if i == c.len() - 1 {
            assert(f[f.len() - 1] == c[i]);
        } else {
            lemma_filter_same_scale_complete(c.drop_last(), s, i);
            let fsub = filter_same_scale(c.drop_last(), s);
            let k = choose|k: int| 0 <= k < fsub.len() && fsub[k] == c.drop_last()[i];
            assert(f[k] == c[i]);
        }
    }
}

/// What the `Resources` policy guarantees of its winner: it is one of the
/// candidates, its `logrows` is the global minimum, and no candidate at that
/// minimum beats its precision key.
pub proof fn lemma_resources_choice_props(c: Seq<SettingsV>)
    requires
        c.len() > 0,
    ensures
        exists|i: int| 0 <= i < c.len() && c[i] == resources_choice(c),
        resources_choice(c).logrows == min_logrows(c),
        forall|i: int| 0 <= i < c.len() ==> resources_choice(c).logrows <= (#[trigger] c[i]).logrows,
        forall|i: int|
            0 <= i < c.len() && (#[trigger] c[i]).logrows == min_logrows(c) ==> scale_le(
                c[i],
                resources_choice(c),
            ),
{
    let m = min_logrows(c);
    let f = filter_logrows_eq(c, m);
    lemma_min_logrows_le_all(c);
    lemma_filter_logrows_min_nonempty(c);
    lemma_filter_logrows_members(c, m);
    lemma_last_scale_max_props(f);
    let w = choose|k: int| 0 <= k < f.len() && f[k] == last_scale_max(f);
    let i = choose|i: int| 0 <= i < c.len() && c[i] == f[w];
    assert(c[i] == resources_choice(c));
    assert forall|i: int|
        0 <= i < c.len() && (#[trigger] c[i]).logrows == min_logrows(c) implies scale_le(
        c[i],
        resources_choice(c),
    ) by {
        lemma_filter_logrows_complete(c, m, i);
        let k = choose|k: int| 0 <= k < f.len() && f[k] == c[i];
        assert(scale_le(f[k], last_scale_max(f)));
    }
}

/// What the `Accuracy` policy guarantees of its winner: it is one of the
/// candidates, no candidate beats its precision key, and among candidates
/// with its exact precision key it found the smallest `logrows`.
pub proof fn lemma_accuracy_choice_props(c: Seq<SettingsV>)
    requires
        c.len() > 0,
    ensures
        exists|i: int| 0 <= i < c.len() && c[i] == accuracy_choice(c),
        forall|i: int| 0 <= i < c.len() ==> scale_le(#[trigger] c[i], accuracy_choice(c)),
        forall|i: int|
            0 <= i < c.len() && same_scale(#[trigger] c[i], accuracy_choice(c))
                ==> accuracy_choice(c).logrows <= c[i].logrows,
{
    let top = last_scale_max(c);
    let f = filter_same_scale(c, top);
    lemma_last_scale_max_props(c);
    lemma_filter_same_scale_nonempty(c);
    lemma_filter_same_scale_members(c, top);
    lemma_first_min_logrows_props(f);
    let w = choose|k: int| 0 <= k < f.len() && f[k] == first_min_logrows(f);
    let i0 = choose|i: int| 0 <= i < c.len() && c[i] == f[w];
    assert(c[i0] == accuracy_choice(c));
    assert(same_scale(accuracy_choice(c), top));
    assert forall|i: int| 0 <= i < c.len() implies scale_le(#[trigger] c[i], accuracy_choice(c)) by {
        assert(scale_le(c[i], top));
    }
    assert forall|i: int|
        0 <= i < c.len() && same_scale(#[trigger] c[i], accuracy_choice(c))
            implies accuracy_choice(c).logrows <= c[i].logrows by {
        assert(same_scale(c[i], top));
        lemma_filter_same_scale_complete(c, top, i);
        let k = choose|k: int| 0 <= k < f.len() && f[k] == c[i];
        assert(first_min_logrows(f).logrows <= f[k].logrows);
    }
}

/// Law (calibration monotonicity): under a dataset whose constraint counts
/// never decrease when both quantization scales grow, the `Resources` winner
/// never found fewer constraints than a candidate whose scales it dominates.
pub proof fn lemma_calibration_monotonicity(c: Seq<SettingsV>, i: int)
    requires
        c.len() > 0,
        0 <= i < c.len(),
        forall|p: int, q: int|
            0 <= p < c.len() && 0 <= q < c.len() && (#[trigger] c[p]).input_scale >= (
            #[trigger] c[q]).input_scale && c[p].param_scale >= c[q].param_scale ==> c[
                p
            ].num_constraints >= c[q].num_constraints,
        resources_choice(c).input_scale >= c[i].input_scale,
        resources_choice(c).param_scale >= c[i].param_scale,
    ensures
        resources_choice(c).num_constraints >= c[i].num_constraints,
{
    lemma_resources_choice_props(c);
    let w = choose|k: int| 0 <= k < c.len() && c[k] == resources_choice(c);
    assert(c[w].input_scale >= c[i].input_scale && c[w].param_scale >= c[i].param_scale);
}

/// Select the `Resources` winner: among the candidates with the globally
/// minimal `logrows`, the one maximizing `(input_scale, param_scale,
/// scale_rebase_multiplier)` (the last under exact ties).
pub fn select_resources(cands: &Vec<CircuitSettings>) -> (r: CircuitSettings)
    requires
        cands@.len() > 0,
    ensures
        r@ == resources_choice(cands.deep_view()),
{
    let ghost dv = cands.deep_view();
    proof {
        assert(dv.len() == cands@.len());
        assert(forall|k: int| 0 <= k < dv.len() ==> dv[k] == (#[trigger] cands@[k])@);
    }
    let mut m: u32 = cands[0].logrows;
    let mut i: usize = 1;
    proof {
        assert(dv.take(1).len() == 1);
        assert(dv.take(1)[0] == dv[0]);
    }
    while i < cands.len()
        invariant
            1 <= i <= dv.len(),
            dv == cands.deep_view(),
            dv.len() == cands@.len(),
            forall|k: int| 0 <= k < dv.len() ==> dv[k] == (#[trigger] cands@[k])@,
            m == min_logrows(dv.take(i as int)),
        decreases cands@.len() - i,
    {
        proof {
            assert(dv.take(i + 1).drop_last() =~= dv.take(i as int));
            assert(dv.take(i + 1).last() == dv[i as int]);
            assert(dv.take(i + 1).len() == i + 1 > 1);
        }
        if cands[i].logrows < m {
            m = cands[i].logrows;
        }
        i = i + 1;
    }
    proof {
        assert(dv.take(dv.len() as int) =~= dv);
    }

    let ghost mg = m;
    let mut bi: usize = 0;
    let mut found: bool = false;
    let mut i: usize = 0;
    while i < cands.len()
        invariant
            i <= dv.len(),
            dv == cands.deep_view(),
            dv.len() == cands@.len(),
            forall|k: int| 0 <= k < dv.len() ==> dv[k] == (#[trigger] cands@[k])@,
            mg == m,
            found <==> filter_logrows_eq(dv.take(i as int), mg).len() > 0,
            found ==> (bi as int) < (i as int) && dv[bi as int] == last_scale_max(
                filter_logrows_eq(dv.take(i as int), mg),
            ),
        decreases cands@.len() - i,
    {
        proof {
            assert(dv.take(i + 1).drop_last() =~= dv.take(i as int));
            assert(dv.take(i + 1).last() == dv[i as int]);
        }
        if cands[i].logrows == m {
            proof {
                let f1 = filter_logrows_eq(dv.take(i + 1), mg);
                let f0 = filter_logrows_eq(dv.take(i as int), mg);
                assert(f1 == f0.push(dv[i as int]));
                if f0.len() > 0 {
                    assert(f1.drop_last() =~= f0);
                    assert(f1.last() == dv[i as int]);
                    assert(f1.len() > 1);
                }
            }
            if !found {
                bi = i;
                found = true;
                proof {
                    let f = filter_logrows_eq(dv.take(i + 1), mg);
                    assert(f.len() == 1);
                    assert(f[0] == dv[i as int]);
                }
            } else if scale_le_exec(&cands[bi], &cands[i]) {
                bi = i;
            }
        }
        i = i + 1;
    }
    proof {
        assert(dv.take(dv.len() as int) =~= dv);
        lemma_filter_logrows_min_nonempty(dv);
    }
    cands[bi].duplicate()
}

/// Select the `Accuracy` winner: among the candidates sharing the
/// lexicographically maximal `(input_scale, param_scale,
/// scale_rebase_multiplier)` (the last under exact ties), the one with the
/// minimal `logrows` (the first under exact ties).
pub fn select_accuracy(cands: &Vec<CircuitSettings>) -> (r: CircuitSettings)
    requires
        cands@.len() > 0,
    ensures
        r@ == accuracy_choice(cands.deep_view()),
{
    let ghost dv = cands.deep_view();
    proof {
        assert(dv.len() == cands@.len());
        assert(forall|k: int| 0 <= k < dv.len() ==> dv[k] == (#[trigger] cands@[k])@);
    }
    let mut mi: usize = 0;
    let mut i: usize = 1;
    proof {
        assert(dv.take(1).len() == 1);
        assert(dv.take(1)[0] == dv[0]);
    }
    while i < cands.len()
        invariant
            1 <= i <= dv.len(),
            dv == cands.deep_view(),
            dv.len() == cands@.len(),
            forall|k: int| 0 <= k < dv.len() ==> dv[k] == (#[trigger] cands@[k])@,
            (mi as int) < (i as int),
            dv[mi as int] == last_scale_max(dv.take(i as int)),
        decreases cands@.len() - i,
    {
        proof {
            assert(dv.take(i + 1).drop_last() =~= dv.take(i as int));
            assert(dv.take(i + 1).last() == dv[i as int]);
            assert(dv.take(i + 1).len() == i + 1 > 1);
        }
        if scale_le_exec(&cands[mi], &cands[i]) {
            mi = i;
        }
        i = i + 1;
    }
    proof {
        assert(dv.take(dv.len() as int) =~= dv);
    }

    let ghost top = dv[mi as int];
    let mut bi: usize = 0;
    let mut found: bool = false;
    let mut i: usize = 0;
    while i < cands.len()
        invariant
            i <= dv.len(),
            dv == cands.deep_view(),
            dv.len() == cands@.len(),
            forall|k: int| 0 <= k < dv.len() ==> dv[k] == (#[trigger] cands@[k])@,
            (mi as int) < dv.len(),
            top == dv[mi as int],
            top == last_scale_max(dv),
            found <==> filter_same_scale(dv.take(i as int), top).len() > 0,
            found ==> (bi as int) < (i as int) && dv[bi as int] == first_min_logrows(
                filter_same_scale(dv.take(i as int), top),
            ),
        decreases cands@.len() - i,
    {
        proof {
            assert(dv.take(i + 1).drop_last() =~= dv.take(i as int));
            assert(dv.take(i + 1).last() == dv[i as int]);
        }
        let c = &cands[i];
        let is_top = c.input_scale == cands[mi].input_scale && c.param_scale
            == cands[mi].param_scale && c.scale_rebase_multiplier
            == cands[mi].scale_rebase_multiplier;
        if is_top {
            proof {
                assert(same_scale(dv[i as int], top));
                let f1 = filter_same_scale(dv.take(i + 1), top);
                let f0 = filter_same_scale(dv.take(i as int), top);
                assert(f1 == f0.push(dv[i as int]));
                if f0.len() > 0 {
                    assert(f1.drop_last() =~= f0);
                    assert(f1.last() == dv[i as int]);
                    assert(f1.len() > 1);
                }
            }
            if !found {
                bi = i;
                found = true;
                proof {
                    let f = filter_same_scale(dv.take(i + 1), top);
                    assert(f.len() == 1);
                    assert(f[0] == dv[i as int]);
                }
            } else if cands[i].logrows < cands[bi].logrows {
                bi = i;
            }
        }
        i = i + 1;
    }
    proof {
        assert(dv.take(dv.len() as int) =~= dv);
        lemma_filter_same_scale_nonempty(dv);
    }
    cands[bi].duplicate()
}

/// The smallest exponent `e` with `2^e >= v` (0 for `v <= 1`), as the
/// recursion "count the halvings, rounding up".
pub open spec fn spec_ceil_log2(v: int) -> int
    decreases v,
{
    if v <= 1 {
        0
    } else {
        1 + spec_ceil_log2((v + 1) / 2)
    }
}

proof fn lemma_ceil_log2_nonneg(v: int)
    ensures
        spec_ceil_log2(v) >= 0,
    decreases v,
{
    if v > 1 {
        lemma_ceil_log2_nonneg((v + 1) / 2);
    }
}

proof fn lemma_ceil_log2_mono(a: int, b: int)
    requires
        a <= b,
    ensures
        spec_ceil_log2(a) <= spec_ceil_log2(b),
    decreases b,
{
    if b <= 1 {
    } else if a <= 1 {
        lemma_ceil_log2_nonneg(b);
    } else {
        vstd::arithmetic::div_mod::lemma_div_is_ordered(a + 1, b + 1, 2);
        lemma_ceil_log2_mono((a + 1) / 2, (b + 1) / 2);
    }
}

proof fn lemma_ceil_log2_pow2(e: nat)
    ensures
        spec_ceil_log2(vstd::arithmetic::power2::pow2(e) as int) == e,
    decreases e,
{
    vstd::arithmetic::power2::lemma_pow2_pos(e);
    if e == 0 {
        assert(vstd::arithmetic::power2::pow2(0) == 1) by {
            vstd::arithmetic::power2::lemma2_to64();
        }
    } else {
        let p = vstd::arithmetic::power2::pow2((e - 1) as nat) as int;
        vstd::arithmetic::power2::lemma_pow2_pos((e - 1) as nat);
        vstd::arithmetic::power2::lemma_pow2_unfold(e);
        vstd::arithmetic::div_mod::lemma_fundamental_div_mod_converse(2 * p + 1, 2, p, 1);
        lemma_ceil_log2_pow2((e - 1) as nat);
    }
}

proof fn lemma_ceil_log2_u64_bound(v: int)
    requires
        v <= 0x1_0000_0000_0000_0000,
    ensures
        spec_ceil_log2(v) <= 64,
{
    assert(vstd::arithmetic::power2::pow2(64) == 0x1_0000_0000_0000_0000) by {
        vstd::arithmetic::power2::lemma2_to64();
    }
    lemma_ceil_log2_mono(v, 0x1_0000_0000_0000_0000);
    lemma_ceil_log2_pow2(64);
}

/// Law (sizing is exact): for positive `v`, `spec_ceil_log2(v)` is the
/// smallest exponent `e` with `2^e >= v`.
pub proof fn lemma_ceil_log2_is_exact(v: int)
    requires
        1 <= v,
    ensures
        vstd::arithmetic::power2::pow2(spec_ceil_log2(v) as nat) >= v,
        spec_ceil_log2(v) > 0 ==> vstd::arithmetic::power2::pow2((spec_ceil_log2(v) - 1) as nat)
            < v,
    decreases v,
{
    lemma_ceil_log2_nonneg(v);
    if v == 1 {
        assert(vstd::arithmetic::power2::pow2(0) == 1) by {
            vstd::arithmetic::power2::lemma2_to64();
        }
    } else {
        let h = (v + 1) / 2;
        assert(1 <= h < v);
        assert(2 * h >= v && 2 * h <= v + 1);
        lemma_ceil_log2_is_exact(h);
        lemma_ceil_log2_nonneg(h);
        let ch = spec_ceil_log2(h);
        vstd::arithmetic::power2::lemma_pow2_unfold((ch + 1) as nat);
        assert(vstd::arithmetic::power2::pow2((ch + 1) as nat) == 2
            * vstd::arithmetic::power2::pow2(ch as nat));
        assert(vstd::arithmetic::power2::pow2((ch + 1) as nat) >= v);
        if ch == 0 {
            assert(h == 1) by {
                if h > 1 {
                    lemma_ceil_log2_nonneg((h + 1) / 2);
                }
            }
            assert(v == 2) by {
                vstd::arithmetic::div_mod::lemma_fundamental_div_mod(v + 1, 2);
            }
            assert(vstd::arithmetic::power2::pow2(0) == 1) by {
                vstd::arithmetic::power2::lemma2_to64();
            }
        } else {
            assert(vstd::arithmetic::power2::pow2((ch - 1) as nat) < h);
            vstd::arithmetic::power2::lemma_pow2_unfold(ch as nat);
            assert(vstd::arithmetic::power2::pow2(ch as nat) == 2
                * vstd::arithmetic::power2::pow2((ch - 1) as nat));
            assert(vstd::arithmetic::power2::pow2(ch as nat) <= 2 * (h - 1));
            assert(2 * (h - 1) < v);
        }
    }
}

proof fn lemma_half_ceil(x: int)
    requires
        x >= 0,
    ensures
        (x + 1) / 2 == x / 2 + x % 2,
{
    vstd::arithmetic::div_mod::lemma_fundamental_div_mod(x, 2);
    let q = x / 2;
    let r = x % 2;
    if r == 0 {
        vstd::arithmetic::div_mod::lemma_fundamental_div_mod_converse(x + 1, 2, q, 1);
    } else {
        vstd::arithmetic::div_mod::lemma_fundamental_div_mod_converse(x + 1, 2, q + 1, 0);
    }
}

/// The number of bits needed to index `v` values: the smallest `e` with
/// `2^e >= v`.
pub fn ceil_log2_u64(v: u64) -> (r: u32)
    ensures
        r as int == spec_ceil_log2(v as int),
        r <= 64,
{
    proof {
        lemma_ceil_log2_u64_bound(v as int);
        lemma_ceil_log2_nonneg(v as int);
    }
    let mut x: u64 = v;
    let mut n: u32 = 0;
    while x > 1
        invariant
            n as int + spec_ceil_log2(x as int) == spec_ceil_log2(v as int),
            spec_ceil_log2(v as int) <= 64,
            n <= 64,
        decreases x,
    {
        proof {
            lemma_half_ceil(x as int);
            lemma_ceil_log2_nonneg((x as int + 1) / 2);
            vstd::arithmetic::div_mod::lemma_fundamental_div_mod(x as int, 2);
        }
        let nx = x / 2 + x % 2;
        n = n + 1;
        x = nx;
    }
    n
}

proof fn lemma_seq_product_pos(s: Seq<u64>)
    requires
        forall|i: int| 0 <= i < s.len() ==> 1 <= #[trigger] s[i],
    ensures
        seq_product(s) >= 1,
    decreases s.len(),
{
    if s.len() > 0 {
        lemma_seq_product_pos(s.drop_last());
        assert(seq_product(s) == seq_product(s.drop_last()) * s.last());
        assert(seq_product(s.drop_last()) * s.last() >= 1) by (nonlinear_arith)
            requires
                seq_product(s.drop_last()) >= 1,
                s.last() >= 1,
        ;
    }
}

proof fn lemma_seq_product_take_le(s: Seq<u64>, i: int)
    requires
        forall|j: int| 0 <= j < s.len() ==> 1 <= #[trigger] s[j],
        0 <= i <= s.len(),
    ensures
        1 <= seq_product(s.take(i)) <= seq_product(s),
    decreases s.len() - i,
{
    if i == s.len() {
        assert(s.take(i) =~= s);
        lemma_seq_product_pos(s);
    } else {
        lemma_seq_product_take_le(s, i + 1);
        assert(s.take(i + 1).drop_last() =~= s.take(i));
        assert(s.take(i + 1).last() == s[i]);
        assert(seq_product(s.take(i + 1)) == seq_product(s.take(i)) * s[i]);
        assert(forall|j: int| 0 <= j < i ==> 1 <= #[trigger] s.take(i)[j]);
        lemma_seq_product_pos(s.take(i));
        assert(seq_product(s.take(i)) <= seq_product(s.take(i)) * s[i]) by (nonlinear_arith)
            requires
                seq_product(s.take(i)) >= 1,
                s[i] >= 1,
        ;
    }
}

fn shape_product(s: &Vec<u64>) -> (r: u64)
    requires
        shape_wf(s@),
    ensures
        r as int == seq_product(s@),
        1 <= r <= 0x1_0000_0000_0000,
{
    let mut r: u64 = 1;
    let mut i: usize = 0;
    proof {
        assert(s@.take(0) =~= Seq::<u64>::empty());
    }
    while i < s.len()
        invariant
            shape_wf(s@),
            i <= s@.len(),
            r as int == seq_product(s@.take(i as int)),
            1 <= r as int <= 0x1_0000_0000_0000,
        decreases s@.len() - i,
    {
        proof {
            assert(s@.take(i + 1).drop_last() =~= s@.take(i as int));
            assert(s@.take(i + 1).last() == s@[i as int]);
            lemma_seq_product_take_le(s@, i as int + 1);
        }
        r = r * s[i];
        i = i + 1;
    }
    proof {
        assert(s@.take(s@.len() as int) =~= s@);
    }
    r
}

/// The sum over all instance shapes of the product of their dimensions.
pub fn shape_sum_total(shapes: &Vec<Vec<u64>>) -> (r: u64)
    requires
        shapes.deep_view().len() <= 0x8000,
        forall|i: int|
            0 <= i < shapes.deep_view().len() ==> shape_wf(#[trigger] shapes.deep_view()[i]),
    ensures
        r as int == shape_sum(shapes.deep_view()),
        r <= 0x8000_0000_0000_0000,
{
    let ghost dv = shapes.deep_view();
    proof {
        assert(dv.len() == shapes@.len());
        assert(forall|k: int| 0 <= k < dv.len() ==> dv[k] == (#[trigger] shapes@[k])@);
    }
    let mut r: u64 = 0;
    let mut i: usize = 0;
    while i < shapes.len()
        invariant
            dv == shapes.deep_view(),
            dv.len() == shapes@.len(),
            dv.len() <= 0x8000,
            forall|k: int| 0 <= k < dv.len() ==> shape_wf(#[trigger] dv[k]),
            forall|k: int| 0 <= k < dv.len() ==> dv[k] == (#[trigger] shapes@[k])@,
            i <= dv.len(),
            r as int == shape_sum(dv.take(i as int)),
            r as int <= (i as int) * 0x1_0000_0000_0000,
        decreases shapes@.len() - i,
    {
        proof {
            assert(dv.take(i + 1).drop_last() =~= dv.take(i as int));
            assert(dv.take(i + 1).last() == dv[i as int]);
            assert(((i as int) + 1) * 0x1_0000_0000_0000 <= 0x8000 * 0x1_0000_0000_0000)
                by (nonlinear_arith)
                requires
                    (i as int) + 1 <= 0x8000,
            ;
            assert((i as int) * 0x1_0000_0000_0000 + 0x1_0000_0000_0000 == ((i as int) + 1)
                * 0x1_0000_0000_0000) by (nonlinear_arith);
        }
        let p = shape_product(&shapes[i]);
        r = r + p;
        i = i + 1;
    }
    proof {
        assert(dv.take(dv.len() as int) =~= dv);
        assert((dv.len() as int) * 0x1_0000_0000_0000 <= 0x8000 * 0x1_0000_0000_0000)
            by (nonlinear_arith)
            requires
                dv.len() as int <= 0x8000,
        ;
    }
    r
}

/// The recomputed circuit size for a `Resources { col_overflow: true }`
/// winner: enough rows for the merged lookup range, enough rows for the
/// instance values, and never below the global floor. The recomputation is
/// exact and can exceed the winner's previous `logrows`.
pub open spec fn spec_recomputed_logrows(s: SettingsV) -> int {
    let lookup_bits = spec_ceil_log2(s.lookup_hi - s.lookup_lo) + 1;
    let instance_bits = spec_ceil_log2(shape_sum(s.model_instance_shapes)) + 1;
    let rec = if instance_bits > lookup_bits {
        instance_bits
    } else {
        lookup_bits
    };
    if rec < MIN_LOGROWS as int {
        MIN_LOGROWS as int
    } else {
        rec
    }
}

/// Recompute `logrows` from the lookup range width and the instance shape
/// product sum.
pub fn recompute_logrows(s: &CircuitSettings) -> (r: u32)
    requires
        s@.wf(),
    ensures
        r as int == spec_recomputed_logrows(s@),
        r <= 66,
{
    let width: u64 = (s.lookup_range.hi - s.lookup_range.lo) as u64;
    let lookup_bits: u32 = ceil_log2_u64(width) + 1;
    let sum: u64 = shape_sum_total(&s.model_instance_shapes);
    let instance_bits: u32 = ceil_log2_u64(sum) + 1;
    let mut r: u32 = if instance_bits > lookup_bits {
        instance_bits
    } else {
        lookup_bits
    };
    if r < MIN_LOGROWS {
        r = MIN_LOGROWS;
    }
    r
}

/// The outcome of calibrating one batch under one trial's parameters: either
/// the settings the compiler found, or a construction failure, which is
/// tolerated and excluded from the trial's result set.
#[derive(Clone, Debug, PartialEq, Eq)]
pub enum BatchOutcome {
    Calibrated(CircuitSettings),
    Failed,
}

impl View for BatchOutcome {
    type V = Option<SettingsV>;

    open spec fn view(&self) -> Option<SettingsV> {
        match self {
            BatchOutcome::Calibrated(s) => Some(s@),
            BatchOutcome::Failed => None,
        }
    }
}

impl DeepView for BatchOutcome {
    type V = Option<SettingsV>;

    open spec fn deep_view(&self) -> Option<SettingsV> {
        self.view()
    }
}

/// The batch results that survive in one trial, in batch order.
pub open spec fn survivors(batch: Seq<Option<SettingsV>>) -> Seq<SettingsV>
    decreases batch.len(),
{
    if batch.len() == 0 {
        Seq::empty()
    } else {
        let rest = survivors(batch.drop_last());
        match batch.last() {
            Some(s) => rest.push(s),
            None => rest,
        }
    }
}

/// The candidates the trials contribute, in trial enumeration order: one per
/// trial with at least one surviving batch.
pub open spec fn candidates_of(results: Seq<Seq<Option<SettingsV>>>) -> Seq<SettingsV>
    decreases results.len(),
{
    if results.len() == 0 {
        Seq::empty()
    } else {
        let rest = candidates_of(results.drop_last());
        let sv = survivors(results.last());
        if sv.len() > 0 {
            rest.push(trial_candidate(sv))
        } else {
            rest
        }
    }
}

/// The settings calibration settles on, given the candidate list and the
/// target policy.
pub open spec fn calibrate_choice(c: Seq<SettingsV>, target: CalibrationTarget) -> SettingsV {
    match target {
        CalibrationTarget::Accuracy => accuracy_choice(c),
        CalibrationTarget::Resources { col_overflow } => {
            let w = resources_choice(c);
            if col_overflow {
                SettingsV {
                    input_scale: w.input_scale,
                    param_scale: w.param_scale,
                    scale_rebase_multiplier: w.scale_rebase_multiplier,
                    logrows: spec_recomputed_logrows(w) as u32,
                    lookup_lo: w.lookup_lo,
                    lookup_hi: w.lookup_hi,
                    required_lookups: w.required_lookups,
                    model_input_scales: w.model_input_scales,
                    model_output_scales: w.model_output_scales,
                    num_constraints: w.num_constraints,
                    total_const_size: w.total_const_size,
                    model_instance_shapes: w.model_instance_shapes,
                }
            } else {
                w
            }
        },
    }
}

/// Keep the surviving batch results of one trial, in batch order.
pub fn collect_survivors(batch: &Vec<BatchOutcome>) -> (r: Vec<CircuitSettings>)
    ensures
        r.deep_view() == survivors(batch.deep_view()),
{
    let ghost bdv = batch.deep_view();
    proof {
        assert(bdv.len() == batch@.len());
        assert(forall|k: int| 0 <= k < bdv.len() ==> bdv[k] == (#[trigger] batch@[k])@);
    }
    let mut r: Vec<CircuitSettings> = Vec::new();
    let mut i: usize = 0;
    while i < batch.len()
        invariant
            bdv == batch.deep_view(),
            bdv.len() == batch@.len(),
            forall|k: int| 0 <= k < bdv.len() ==> bdv[k] == (#[trigger] batch@[k])@,
            i <= bdv.len(),
            r.deep_view() == survivors(bdv.take(i as int)),
        decreases batch@.len() - i,
    {
        proof {
            assert(bdv.take(i + 1).drop_last() =~= bdv.take(i as int));
            assert(bdv.take(i + 1).last() == bdv[i as int]);
        }
        match &batch[i] {
            BatchOutcome::Calibrated(s) => {
                let c = s.duplicate();
                r.push(c);
                proof {
                    assert(r.deep_view() =~= survivors(bdv.take(i + 1)));
                }
            },
            BatchOutcome::Failed => {},
        }
        i = i + 1;
    }
    proof {
        assert(bdv.take(bdv.len() as int) =~= bdv);
    }
    r
}

proof fn lemma_survivors_wf(batch: Seq<Option<SettingsV>>)
    requires
        forall|j: int| 0 <= j < batch.len() ==> (#[trigger] batch[j] matches Some(s) ==> s.wf()),
    ensures
        forall|k: int| 0 <= k < survivors(batch).len() ==> (#[trigger] survivors(batch)[k]).wf(),
    decreases batch.len(),
{
    if batch.len() > 0 {
        assert(forall|j: int| 0 <= j < batch.len() - 1 ==> batch.drop_last()[j] == #[trigger] batch[j]);
        lemma_survivors_wf(batch.drop_last());
        let sv = survivors(batch);
        let rest = survivors(batch.drop_last());
        assert forall|k: int| 0 <= k < sv.len() implies (#[trigger] sv[k]).wf() by {
            if k < rest.len() {
                assert(sv[k] == rest[k]);
            } else {
                assert(batch[batch.len() - 1] matches Some(s) ==> s.wf());
            }
        }
    }
}

proof fn lemma_trial_candidate_wf(res: Seq<SettingsV>)
    requires
        res.len() > 0,
        forall|k: int| 0 <= k < res.len() ==> (#[trigger] res[k]).wf(),
    ensures
        trial_candidate(res).wf(),
{
    lemma_best_batch_idx_props(res);
    lemma_min_max_lookup_props(res);
    let c = trial_candidate(res);
    let w1 = choose|i: int| 0 <= i < res.len() && min_lookup_lo(res) == res[i].lookup_lo;
    let w2 = choose|i: int| 0 <= i < res.len() && max_lookup_hi(res) == res[i].lookup_hi;
    assert(c.lookup_lo == res[w1].lookup_lo);
    assert(c.lookup_hi == res[w2].lookup_hi);
    assert(c.lookup_lo <= res[0].lookup_lo <= res[0].lookup_hi <= c.lookup_hi);
}

proof fn lemma_candidates_wf(results: Seq<Seq<Option<SettingsV>>>)
    requires
        forall|i: int, j: int|
            0 <= i < results.len() && 0 <= j < (#[trigger] results[i]).len() ==> (
            #[trigger] results[i][j] matches Some(s) ==> s.wf()),
    ensures
        forall|k: int|
            0 <= k < candidates_of(results).len() ==> (#[trigger] candidates_of(results)[k]).wf(),
    decreases results.len(),
{
    if results.len() > 0 {
        assert(forall|i: int|
            0 <= i < results.len() - 1 ==> results.drop_last()[i] == #[trigger] results[i]);
        lemma_candidates_wf(results.drop_last());
        let sv = survivors(results.last());
        let rest = candidates_of(results.drop_last());
        let cs = candidates_of(results);
        if sv.len() > 0 {
            assert(forall|j: int|
                0 <= j < results[results.len() - 1].len() ==> (#[trigger] results[results.len()
                    - 1][j] matches Some(s) ==> s.wf()));
            lemma_survivors_wf(results.last());
            lemma_trial_candidate_wf(sv);
        }
        assert forall|k: int| 0 <= k < cs.len() implies (#[trigger] cs[k]).wf() by {
            if k < rest.len() {
                assert(cs[k] == rest[k]);
            }
        }
    }
}

/// Calibration's selection stage: reduce each trial's surviving batch results
/// to the trial's candidate, fail if no trial produced one, and otherwise
/// pick the winner under the target policy, recomputing its `logrows` when
/// the target is `Resources { col_overflow: true }`.
pub fn calibrate_select(trial_results: &Vec<Vec<BatchOutcome>>, target: CalibrationTarget) -> (r:
    Result<CircuitSettings, CalibrationError>)
    requires
        forall|i: int, j: int|
            0 <= i < trial_results.deep_view().len() && 0 <= j < (
            #[trigger] trial_results.deep_view()[i]).len() ==> (
            #[trigger] trial_results.deep_view()[i][j] matches Some(s) ==> s.wf()),
    ensures
        r is Err <==> candidates_of(trial_results.deep_view()).len() == 0,
        r matches Err(e) ==> e == CalibrationError::Infeasible,
        r matches Ok(s) ==> s@ == calibrate_choice(candidates_of(trial_results.deep_view()), target),
{
    let ghost rdv = trial_results.deep_view();
    proof {
        assert(rdv.len() == trial_results@.len());
        assert(forall|k: int|
            0 <= k < rdv.len() ==> rdv[k] == (#[trigger] trial_results@[k]).deep_view());
    }
    let mut cands: Vec<CircuitSettings> = Vec::new();
    let mut i: usize = 0;
    while i < trial_results.len()
        invariant
            rdv == trial_results.deep_view(),
            rdv.len() == trial_results@.len(),
            forall|k: int|
                0 <= k < rdv.len() ==> rdv[k] == (#[trigger] trial_results@[k]).deep_view(),
            i <= rdv.len(),
            cands.deep_view() == candidates_of(rdv.take(i as int)),
        decreases trial_results@.len() - i,
    {
        proof {
            assert(rdv.take(i + 1).drop_last() =~= rdv.take(i as int));
            assert(rdv.take(i + 1).last() == rdv[i as int]);
        }
        let sv = collect_survivors(&trial_results[i]);
        proof {
            assert(sv.deep_view().len() == sv@.len());
        }
        match select_best_batch(&sv) {
            Some(c) => {
                cands.push(c);
                proof {
                    assert(cands.deep_view() =~= candidates_of(rdv.take(i + 1)));
                }
            },
            None => {},
        }
        i = i + 1;
    }
    proof {
        assert(rdv.take(rdv.len() as int) =~= rdv);
    }

    if cands.len() == 0 {
        proof {
            assert(cands.deep_view().len() == cands@.len());
        }
        return Err(CalibrationError::Infeasible);
    }
    proof {
        assert(cands.deep_view().len() == cands@.len());
        lemma_candidates_wf(rdv);
    }
    match target {
        CalibrationTarget::Accuracy => Ok(select_accuracy(&cands)),
        CalibrationTarget::Resources { col_overflow } => {
            let mut s = select_resources(&cands);
            if col_overflow {
                proof {
                    lemma_resources_choice_props(cands.deep_view());
                    let w = choose|k: int|
                        0 <= k < cands.deep_view().len() && cands.deep_view()[k]
                            == resources_choice(cands.deep_view());
                    assert(s@.wf());
                }
                let lr = recompute_logrows(&s);
                s.logrows = lr;
                proof {
                    assert(s@ =~= calibrate_choice(candidates_of(rdv), target));
                }
            }
            Ok(s)
        },
    }
}

/// The scale range tried when none is supplied explicitly: low scales for
/// `Resources` targets, high scales for `Accuracy` targets.
pub fn default_scale_range(target: CalibrationTarget) -> (r: Vec<u32>)
    ensures
        target is Resources ==> r@ =~= seq![2u32, 3u32, 4u32, 5u32, 6u32, 7u32],
        target is Accuracy ==> r@ =~= seq![8u32, 9u32, 10u32, 11u32, 12u32, 13u32],
{
    match target {
        CalibrationTarget::Resources { .. } => vec![2u32, 3u32, 4u32, 5u32, 6u32, 7u32],
        CalibrationTarget::Accuracy => vec![8u32, 9u32, 10u32, 11u32, 12u32, 13u32],
    }
}

/// The rebase multipliers tried for every valid scale pair.
pub fn rebase_multipliers() -> (r: Vec<u32>)
    ensures
        r@ =~= seq![1u32, 2u32, 10u32],
{
    vec![1u32, 2u32, 10u32]
}

/// Build the trial grid for a scale range: the cartesian square of the range,
/// retaining only pairs with `input_scale <= param_scale`, crossed with the
/// rebase multipliers, in deterministic enumeration order.
pub fn build_trial_grid(scales: &Vec<u32>, rebase: &Vec<u32>) -> (r: Vec<Trial>)
    requires
        scales@.len() <= 1024,
        rebase@.len() <= 1024,
    ensures
        r@ == spec_trial_grid(scales@, rebase@),
        forall|k: int| 0 <= k < r@.len() ==> #[trigger] r@[k].input_scale <= r@[k].param_scale,
{
    proof {
        assert(scales@.len() * scales@.len() <= 1024 * 1024) by (nonlinear_arith)
            requires
                scales@.len() <= 1024,
        ;
    }
    let pairs = cartesian_product_copy(scales, scales);
    proof {
        lemma_filter_le_pairs_len(pairs@);
    }

    let mut filtered: Vec<(u32, u32)> = Vec::new();
    let mut i: usize = 0;
    while i < pairs.len()
        invariant
            i <= pairs@.len(),
            filtered@ == filter_le_pairs(pairs@.take(i as int)),
            filtered@.len() <= i,
        decreases pairs@.len() - i,
    {
        proof {
            assert(pairs@.take(i + 1).drop_last() =~= pairs@.take(i as int));
            assert(pairs@.take(i + 1).last() == pairs@[i as int]);
        }
        let p = pairs[i];
        if p.0 <= p.1 {
            filtered.push(p);
        }
        i = i + 1;
    }
    proof {
        assert(pairs@.take(pairs@.len() as int) =~= pairs@);
        assert(filtered@ == valid_pairs(scales@));
    }

    proof {
        assert(filtered@.len() * rebase@.len() <= 1024 * 1024 * 1024) by (nonlinear_arith)
            requires
                filtered@.len() <= 1024 * 1024,
                rebase@.len() <= 1024,
        ;
    }
    let crossed = cartesian_product_copy(&filtered, rebase);

    let mut r: Vec<Trial> = Vec::new();
    let mut i: usize = 0;
    while i < crossed.len()
        invariant
            i <= crossed@.len(),
            r@.len() == i,
            forall|k: int|
                0 <= k < i ==> #[trigger] r@[k] == (Trial {
                    input_scale: crossed@[k].0.0,
                    param_scale: crossed@[k].0.1,
                    scale_rebase_multiplier: crossed@[k].1,
                }),
        decreases crossed@.len() - i,
    {
        let c = crossed[i];
        r.push(
            Trial {
                input_scale: c.0.0,
                param_scale: c.0.1,
                scale_rebase_multiplier: c.1,
            },
        );
        i = i + 1;
    }
    proof {
        assert(r@ =~= spec_trial_grid(scales@, rebase@));
        assert forall|k: int| 0 <= k < r@.len() implies #[trigger] r@[k].input_scale <= r@[
            k
        ].param_scale by {
            lemma_trial_grid_filter_invariant(scales@, rebase@, k);
        }
    }
    r
}

} // verus!
