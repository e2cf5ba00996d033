use ezkl::calibration::{
    build_trial_grid, calibrate_select, default_scale_range, rebase_multipliers, recompute_logrows,
    select_accuracy, select_best_batch, select_resources, BatchOutcome, CalibrationError,
};
use ezkl::settings::{CalibrationTarget, CircuitSettings, LookupRange, Trial};

fn base_settings() -> CircuitSettings {
    CircuitSettings {
        input_scale: 7,
        param_scale: 7,
        scale_rebase_multiplier: 1,
        logrows: 17,
        lookup_range: LookupRange { lo: -32768, hi: 32768 },
        required_lookups: vec![3, 5],
        model_input_scales: vec![7],
        model_output_scales: vec![7],
        num_constraints: 1000,
        total_const_size: 200,
        model_instance_shapes: vec![vec![1, 10]],
    }
}

fn candidate(
    input_scale: u32,
    param_scale: u32,
    rebase: u32,
    logrows: u32,
    lo: i64,
    hi: i64,
    num_constraints: u64,
) -> CircuitSettings {
    let mut s = base_settings();
    s.input_scale = input_scale;
    s.param_scale = param_scale;
    s.scale_rebase_multiplier = rebase;
    s.logrows = logrows;
    s.lookup_range = LookupRange { lo, hi };
    s.num_constraints = num_constraints;
    s
}

#[test]
fn trial_grid_for_two_scales() {
    let scales: Vec<u32> = vec![2, 3];
    let rebase = rebase_multipliers();
    let grid = build_trial_grid(&scales, &rebase);
    // pairs (2,2),(2,3),(3,3) survive the filter; (3,2) does not; each is
    // crossed with the three rebase multipliers in order
    let expected: Vec<(u32, u32, u32)> = vec![
        (2, 2, 1),
        (2, 2, 2),
        (2, 2, 10),
        (2, 3, 1),
        (2, 3, 2),
        (2, 3, 10),
        (3, 3, 1),
        (3, 3, 2),
        (3, 3, 10),
    ];
    assert_eq!(grid.len(), expected.len());
    for (t, e) in grid.iter().zip(expected.iter()) {
        assert_eq!(
            (t.input_scale, t.param_scale, t.scale_rebase_multiplier),
            *e
        );
    }
}

#[test]
fn every_emitted_trial_respects_the_scale_filter() {
    let scales: Vec<u32> = vec![5, 2, 9, 4];
    let rebase = rebase_multipliers();
    let grid = build_trial_grid(&scales, &rebase);
    // 16 pairs, 10 with input <= param, times 3 rebase multipliers
    assert_eq!(grid.len(), 30);
    for t in &grid {
        assert!(t.input_scale <= t.param_scale);
    }
}

#[test]
fn default_scale_ranges_per_target() {
    assert_eq!(
        default_scale_range(CalibrationTarget::Resources {
            col_overflow: false
        }),
        vec![2, 3, 4, 5, 6, 7]
    );
    assert_eq!(
        default_scale_range(CalibrationTarget::Accuracy),
        vec![8, 9, 10, 11, 12, 13]
    );
}

#[test]
fn best_batch_merges_the_lookup_range() {
    let batches = vec![
        candidate(2, 3, 1, 12, -10, 50, 500),
        candidate(2, 3, 1, 14, -128, 20, 700),
        candidate(2, 3, 1, 13, -5, 127, 600),
    ];
    let best = select_best_batch(&batches).unwrap();
    // the second batch wins on (logrows, input_scale, param_scale) ...
    assert_eq!(best.logrows, 14);
    assert_eq!(best.num_constraints, 700);
    // ... and carries the merged range over all three batches
    assert_eq!(best.lookup_range, LookupRange { lo: -128, hi: 127 });
}

#[test]
fn best_batch_of_no_survivors_is_none() {
    let batches: Vec<CircuitSettings> = vec![];
    assert!(select_best_batch(&batches).is_none());
}

#[test]
fn resources_selection_prefers_small_circuits_then_precision() {
    let cands = vec![
        candidate(3, 3, 10, 12, -8, 8, 900),
        candidate(2, 2, 1, 11, -8, 8, 500),
        candidate(2, 3, 2, 11, -8, 8, 600),
        candidate(4, 5, 1, 13, -8, 8, 1200),
    ];
    let w = select_resources(&cands);
    // minimal logrows is 11; among those, (2,3,2) beats (2,2,1)
    assert_eq!(w.logrows, 11);
    assert_eq!(
        (w.input_scale, w.param_scale, w.scale_rebase_multiplier),
        (2, 3, 2)
    );
}

#[test]
fn accuracy_selection_prefers_precision_then_small_circuits() {
    let cands = vec![
        candidate(3, 3, 10, 15, -8, 8, 900),
        candidate(3, 3, 10, 13, -8, 8, 800),
        candidate(2, 3, 10, 11, -8, 8, 500),
        candidate(3, 3, 2, 12, -8, 8, 700),
    ];
    let w = select_accuracy(&cands);
    // maximal key is (3,3,10); among its holders the smaller circuit wins
    assert_eq!(
        (w.input_scale, w.param_scale, w.scale_rebase_multiplier),
        (3, 3, 10)
    );
    assert_eq!(w.logrows, 13);
}

#[test]
fn accuracy_scenario_with_tied_keys() {
    // the (3,3,10) trials win on the precision key, and of the two
    // exact-tie candidates the one with smaller logrows is selected
    let trial_results = vec![
        vec![BatchOutcome::Calibrated(candidate(2, 2, 10, 12, -8, 8, 400))],
        vec![BatchOutcome::Calibrated(candidate(2, 3, 10, 12, -8, 8, 500))],
        vec![BatchOutcome::Calibrated(candidate(3, 3, 10, 14, -8, 8, 900))],
        vec![BatchOutcome::Calibrated(candidate(3, 3, 10, 12, -8, 8, 800))],
    ];
    let w = calibrate_select(&trial_results, CalibrationTarget::Accuracy).unwrap();
    assert_eq!(
        (w.input_scale, w.param_scale, w.scale_rebase_multiplier),
        (3, 3, 10)
    );
    assert_eq!(w.logrows, 12);
}

#[test]
fn failed_batches_are_tolerated() {
    let trial_results = vec![
        vec![BatchOutcome::Failed, BatchOutcome::Failed],
        vec![
            BatchOutcome::Failed,
            BatchOutcome::Calibrated(candidate(2, 2, 1, 11, -4, 4, 300)),
        ],
    ];
    let w = calibrate_select(
        &trial_results,
        CalibrationTarget::Resources {
            col_overflow: false,
        },
    )
    .unwrap();
    assert_eq!(w.logrows, 11);
    assert_eq!(w.num_constraints, 300);
}

#[test]
fn calibration_with_no_surviving_trial_is_infeasible() {
    let trial_results = vec![
        vec![BatchOutcome::Failed],
        vec![BatchOutcome::Failed, BatchOutcome::Failed],
    ];
    let r = calibrate_select(&trial_results, CalibrationTarget::Accuracy);
    assert_eq!(r, Err(CalibrationError::Infeasible));
    assert_eq!(
        CalibrationError::Infeasible.describe(),
        "calibration failed, could not find any suitable parameters given the calibration dataset"
    );
}

#[test]
fn col_overflow_recomputes_logrows() {
    // merged lookup range (-128, 127) needs ceil(log2(255)) + 1 = 9 bits;
    // an instance-shape product sum of 4096 needs ceil(log2(4096)) + 1 = 13
    let mut s = candidate(2, 2, 1, 17, -128, 127, 300);
    s.model_instance_shapes = vec![vec![4096]];
    assert_eq!(recompute_logrows(&s), 13);

    let trial_results = vec![vec![BatchOutcome::Calibrated(s)]];
    let w = calibrate_select(
        &trial_results,
        CalibrationTarget::Resources { col_overflow: true },
    )
    .unwrap();
    assert_eq!(w.logrows, 13);
}

#[test]
fn recompute_never_goes_below_the_floor() {
    // a tiny circuit still gets MIN_LOGROWS rows
    let mut s = candidate(2, 2, 1, 17, 0, 1, 10);
    s.model_instance_shapes = vec![vec![1]];
    assert_eq!(recompute_logrows(&s), ezkl::settings::MIN_LOGROWS);
}

#[test]
fn resources_selection_does_not_regress_constraints() {
    // over a scale-monotone candidate pool, the winner dominates the other
    // minimal-logrows candidate and carries at least its constraint count
    let a = candidate(3, 3, 1, 11, -8, 8, 900);
    let b = candidate(2, 2, 1, 11, -8, 8, 500);
    let cands = vec![a, b.clone()];
    let w = select_resources(&cands);
    assert!(w.input_scale >= b.input_scale && w.param_scale >= b.param_scale);
    assert!(w.num_constraints >= b.num_constraints);
}

#[test]
fn merge_calibrated_splices_found_values_into_the_template() {
    let base = base_settings();
    let mut found = candidate(4, 6, 2, 13, -99, 99, 450);
    found.model_instance_shapes = vec![vec![2, 2]];
    found.required_lookups = vec![9];
    let merged = ezkl::settings::merge_calibrated(&base, &found);
    assert_eq!(merged.input_scale, 4);
    assert_eq!(merged.param_scale, 6);
    assert_eq!(merged.scale_rebase_multiplier, 2);
    assert_eq!(merged.logrows, 13);
    assert_eq!(merged.lookup_range, LookupRange { lo: -99, hi: 99 });
    assert_eq!(merged.required_lookups, vec![9]);
    assert_eq!(merged.num_constraints, 450);
    // the interface description stays the template's
    assert_eq!(merged.model_instance_shapes, base.model_instance_shapes);
}

#[test]
fn trial_fields_are_plain() {
    let t = Trial {
        input_scale: 2,
        param_scale: 3,
        scale_rebase_multiplier: 10,
    };
    assert_eq!(t, t);
}

#[test]
fn empty_scale_range_gives_no_trials() {
    let scales: Vec<u32> = vec![];
    let grid = build_trial_grid(&scales, &rebase_multipliers());
    assert!(grid.is_empty());
}

#[test]
fn single_batch_keeps_its_own_range() {
    let batches = vec![candidate(2, 2, 1, 11, -7, 9, 100)];
    let best = select_best_batch(&batches).unwrap();
    assert_eq!(best.lookup_range, LookupRange { lo: -7, hi: 9 });
    assert_eq!(best.logrows, 11);
}

#[test]
fn resources_tie_on_full_key_takes_the_later_candidate() {
    let mut a = candidate(2, 3, 2, 11, -8, 8, 500);
    a.total_const_size = 1;
    let mut b = candidate(2, 3, 2, 11, -8, 8, 500);
    b.total_const_size = 2;
    let w = select_resources(&vec![a, b.clone()]);
    assert_eq!(w.total_const_size, b.total_const_size);
}

#[test]
fn accuracy_tie_on_key_and_logrows_takes_the_earlier_candidate() {
    let mut a = candidate(3, 3, 10, 12, -8, 8, 500);
    a.total_const_size = 1;
    let mut b = candidate(3, 3, 10, 12, -8, 8, 500);
    b.total_const_size = 2;
    let w = select_accuracy(&vec![a.clone(), b]);
    assert_eq!(w.total_const_size, a.total_const_size);
}
