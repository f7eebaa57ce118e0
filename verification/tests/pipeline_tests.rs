use combin_gen::{
    classified_cases, failure_cases, release_pt_boundary_values, release_pt_rules,
    FailureCategory, SCALE_UNIT,
};

#[test]
fn boundary_values_of_the_observed_configuration() {
    let vals = release_pt_boundary_values();
    assert_eq!(vals, vec![0, SCALE_UNIT]);
}

#[test]
fn classified_matrix_has_one_case_per_tuple() {
    let vals = release_pt_boundary_values();
    let rules = release_pt_rules();
    let cases = classified_cases(&vals, &rules);
    assert_eq!(cases.len(), 64);
}

#[test]
fn classified_matrix_three_values() {
    let vals: Vec<u128> = vec![0, SCALE_UNIT, 2 * SCALE_UNIT];
    let rules = release_pt_rules();
    let cases = classified_cases(&vals, &rules);
    assert_eq!(cases.len(), 729);
}

#[test]
fn first_case_is_the_all_zero_division_failure() {
    let vals = release_pt_boundary_values();
    let rules = release_pt_rules();
    let cases = classified_cases(&vals, &rules);
    let first = &cases[0];
    assert_eq!(first.input.amount, 0);
    assert_eq!(first.input.underlying, 0);
    assert_eq!(first.outcome, Some(FailureCategory::Division));
}

#[test]
fn last_case_is_the_all_unit_success() {
    let vals = release_pt_boundary_values();
    let rules = release_pt_rules();
    let cases = classified_cases(&vals, &rules);
    let last = &cases[63];
    assert_eq!(last.input.amount, SCALE_UNIT);
    assert_eq!(last.input.interest, SCALE_UNIT);
    assert_eq!(last.input.shares_per_expiry, SCALE_UNIT);
    assert_eq!(last.input.total_supply, SCALE_UNIT);
    assert_eq!(last.input.underlying, SCALE_UNIT);
    assert_eq!(last.input.user_balance, SCALE_UNIT);
    assert_eq!(last.outcome, None);
}

#[test]
fn position_of_the_arithmetic_case() {
    // The tuple (1, 1, 0, 1, 1, 0) in units stands at index 0b110110 = 54:
    // position 0 varies slowest, the last position fastest.
    let vals = release_pt_boundary_values();
    let rules = release_pt_rules();
    let cases = classified_cases(&vals, &rules);
    let case = &cases[54];
    assert_eq!(case.input.amount, SCALE_UNIT);
    assert_eq!(case.input.interest, SCALE_UNIT);
    assert_eq!(case.input.shares_per_expiry, 0);
    assert_eq!(case.input.total_supply, SCALE_UNIT);
    assert_eq!(case.input.underlying, SCALE_UNIT);
    assert_eq!(case.input.user_balance, 0);
    assert_eq!(case.outcome, Some(FailureCategory::Arithmetic));
}

#[test]
fn success_cases_are_counted_exactly() {
    // Success needs underlying and total supply at one unit, user balance at
    // most the supply (any of the two values), interest zero or shares
    // nonzero (three of four pairs), and any amount: 2 * 3 * 1 * 1 * 2 = 12.
    let vals = release_pt_boundary_values();
    let rules = release_pt_rules();
    let cases = classified_cases(&vals, &rules);
    let successes = cases.iter().filter(|c| c.outcome.is_none()).count();
    assert_eq!(successes, 12);
}

#[test]
fn failure_matrix_drops_exactly_the_successes() {
    let vals = release_pt_boundary_values();
    let cases = failure_cases(&vals);
    assert_eq!(cases.len(), 52);
    for case in &cases {
        assert_eq!(case.input.error_code(), Some(case.expected_error));
    }
}

#[test]
fn failure_matrix_keeps_generation_order() {
    let vals = release_pt_boundary_values();
    let rules = release_pt_rules();
    let all = classified_cases(&vals, &rules);
    let failures = failure_cases(&vals);
    let mut next: usize = 0;
    for case in &all {
        if let Some(category) = case.outcome {
            assert_eq!(failures[next].input, case.input);
            assert_eq!(failures[next].expected_error, category);
            next += 1;
        }
    }
    assert_eq!(next, failures.len());
}
