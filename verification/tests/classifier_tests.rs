use combin_gen::{
    classify, release_pt_rules, Condition, FailureCategory, Rule, TestInputReleasePT, SCALE_UNIT,
};

fn input_of(tuple: [u128; 6]) -> TestInputReleasePT {
    let vec: Vec<u128> = tuple.to_vec();
    TestInputReleasePT::from_tuple(&vec)
}

#[test]
fn from_tuple_field_order() {
    let input = input_of([1, 2, 3, 4, 5, 6]);
    assert_eq!(input.amount, 1);
    assert_eq!(input.interest, 2);
    assert_eq!(input.shares_per_expiry, 3);
    assert_eq!(input.total_supply, 4);
    assert_eq!(input.underlying, 5);
    assert_eq!(input.user_balance, 6);
}

#[test]
fn all_zero_tuple_is_division_failure() {
    let input = input_of([0, 0, 0, 0, 0, 0]);
    assert_eq!(input.error_code(), Some(FailureCategory::Division));
}

#[test]
fn all_unit_tuple_is_success() {
    let unit = SCALE_UNIT;
    let input = input_of([unit, unit, unit, unit, unit, unit]);
    assert_eq!(input.error_code(), None);
    assert!(input.failure_case().is_none());
}

#[test]
fn interest_without_shares_is_arithmetic_failure() {
    let unit = SCALE_UNIT;
    let input = input_of([unit, unit, 0, unit, unit, 0]);
    assert_eq!(input.error_code(), Some(FailureCategory::Arithmetic));
}

#[test]
fn zero_total_supply_is_division_failure() {
    let unit = SCALE_UNIT;
    let input = input_of([unit, 0, unit, 0, unit, 0]);
    assert_eq!(input.error_code(), Some(FailureCategory::Division));
}

#[test]
fn balance_above_supply_is_arithmetic_failure() {
    let unit = SCALE_UNIT;
    let input = input_of([0, 0, unit, unit, unit, 2 * unit]);
    assert_eq!(input.error_code(), Some(FailureCategory::Arithmetic));
}

#[test]
fn first_matching_rule_wins() {
    // Underlying and total supply are both zero: rules 1 and 3 both match,
    // and the first one must decide.
    let input = input_of([0, 0, 0, 0, 0, 0]);
    let rules = vec![
        Rule {
            condition: Condition::UnderlyingIsZero,
            outcome: FailureCategory::Division,
        },
        Rule {
            condition: Condition::TotalSupplyIsZero,
            outcome: FailureCategory::Assertion,
        },
    ];
    assert_eq!(classify(&rules, &input), Some(FailureCategory::Division));
}

#[test]
fn no_rules_means_success() {
    let input = input_of([0, 0, 0, 0, 0, 0]);
    let rules: Vec<Rule> = Vec::new();
    assert_eq!(classify(&rules, &input), None);
}

#[test]
fn classify_with_default_rules_matches_error_code() {
    let unit = SCALE_UNIT;
    let rules = release_pt_rules();
    for tuple in [
        [0, 0, 0, 0, 0, 0],
        [unit, unit, unit, unit, unit, unit],
        [unit, unit, 0, unit, unit, 0],
        [unit, 0, unit, 0, unit, 0],
        [0, 0, unit, unit, unit, 2 * unit],
    ] {
        let input = input_of(tuple);
        assert_eq!(classify(&rules, &input), input.error_code());
    }
}

#[test]
fn failure_case_keeps_its_input() {
    let input = input_of([0, 0, 0, 0, 0, 0]);
    let case = input.failure_case().unwrap();
    assert_eq!(case.expected_error, FailureCategory::Division);
    assert_eq!(case.input, input);
}

#[test]
fn panic_codes_of_reachable_categories() {
    assert_eq!(FailureCategory::Arithmetic.panic_code(), 0x11);
    assert_eq!(FailureCategory::Division.panic_code(), 0x12);
}

#[test]
fn panic_codes_are_distinct() {
    let categories = [
        FailureCategory::Assertion,
        FailureCategory::Arithmetic,
        FailureCategory::Division,
        FailureCategory::EnumConversion,
        FailureCategory::EncodeStorage,
        FailureCategory::Pop,
        FailureCategory::IndexOutOfBounds,
        FailureCategory::MemoryOverflow,
        FailureCategory::ZeroInitializedVariable,
    ];
    for i in 0..categories.len() {
        for j in (i + 1)..categories.len() {
            assert_ne!(categories[i].panic_code(), categories[j].panic_code());
        }
    }
}
