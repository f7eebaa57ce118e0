//! Case classification: an ordered rule set maps each generated input to its
//! expected outcome, a failure category or success.

use vstd::prelude::*;

verus! {

/// The closed catalog of failure categories a case can be labelled with,
/// mirroring the panic classes of the contract runtime. The classifier
/// treats them as opaque, comparable tags; their wire encoding is the
/// harness's concern.
#[derive(Clone, Copy, Debug, PartialEq, Eq, Structural)]
pub enum FailureCategory {
    Assertion,
    Arithmetic,
    Division,
    EnumConversion,
    EncodeStorage,
    Pop,
    IndexOutOfBounds,
    MemoryOverflow,
    ZeroInitializedVariable,
}

/// The `Panic(uint256)` argument that identifies each failure category.
pub open spec fn panic_code_spec(c: FailureCategory) -> u8 {
    match c {
        FailureCategory::Assertion => 0x01,
        FailureCategory::Arithmetic => 0x11,
        FailureCategory::Division => 0x12,
        FailureCategory::EnumConversion => 0x21,
        FailureCategory::EncodeStorage => 0x22,
        FailureCategory::Pop => 0x31,
        FailureCategory::IndexOutOfBounds => 0x32,
        FailureCategory::MemoryOverflow => 0x41,
        FailureCategory::ZeroInitializedVariable => 0x51,
    }
}

impl FailureCategory {
    /// The `Panic(uint256)` argument that identifies this category; encoding
    /// it into an error signature is left to the harness.
    pub fn panic_code(&self) -> (code: u8)
        ensures
            code == panic_code_spec(*self),
    {
        match self {
            FailureCategory::Assertion => 0x01,
            FailureCategory::Arithmetic => 0x11,
            FailureCategory::Division => 0x12,
            FailureCategory::EnumConversion => 0x21,
            FailureCategory::EncodeStorage => 0x22,
            FailureCategory::Pop => 0x31,
            FailureCategory::IndexOutOfBounds => 0x32,
            FailureCategory::MemoryOverflow => 0x41,
            FailureCategory::ZeroInitializedVariable => 0x51,
        }
    }
}

/// Categories are distinguishable: distinct categories carry distinct panic
/// codes, so no two of them collapse on the wire.
pub proof fn lemma_panic_code_distinct(a: FailureCategory, b: FailureCategory)
    requires
        a != b,
    ensures
        panic_code_spec(a) != panic_code_spec(b),
{
}

/// The number of semantic fields of one test input.
pub const ARITY: usize = 6;

/// One test input for the release-position-tokens scenario, built
/// positionally from a generated tuple.
#[derive(Clone, Copy, Debug, PartialEq, Eq, Structural)]
pub struct TestInputReleasePT {
    pub amount: u128,
    pub interest: u128,
    pub shares_per_expiry: u128,
    pub total_supply: u128,
    pub underlying: u128,
    pub user_balance: u128,
}

/// Positional assembly of a named record from a generated tuple. The field
/// order must match the tuple's generation order exactly.
pub open spec fn input_from_tuple(t: Seq<u128>) -> TestInputReleasePT {
    TestInputReleasePT {
        amount: t[0],
        interest: t[1],
        shares_per_expiry: t[2],
        total_supply: t[3],
        underlying: t[4],
        user_balance: t[5],
    }
}

/// One predicate that a classification rule tests on an input.
#[derive(Clone, Copy, Debug, PartialEq, Eq, Structural)]
pub enum Condition {
    UnderlyingIsZero,
    InterestWithoutShares,
    TotalSupplyIsZero,
    BalanceExceedsSupply,
}

/// What each condition means on an input.
pub open spec fn condition_holds(c: Condition, input: TestInputReleasePT) -> bool {
    match c {
        Condition::UnderlyingIsZero => input.underlying == 0,
        Condition::InterestWithoutShares => input.interest != 0 && input.shares_per_expiry == 0,
        Condition::TotalSupplyIsZero => input.total_supply == 0,
        Condition::BalanceExceedsSupply => input.user_balance > input.total_supply,
    }
}

impl Condition {
    /// Whether this condition holds of `input`.
    pub fn holds(&self, input: &TestInputReleasePT) -> (r: bool)
        ensures
            r == condition_holds(*self, *input),
    {
        match self {
            Condition::UnderlyingIsZero => input.underlying == 0,
            Condition::InterestWithoutShares => input.interest != 0 && input.shares_per_expiry
                == 0,
            Condition::TotalSupplyIsZero => input.total_supply == 0,
            Condition::BalanceExceedsSupply => input.user_balance > input.total_supply,
        }
    }
}

/// An ordered classification rule: when its condition is the first to hold,
/// its category is the expected outcome.
#[derive(Clone, Copy, Debug, PartialEq, Eq, Structural)]
pub struct Rule {
    pub condition: Condition,
    pub outcome: FailureCategory,
}

/// First-match classification of `input` against `rules`: `Some` of the
/// first matching rule's category, in rule order, or `None` (success) when
/// no rule matches.
pub open spec fn classify_spec(rules: Seq<Rule>, input: TestInputReleasePT) -> Option<
    FailureCategory,
>
    decreases rules.len(),
{
    if rules.len() == 0 {
        None
    } else if condition_holds(rules.first().condition, input) {
        Some(rules.first().outcome)
    } else {
        classify_spec(rules.drop_first(), input)
    }
}

/// Evaluates the ordered `rules` against `input` and returns the outcome of
/// the first matching rule, or `None` (success) when none matches.
pub fn classify(rules: &Vec<Rule>, input: &TestInputReleasePT) -> (outcome: Option<
    FailureCategory,
>)
    ensures
        outcome == classify_spec(rules@, *input),
{
    let mut i: usize = 0;
    proof {
        assert(rules@.skip(0) =~= rules@);
    }
    while i < rules.len()
        invariant
            i <= rules@.len(),
            classify_spec(rules@, *input) == classify_spec(rules@.skip(i as int), *input),
        decreases rules@.len() - i,
    {
        let rule = rules[i];
        proof {
            assert(rules@.skip(i as int).first() == rules@[i as int]);
        }
        if rule.condition.holds(input) {
            return Some(rule.outcome);
        }
        proof {
            assert(rules@.skip(i as int).drop_first() =~= rules@.skip(i as int + 1));
        }
        i = i + 1;
    }
    None
}

/// Rule short-circuit: when rule `i` matches and every earlier rule does
/// not, the classification is exactly rule `i`'s outcome, whatever later
/// rules would say.
pub proof fn lemma_rule_short_circuit(rules: Seq<Rule>, input: TestInputReleasePT, i: int)
    requires
        0 <= i < rules.len(),
        condition_holds(rules[i].condition, input),
        forall|h: int| 0 <= h < i ==> !condition_holds(rules[h].condition, input),
    ensures
        classify_spec(rules, input) == Some(rules[i].outcome),
    decreases i,
{
    if i > 0 {
        assert(rules.drop_first()[i - 1] == rules[i]);
        assert forall|h: int| 0 <= h < i - 1 implies !condition_holds(
            #[trigger] rules.drop_first()[h].condition,
            input,
        ) by {
            assert(rules.drop_first()[h] == rules[h + 1]);
        }
        lemma_rule_short_circuit(rules.drop_first(), input, i - 1);
    }
}

/// Exhaustive by default: when no rule matches, the classification is the
/// success marker.
pub proof fn lemma_no_match_success(rules: Seq<Rule>, input: TestInputReleasePT)
    requires
        forall|h: int| 0 <= h < rules.len() ==> !condition_holds(
            #[trigger] rules[h].condition,
            input,
        ),
    ensures
        classify_spec(rules, input) is None,
    decreases rules.len(),
{
    if rules.len() > 0 {
        assert forall|h: int| 0 <= h < rules.len() - 1 implies !condition_holds(
            #[trigger] rules.drop_first()[h].condition,
            input,
        ) by {
            assert(rules.drop_first()[h] == rules[h + 1]);
        }
        lemma_no_match_success(rules.drop_first(), input);
    }
}

/// The ordered rule set for the release-position-tokens scenario, encoding
/// the contract's runtime precondition checks.
pub open spec fn release_pt_rules_spec() -> Seq<Rule> {
    seq![
        Rule { condition: Condition::UnderlyingIsZero, outcome: FailureCategory::Division },
        Rule {
            condition: Condition::InterestWithoutShares,
            outcome: FailureCategory::Arithmetic,
        },
        Rule { condition: Condition::TotalSupplyIsZero, outcome: FailureCategory::Division },
        Rule {
            condition: Condition::BalanceExceedsSupply,
            outcome: FailureCategory::Arithmetic,
        },
    ]
}

/// Builds the ordered rule set for the release-position-tokens scenario.
pub fn release_pt_rules() -> (rules: Vec<Rule>)
    ensures
        rules@ == release_pt_rules_spec(),
{
    let mut rules: Vec<Rule> = Vec::new();
    rules.push(Rule { condition: Condition::UnderlyingIsZero, outcome: FailureCategory::Division });
    rules.push(
        Rule { condition: Condition::InterestWithoutShares, outcome: FailureCategory::Arithmetic },
    );
    rules.push(Rule { condition: Condition::TotalSupplyIsZero, outcome: FailureCategory::Division });
    rules.push(
        Rule { condition: Condition::BalanceExceedsSupply, outcome: FailureCategory::Arithmetic },
    );
    proof {
        assert(rules@ =~= release_pt_rules_spec());
    }
    rules
}

/// The expected outcome for `input` under the release-position-tokens rules,
/// stated directly: the ordered checks of the contract's validation logic,
/// first match wins, success when none fires.
pub open spec fn error_code_spec(input: TestInputReleasePT) -> Option<FailureCategory> {
    if input.underlying == 0 {
        Some(FailureCategory::Division)
    } else if input.interest != 0 && input.shares_per_expiry == 0 {
        Some(FailureCategory::Arithmetic)
    } else if input.total_supply == 0 {
        Some(FailureCategory::Division)
    } else if input.user_balance > input.total_supply {
        Some(FailureCategory::Arithmetic)
    } else {
        None
    }
}

/// The fixed rule set agrees with the direct statement of the contract's
/// ordered checks.
pub proof fn lemma_release_pt_rules_exact(input: TestInputReleasePT)
    ensures
        classify_spec(release_pt_rules_spec(), input) == error_code_spec(input),
{
    reveal_with_fuel(classify_spec, 5);
    let rules = release_pt_rules_spec();
    assert(rules.drop_first().drop_first().drop_first().drop_first().len() == 0);
}

/// Default success: when none of the four release-position-tokens checks
/// fires, the expected outcome is success.
pub proof fn lemma_default_success(input: TestInputReleasePT)
    requires
        input.underlying != 0,
        input.total_supply != 0,
        input.user_balance <= input.total_supply,
        input.interest == 0 || input.shares_per_expiry != 0,
    ensures
        error_code_spec(input) is None,
        classify_spec(release_pt_rules_spec(), input) is None,
{
    lemma_release_pt_rules_exact(input);
}

/// Of the whole catalog, the release-position-tokens rule set reaches
/// exactly two failure categories: every input classifies as success, a
/// division failure, or an arithmetic failure.
pub proof fn lemma_reachable_categories(input: TestInputReleasePT)
    ensures
        error_code_spec(input) is None || error_code_spec(input) == Some(
            FailureCategory::Division,
        ) || error_code_spec(input) == Some(FailureCategory::Arithmetic),
{
}

/// A generated input paired with the failure it is expected to produce.
#[derive(Clone, Copy, Debug, PartialEq, Eq, Structural)]
pub struct FailureTestCaseReleasePT {
    pub expected_error: FailureCategory,
    pub input: TestInputReleasePT,
}

/// The failure pairing of an input: the input with its expected failure
/// category, or `None` when the input is a success case.
pub open spec fn failure_case_spec(input: TestInputReleasePT) -> Option<
    FailureTestCaseReleasePT,
> {
    match error_code_spec(input) {
        Some(category) => Some(
            (FailureTestCaseReleasePT { expected_error: category, input }),
        ),
        None => None,
    }
}

impl TestInputReleasePT {
    /// Positional constructor from a generated tuple of length [`ARITY`];
    /// the field order matches the tuple's generation order.
    pub fn from_tuple(t: &Vec<u128>) -> (input: TestInputReleasePT)
        requires
            t@.len() == ARITY,
        ensures
            input == input_from_tuple(t@),
    {
        TestInputReleasePT {
            amount: t[0],
            interest: t[1],
            shares_per_expiry: t[2],
            total_supply: t[3],
            underlying: t[4],
            user_balance: t[5],
        }
    }

    /// The expected outcome of this input under the release-position-tokens
    /// rule set: the first matching check's failure category, or `None` for
    /// a success case.
    pub fn error_code(&self) -> (outcome: Option<FailureCategory>)
        ensures
            outcome == error_code_spec(*self),
    {
        let rules = release_pt_rules();
        let outcome = classify(&rules, self);
        proof {
            lemma_release_pt_rules_exact(*self);
        }
        outcome
    }

    /// This input paired with its expected failure, or `None` when it is a
    /// success case.
    pub fn failure_case(&self) -> (case: Option<FailureTestCaseReleasePT>)
        ensures
            case == failure_case_spec(*self),
    {
        match self.error_code() {
            Some(category) => Some(
                FailureTestCaseReleasePT { expected_error: category, input: *self },
            ),
            None => None,
        }
    }
}

} // verus!
