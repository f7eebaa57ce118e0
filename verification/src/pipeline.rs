//! The composed pipeline: generate the boundary-value matrix, assemble each
//! tuple into a named input, classify it, and collect the labelled cases.

use crate::classifier::{
    classify, classify_spec, failure_case_spec, input_from_tuple, FailureCategory,
    FailureTestCaseReleasePT, Rule, TestInputReleasePT, ARITY,
};
use crate::generator::{combinations, count, lemma_cardinality, lemma_tuples_membership, tuples};
use vstd::prelude::*;

verus! {

/// One scaled token unit: the non-zero boundary value of the observed
/// configuration.
pub const SCALE_UNIT: u128 = 1_000_000_000_000_000_000;

/// The boundary set of the observed configuration: zero and one scaled unit,
/// in that order.
pub open spec fn release_pt_boundary_spec() -> Seq<u128> {
    seq![0u128, SCALE_UNIT]
}

/// Builds the boundary set of the observed configuration.
pub fn release_pt_boundary_values() -> (vals: Vec<u128>)
    ensures
        vals@ == release_pt_boundary_spec(),
{
    let mut vals: Vec<u128> = Vec::new();
    vals.push(0);
    vals.push(SCALE_UNIT);
    proof {
        assert(vals@ =~= release_pt_boundary_spec());
    }
    vals
}

/// A generated input paired with its determined outcome: an expected failure
/// category, or `None`, the success marker.
#[derive(Clone, Copy, Debug, PartialEq, Eq, Structural)]
pub struct ClassifiedCase {
    pub input: TestInputReleasePT,
    pub outcome: Option<FailureCategory>,
}

/// The classified matrix over a tuple sequence: one case per tuple, in
/// generation order, labelled by first-match classification against `rules`.
pub open spec fn classified_cases_spec(ts: Seq<Seq<u128>>, rules: Seq<Rule>) -> Seq<
    ClassifiedCase,
>
    decreases ts.len(),
{
    if ts.len() == 0 {
        Seq::empty()
    } else {
        classified_cases_spec(ts.drop_last(), rules).push(
            (ClassifiedCase {
                input: input_from_tuple(ts.last()),
                outcome: classify_spec(rules, input_from_tuple(ts.last())),
            }),
        )
    }
}

/// The classified matrix has one case per generated tuple.
pub proof fn lemma_classified_cases_len(ts: Seq<Seq<u128>>, rules: Seq<Rule>)
    ensures
        classified_cases_spec(ts, rules).len() == ts.len(),
    decreases ts.len(),
{
    if ts.len() > 0 {
        lemma_classified_cases_len(ts.drop_last(), rules);
    }
}

/// The full classified test matrix for arity [`ARITY`] over the boundary set
/// `vals`: one case per generated tuple, in generation order, each labelled
/// with the outcome of the first rule of `rules` that matches it, or with
/// the success marker.
pub fn classified_cases(vals: &Vec<u128>, rules: &Vec<Rule>) -> (cases: Vec<ClassifiedCase>)
    requires
        1 <= vals@.len(),
    ensures
        cases@ == classified_cases_spec(tuples(ARITY as nat, vals@), rules@),
{
    let matrix = combinations(ARITY, vals);
    let ghost md = matrix.deep_view();
    proof {
        lemma_cardinality(ARITY as nat, vals@);
    }
    let mut cases: Vec<ClassifiedCase> = Vec::new();
    proof {
        assert(cases@ =~= classified_cases_spec(md.take(0), rules@));
    }
    let mut i: usize = 0;
    while i < matrix.len()
        invariant
            i <= matrix@.len(),
            md == matrix.deep_view(),
            md == tuples(ARITY as nat, vals@),
            md.len() == count(vals@.len(), ARITY as nat),
            1 <= vals@.len(),
            cases@ == classified_cases_spec(md.take(i as int), rules@),
        decreases matrix@.len() - i,
    {
        proof {
            assert(matrix@[i as int]@ =~= md[i as int]);
            lemma_tuples_membership(ARITY as nat, vals@, i as int);
        }
        let input = TestInputReleasePT::from_tuple(&matrix[i]);
        let outcome = classify(rules, &input);
        cases.push(ClassifiedCase { input, outcome });
        proof {
            assert(md.take(i as int + 1).drop_last() =~= md.take(i as int));
            assert(md.take(i as int + 1).last() == md[i as int]);
        }
        i = i + 1;
    }
    proof {
        assert(md.take(matrix@.len() as int) =~= md);
    }
    cases
}

/// The failure cases over a tuple sequence, in generation order: one entry
/// per tuple whose input classifies as an expected failure under the
/// release-position-tokens rules; success cases are left out.
pub open spec fn failure_cases_spec(ts: Seq<Seq<u128>>) -> Seq<FailureTestCaseReleasePT>
    decreases ts.len(),
{
    if ts.len() == 0 {
        Seq::empty()
    } else {
        let rest = failure_cases_spec(ts.drop_last());
        match failure_case_spec(input_from_tuple(ts.last())) {
            Some(case) => rest.push(case),
            None => rest,
        }
    }
}

/// The failure test matrix for the release-position-tokens scenario over the
/// boundary set `vals`: every generated input that classifies as a failure,
/// paired with its expected failure category, in generation order.
pub fn failure_cases(vals: &Vec<u128>) -> (cases: Vec<FailureTestCaseReleasePT>)
    requires
        1 <= vals@.len(),
    ensures
        cases@ == failure_cases_spec(tuples(ARITY as nat, vals@)),
{
    let matrix = combinations(ARITY, vals);
    let ghost md = matrix.deep_view();
    proof {
        lemma_cardinality(ARITY as nat, vals@);
    }
    let mut cases: Vec<FailureTestCaseReleasePT> = Vec::new();
    proof {
        assert(cases@ =~= failure_cases_spec(md.take(0)));
    }
    let mut i: usize = 0;
    while i < matrix.len()
        invariant
            i <= matrix@.len(),
            md == matrix.deep_view(),
            md == tuples(ARITY as nat, vals@),
            md.len() == count(vals@.len(), ARITY as nat),
            1 <= vals@.len(),
            cases@ == failure_cases_spec(md.take(i as int)),
        decreases matrix@.len() - i,
    {
        proof {
            assert(matrix@[i as int]@ =~= md[i as int]);
            lemma_tuples_membership(ARITY as nat, vals@, i as int);
        }
        let input = TestInputReleasePT::from_tuple(&matrix[i]);
        match input.failure_case() {
            Some(case) => cases.push(case),
            None => {},
        }
        proof {
            assert(md.take(i as int + 1).drop_last() =~= md.take(i as int));
            assert(md.take(i as int + 1).last() == md[i as int]);
        }
        i = i + 1;
    }
    proof {
        assert(md.take(matrix@.len() as int) =~= md);
    }
    cases
}

} // verus!
