//! Combinatorial test-input fixtures for the release-position-tokens
//! contract function: a generator that builds the full Cartesian product of
//! boundary values across a fixed number of fields, and a classifier that
//! labels each generated input with its expected outcome — a failure
//! category or success — by first-match evaluation of an ordered rule set.
//! Serialization and file output are the calling harness's concern.

mod classifier;
mod generator;
mod pipeline;

pub use classifier::classify;
pub use classifier::release_pt_rules;
pub use classifier::Condition;
pub use classifier::FailureCategory;
pub use classifier::FailureTestCaseReleasePT;
pub use classifier::Rule;
pub use classifier::TestInputReleasePT;
pub use classifier::ARITY;
pub use generator::combinations;
pub use pipeline::classified_cases;
pub use pipeline::failure_cases;
pub use pipeline::release_pt_boundary_values;
pub use pipeline::ClassifiedCase;
pub use pipeline::SCALE_UNIT;
