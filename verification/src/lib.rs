//! A mutation-testing execution engine: given a catalog of numbered
//! mutations and a compiled, mutation-aware test binary, it classifies each
//! mutation as caught (a test failed or the binary hung) or survived (every
//! test passed, so the suite missed the behavioural change).
//!
//! The engine itself never touches a process or a file: it parses the
//! catalog, decides which mutation to execute next and over which tests, and
//! turns execution outcomes into verdicts and counts. The caller performs
//! the executions and feeds the outcomes back.

mod cargo_meta;
mod catalog;
mod coverage;
mod engine;
mod outcome;

pub use cargo_meta::MetadataError;
pub use cargo_meta::executables_found;
pub use cargo_meta::keep_artifact_file;
pub use cargo_meta::mutations_file_path;
pub use cargo_meta::mutations_path_from_metadata;
pub use cargo_meta::test_binaries_from_output;
pub use catalog::Mutation;
pub use catalog::ParseError;
pub use catalog::parse_catalog;
pub use catalog::parse_count;
pub use catalog::split_nonempty;
pub use catalog::split_nonempty_lines;
pub use coverage::CoverageMap;
pub use coverage::MutationPlan;
pub use coverage::TestScope;
pub use coverage::TimeoutMemory;
pub use coverage::hang_known;
pub use coverage::parse_coverage;
pub use coverage::plan_mutation;
pub use coverage::plan_scope;
pub use engine::Engine;
pub use engine::MutationScore;
pub use engine::Phase;
pub use engine::tally;
pub use outcome::RunOutcome;
pub use outcome::classify_wait;
pub use outcome::Verdict;
pub use outcome::verdict_of;
