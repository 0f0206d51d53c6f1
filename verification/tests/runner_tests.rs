use mutagen_runner::CoverageMap;
use mutagen_runner::Engine;
use mutagen_runner::Mutation;
use mutagen_runner::MutationPlan;
use mutagen_runner::MutationScore;
use mutagen_runner::ParseError;
use mutagen_runner::Phase;
use mutagen_runner::RunOutcome;
use mutagen_runner::TestScope;
use mutagen_runner::TimeoutMemory;
use mutagen_runner::Verdict;
use mutagen_runner::classify_wait;
use mutagen_runner::hang_known;
use mutagen_runner::parse_catalog;
use mutagen_runner::parse_coverage;
use mutagen_runner::plan_mutation;
use mutagen_runner::plan_scope;
use mutagen_runner::split_nonempty_lines;
use mutagen_runner::tally;
use mutagen_runner::verdict_of;

#[test]
fn it_decodes_well_formed_mutations() {
    let mutation = "2 - add one to int constant @ src/lib.rs:27:21: 27:22";
    let mutation = Mutation::from(mutation).unwrap();

    assert_eq!(2, mutation.count);
    assert_eq!("add one to int constant", mutation.description);
    assert_eq!("src/lib.rs:27:21: 27:22", mutation.span);
}

#[test]
fn it_fails_to_decode_malformed_mutations() {
    let malformed_mutations = [
        "non-numeric count - description ok @ span ok",
        "no count separator",
        "1 - no span separator",
    ];

    for mm in malformed_mutations.iter() {
        let mutation = Mutation::from(mm);
        assert!(mutation.is_err());
    }
}

#[test]
fn it_names_the_offending_line_and_error() {
    match Mutation::from("no count separator") {
        Err(ParseError::CountSeparatorMissing { line }) => {
            assert_eq!("no count separator", line);
        }
        other => panic!("wrong result: {:?}", other.map(|m| m.count)),
    }
    match Mutation::from("1 - no span separator") {
        Err(ParseError::SpanSeparatorMissing { line }) => {
            assert_eq!("1 - no span separator", line);
        }
        other => panic!("wrong result: {:?}", other.map(|m| m.count)),
    }
    match Mutation::from("x - desc @ span") {
        Err(ParseError::InvalidCount { line }) => {
            assert_eq!("x - desc @ span", line);
        }
        other => panic!("wrong result: {:?}", other.map(|m| m.count)),
    }
}

#[test]
fn it_splits_at_the_first_separators() {
    let m = Mutation::from("3 - replace - with + @ a @ b").unwrap();
    assert_eq!(3, m.count);
    assert_eq!("replace - with +", m.description);
    assert_eq!("a @ b", m.span);
}

#[test]
fn it_accepts_a_leading_plus_like_the_standard_parser() {
    let m = Mutation::from("+7 - d @ s").unwrap();
    assert_eq!(7, m.count);
}

#[test]
fn it_rejects_ids_too_large_for_the_machine() {
    let r = Mutation::from("99999999999999999999999999999 - d @ s");
    assert!(matches!(r, Err(ParseError::InvalidCount { .. })));
}

#[test]
fn it_rejects_an_empty_id_field() {
    let r = Mutation::from(" - d @ s");
    assert!(matches!(r, Err(ParseError::InvalidCount { .. })));
}

#[test]
fn it_skips_blank_catalog_lines() {
    let lines = split_nonempty_lines("1 - a @ b\n\n2 - c @ d\n");
    assert_eq!(2, lines.len());
    assert_eq!("1 - a @ b", lines[0]);
    assert_eq!("2 - c @ d", lines[1]);
}

#[test]
fn it_parses_a_whole_catalog_in_order() {
    let ms = parse_catalog("1 - a @ b\n\n2 - c @ d\n").unwrap();
    assert_eq!(2, ms.len());
    assert_eq!(1, ms[0].count);
    assert_eq!("a", ms[0].description);
    assert_eq!("b", ms[0].span);
    assert_eq!(2, ms[1].count);
}

#[test]
fn it_stops_a_catalog_at_the_first_bad_line() {
    let r = parse_catalog("1 - a @ b\nbroken\n2 - c @ d\n");
    assert!(matches!(r, Err(ParseError::CountSeparatorMissing { .. })));
}

#[test]
fn outcomes_map_to_verdicts() {
    assert_eq!(Verdict::Survived, verdict_of(RunOutcome::Passed));
    assert_eq!(Verdict::Caught, verdict_of(RunOutcome::Failed));
    assert_eq!(Verdict::Caught, verdict_of(RunOutcome::TimedOut));
}

#[test]
fn a_failing_baseline_yields_no_verdicts() {
    let mut e = Engine::new(vec![1, 2]);
    assert_eq!(Some(0), e.pending());
    e.feed_baseline(RunOutcome::Failed);
    assert_eq!(Phase::BaselineFailed, e.phase);
    assert_eq!(None, e.pending());
    assert!(e.verdicts.is_empty());
}

#[test]
fn a_hanging_baseline_also_aborts() {
    let mut e = Engine::new(vec![1]);
    e.feed_baseline(RunOutcome::TimedOut);
    assert_eq!(Phase::BaselineFailed, e.phase);
    assert!(e.verdicts.is_empty());
}

#[test]
fn a_full_run_classifies_every_mutation() {
    let mut e = Engine::new(vec![1, 2, 3]);
    e.feed_baseline(RunOutcome::Passed);
    assert_eq!(Phase::Running, e.phase);
    assert_eq!(Some(1), e.pending());
    e.feed(RunOutcome::Passed);
    assert_eq!(Some(2), e.pending());
    e.feed(RunOutcome::Failed);
    assert_eq!(Some(3), e.pending());
    e.feed(RunOutcome::TimedOut);
    assert_eq!(Phase::Done, e.phase);
    assert_eq!(None, e.pending());
    assert_eq!(
        vec![Verdict::Survived, Verdict::Caught, Verdict::Caught],
        e.verdicts
    );
    let score = tally(&e.verdicts);
    assert_eq!(1, score.survived);
    assert_eq!(2, score.caught);
    assert_eq!(e.verdicts.len(), score.survived + score.caught);
    assert!(!score.is_ok());
}

#[test]
fn a_run_with_no_survivors_is_ok() {
    let mut e = Engine::new(vec![5]);
    e.feed_baseline(RunOutcome::Passed);
    e.feed(RunOutcome::Failed);
    let score = tally(&e.verdicts);
    assert!(score.is_ok());
    assert_eq!(1, score.caught);
}

#[test]
fn a_timed_out_mutation_counts_as_caught() {
    let mut e = Engine::new(vec![9]);
    e.feed_baseline(RunOutcome::Passed);
    e.feed(RunOutcome::TimedOut);
    assert_eq!(vec![Verdict::Caught], e.verdicts);
}

#[test]
fn score_streams_like_the_final_tally() {
    let mut s = MutationScore::new();
    s.record(Verdict::Caught);
    s.record(Verdict::Survived);
    s.record(Verdict::Caught);
    assert_eq!(1, s.survived);
    assert_eq!(2, s.caught);
}

#[test]
fn missing_coverage_data_runs_the_full_suite() {
    assert!(matches!(plan_scope(None, 1), TestScope::Full));
}

#[test]
fn unknown_and_empty_covering_sets_run_the_full_suite() {
    let mut cov = CoverageMap::new();
    cov.insert(1, vec!["t1".to_string(), "t2".to_string()]);
    cov.insert(3, vec![]);
    assert!(matches!(plan_scope(Some(&cov), 2), TestScope::Full));
    assert!(matches!(plan_scope(Some(&cov), 3), TestScope::Full));
}

#[test]
fn a_known_covering_set_restricts_the_run() {
    let mut cov = CoverageMap::new();
    cov.insert(1, vec!["t1".to_string(), "t2".to_string()]);
    match plan_scope(Some(&cov), 1) {
        TestScope::Subset(ts) => {
            assert_eq!(vec!["t1".to_string(), "t2".to_string()], ts);
        }
        TestScope::Full => panic!("expected a restricted scope"),
    }
}

#[test]
fn timeout_memory_remembers_exact_pairs() {
    let mut mem = TimeoutMemory::new();
    mem.record(1, "slow_test".to_string());
    assert!(mem.knows(1, "slow_test"));
    assert!(!mem.knows(1, "other_test"));
    assert!(!mem.knows(2, "slow_test"));
}

#[test]
fn remembered_hangs_are_found_inside_the_scope() {
    let mut mem = TimeoutMemory::new();
    mem.record(4, "hangs".to_string());
    assert!(hang_known(&mem, 4, &TestScope::Full));
    assert!(!hang_known(&mem, 5, &TestScope::Full));
    assert!(hang_known(
        &mem,
        4,
        &TestScope::Subset(vec!["hangs".to_string()])
    ));
    assert!(!hang_known(
        &mem,
        4,
        &TestScope::Subset(vec!["fine".to_string()])
    ));
}

// One fixture, both strategies: the coverage-guided runner must catch every
// mutation the full-suite runner catches, and a re-run must agree with the
// first run.
fn fixture_outcome(mutation: usize, test: &str) -> RunOutcome {
    // Mutation 1 is caught only by "beta"; mutation 2 survives everything.
    match (mutation, test) {
        (1, "beta") => RunOutcome::Failed,
        _ => RunOutcome::Passed,
    }
}

fn run_scope(mutation: usize, scope: &TestScope, suite: &[&str]) -> RunOutcome {
    let names: Vec<String> = match scope {
        TestScope::Full => suite.iter().map(|s| s.to_string()).collect(),
        TestScope::Subset(ts) => ts.clone(),
    };
    for name in &names {
        let o = fixture_outcome(mutation, name);
        if !matches!(o, RunOutcome::Passed) {
            return o;
        }
    }
    RunOutcome::Passed
}

fn run_engine(cov: Option<&CoverageMap>, ids: Vec<usize>, suite: &[&str]) -> Vec<Verdict> {
    let mut e = Engine::new(ids);
    e.feed_baseline(RunOutcome::Passed);
    while let Some(id) = e.pending() {
        let scope = plan_scope(cov, id);
        e.feed(run_scope(id, &scope, suite));
    }
    e.verdicts
}

#[test]
fn coverage_guided_catches_what_the_full_suite_catches() {
    let suite = ["alpha", "beta"];
    let full = run_engine(None, vec![1, 2], &suite);
    let mut cov = CoverageMap::new();
    cov.insert(1, vec!["beta".to_string()]);
    let guided = run_engine(Some(&cov), vec![1, 2], &suite);
    assert_eq!(vec![Verdict::Caught, Verdict::Survived], full);
    assert_eq!(full, guided);
}

#[test]
fn two_runs_of_the_same_catalog_agree() {
    let suite = ["alpha", "beta"];
    let first = run_engine(None, vec![1, 2], &suite);
    let second = run_engine(None, vec![1, 2], &suite);
    assert_eq!(first, second);
}

#[test]
fn wait_results_classify_by_exit_status_alone() {
    assert_eq!(RunOutcome::Passed, classify_wait(Some(true)));
    assert_eq!(RunOutcome::Failed, classify_wait(Some(false)));
    assert_eq!(RunOutcome::TimedOut, classify_wait(None));
}

#[test]
fn a_coverage_side_file_parses_line_by_line() {
    let cov = parse_coverage("1 alpha beta\n\nnot-an-id x\n3\n");
    match plan_scope(Some(&cov), 1) {
        TestScope::Subset(ts) => {
            assert_eq!(vec!["alpha".to_string(), "beta".to_string()], ts);
        }
        TestScope::Full => panic!("expected a restricted scope"),
    }
    // The malformed line contributes nothing, and an id with no tests keeps
    // its (empty) entry, which the policy widens to the full suite.
    assert!(matches!(plan_scope(Some(&cov), 3), TestScope::Full));
    assert!(matches!(plan_scope(Some(&cov), 7), TestScope::Full));
}

#[test]
fn a_remembered_hang_skips_the_run_and_counts_as_caught() {
    let mut cov = CoverageMap::new();
    cov.insert(6, vec!["hangs".to_string()]);
    let mut mem = TimeoutMemory::new();
    mem.record(6, "hangs".to_string());
    assert!(matches!(
        plan_mutation(Some(&cov), &mem, 6),
        MutationPlan::SkipCaught
    ));
    match plan_mutation(Some(&cov), &mem, 5) {
        MutationPlan::Execute(TestScope::Full) => {}
        _ => panic!("expected a full-suite execution"),
    }
}
