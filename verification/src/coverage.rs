use vstd::prelude::*;

use crate::catalog::count_value;
use crate::catalog::is_count;
use crate::catalog::nonempty_fields;
use crate::catalog::nonempty_lines;
use crate::catalog::parse_count;
use crate::catalog::split_nonempty;
use crate::catalog::split_nonempty_lines;
use crate::catalog::str_eq;
use crate::outcome::RunOutcome;

verus! {

// ---------------------------------------------------------------------------
// Test scopes.
// ---------------------------------------------------------------------------

/// Which tests one process execution is restricted to.
pub enum TestScope {
    /// Run the whole suite.
    Full,
    /// Run only the named tests.
    Subset(Vec<String>),
}

/// The test names an execution under `scope` runs, out of the full suite.
pub open spec fn scope_tests(scope: TestScope, suite: Set<Seq<char>>) -> Set<Seq<char>> {
    match scope {
        TestScope::Full => suite,
        TestScope::Subset(ts) => ts@.map_values(|t: String| t@).to_set(),
    }
}

// ---------------------------------------------------------------------------
// Coverage data: mutation id to the tests known to exercise its location.
// ---------------------------------------------------------------------------

/// Mapping from mutation id to the set of test names known to execute the
/// mutated location, as an association list in file order.
pub struct CoverageMap {
    pub entries: Vec<(usize, Vec<String>)>,
}

/// The covering tests the map associates with `id`, searching from
/// position `i`: the first entry wins.
pub open spec fn spec_lookup_from(
    entries: Seq<(usize, Vec<String>)>,
    id: usize,
    i: int,
) -> Option<Seq<Seq<char>>>
    decreases entries.len() - i,
{
    if i < 0 || i >= entries.len() {
        None
    } else if entries[i].0 == id {
        Some(entries[i].1@.map_values(|t: String| t@))
    } else {
        spec_lookup_from(entries, id, i + 1)
    }
}

impl CoverageMap {
    /// The covering tests this map associates with `id`, if it has an entry.
    pub open spec fn spec_lookup(&self, id: usize) -> Option<Seq<Seq<char>>> {
        spec_lookup_from(self.entries@, id, 0)
    }

    pub fn new() -> (m: CoverageMap)
        ensures
            m.entries@.len() == 0,
    {
        CoverageMap { entries: Vec::new() }
    }

    /// Add one entry. An id recorded twice keeps its first entry.
    pub fn insert(&mut self, id: usize, tests: Vec<String>)
        ensures
            final(self).entries@ == old(self).entries@.push((id, tests)),
    {
        self.entries.push((id, tests));
    }

    /// Find the covering tests for `id`.
    pub fn lookup(&self, id: usize) -> (r: Option<&Vec<String>>)
        ensures
            match r {
                Some(ts) => self.spec_lookup(id) == Some(ts@.map_values(|t: String| t@)),
                None => self.spec_lookup(id) is None,
            },
    {
        let mut i: usize = 0;
        while i < self.entries.len()
            invariant
                i <= self.entries@.len(),
                self.spec_lookup(id) == spec_lookup_from(self.entries@, id, i as int),
            decreases self.entries@.len() - i,
        {
            let e = &self.entries[i];
            if e.0 == id {
                return Some(&e.1);
            }
            i += 1;
        }
        None
    }
}

/// The entry the optional coverage data has for `id`.
pub open spec fn spec_entry(cov: Option<&CoverageMap>, id: usize) -> Option<Seq<Seq<char>>> {
    match cov {
        None => None,
        Some(c) => c.spec_lookup(id),
    }
}

/// The tests the coverage-guided strategy executes for one mutation: the
/// covering set when one is known and non-empty, the whole suite otherwise
/// (absent or empty data must never shrink the run).
pub open spec fn spec_policy_tests(entry: Option<Seq<Seq<char>>>, suite: Set<Seq<char>>) -> Set<
    Seq<char>,
> {
    match entry {
        None => suite,
        Some(ts) => if ts.len() == 0 {
            suite
        } else {
            ts.to_set()
        },
    }
}

/// Choose the scope for one mutation: its covering set when the coverage
/// data knows one and it is non-empty, the full suite otherwise.
pub fn plan_scope(cov: Option<&CoverageMap>, id: usize) -> (scope: TestScope)
    ensures
        forall|suite: Set<Seq<char>>|
            scope_tests(scope, suite) == spec_policy_tests(spec_entry(cov, id), suite),
{
    let c = match cov {
        None => {
            return TestScope::Full;
        },
        Some(c) => c,
    };
    let ts = match c.lookup(id) {
        None => {
            return TestScope::Full;
        },
        Some(ts) => ts,
    };
    if ts.len() == 0 {
        return TestScope::Full;
    }
    let mut picked: Vec<String> = Vec::new();
    let mut k: usize = 0;
    while k < ts.len()
        invariant
            k <= ts@.len(),
            picked@.len() == k,
            forall|t: int| 0 <= t < k ==> picked@[t]@ == ts@[t]@,
        decreases ts@.len() - k,
    {
        let s = ts[k].clone();
        picked.push(s);
        k += 1;
    }
    proof {
        assert(picked@.map_values(|t: String| t@) =~= ts@.map_values(|t: String| t@));
    }
    TestScope::Subset(picked)
}

// ---------------------------------------------------------------------------
// Remembered hangs: (mutation id, test name) pairs that timed out before.
// ---------------------------------------------------------------------------

/// The (mutation id, test name) pairs whose execution timed out earlier in
/// this run, kept so a known-infinite-loop mutation is not waited on twice.
pub struct TimeoutMemory {
    pub pairs: Vec<(usize, String)>,
}

impl TimeoutMemory {
    /// `test` is remembered as hanging under mutation `id`.
    pub open spec fn remembers(&self, id: usize, test: Seq<char>) -> bool {
        exists|i: int|
            0 <= i < self.pairs@.len() && self.pairs@[i].0 == id && self.pairs@[i].1@ == test
    }

    /// A fresh, empty memory: every run starts with stale data discarded.
    pub fn new() -> (m: TimeoutMemory)
        ensures
            m.pairs@.len() == 0,
            forall|id: usize, test: Seq<char>| !m.remembers(id, test),
    {
        TimeoutMemory { pairs: Vec::new() }
    }

    /// Remember that `test` timed out under mutation `id`.
    pub fn record(&mut self, id: usize, test: String)
        ensures
            final(self).pairs@ == old(self).pairs@.push((id, test)),
            final(self).remembers(id, test@),
            forall|i: usize, t: Seq<char>|
                old(self).remembers(i, t) ==> final(self).remembers(i, t),
    {
        let ghost pre = self.pairs@;
        self.pairs.push((id, test));
        proof {
            assert(self.pairs@[pre.len() as int].0 == id);
            assert forall|i: usize, t: Seq<char>|
                old(self).remembers(i, t) implies self.remembers(i, t) by {
                if old(self).remembers(i, t) {
                    let w = choose|w: int|
                        0 <= w < pre.len() && pre[w].0 == i && pre[w].1@ == t;
                    assert(self.pairs@[w].0 == i && self.pairs@[w].1@ == t);
                }
            }
        }
    }

    /// Does the memory hold `(id, test)`?
    pub fn knows(&self, id: usize, test: &str) -> (r: bool)
        ensures
            r == self.remembers(id, test@),
    {
        let mut i: usize = 0;
        while i < self.pairs.len()
            invariant
                i <= self.pairs@.len(),
                forall|j: int|
                    0 <= j < i ==> !(self.pairs@[j].0 == id && self.pairs@[j].1@ == test@),
            decreases self.pairs@.len() - i,
        {
            let p = &self.pairs[i];
            if p.0 == id && str_eq(p.1.as_str(), test) {
                return true;
            }
            i += 1;
        }
        false
    }
}

/// A remembered hang for `id` lies inside `scope`, so the mutation can be
/// classified as caught without re-paying the timeout.
pub open spec fn spec_hang_known(mem: &TimeoutMemory, id: usize, scope: TestScope) -> bool {
    match scope {
        TestScope::Full => exists|i: int| 0 <= i < mem.pairs@.len() && mem.pairs@[i].0 == id,
        TestScope::Subset(ts) => exists|k: int| 0 <= k < ts@.len() && mem.remembers(id, ts@[k]@),
    }
}

/// Does the memory hold a hang for `id` inside `scope`?
pub fn hang_known(mem: &TimeoutMemory, id: usize, scope: &TestScope) -> (r: bool)
    ensures
        r == spec_hang_known(mem, id, *scope),
{
    match scope {
        TestScope::Full => {
            let mut i: usize = 0;
            while i < mem.pairs.len()
                invariant
                    i <= mem.pairs@.len(),
                    spec_hang_known(mem, id, *scope) == (exists|j: int|
                        0 <= j < mem.pairs@.len() && mem.pairs@[j].0 == id),
                    forall|j: int| 0 <= j < i ==> mem.pairs@[j].0 != id,
                decreases mem.pairs@.len() - i,
            {
                let p = &mem.pairs[i];
                if p.0 == id {
                    proof {
                        assert(0 <= i < mem.pairs@.len() && mem.pairs@[i as int].0 == id);
                    }
                    return true;
                }
                i += 1;
            }
            false
        },
        TestScope::Subset(ts) => {
            let mut k: usize = 0;
            while k < ts.len()
                invariant
                    k <= ts@.len(),
                    spec_hang_known(mem, id, *scope) == (exists|j: int|
                        0 <= j < ts@.len() && mem.remembers(id, ts@[j]@)),
                    forall|j: int| 0 <= j < k ==> !mem.remembers(id, ts@[j]@),
                decreases ts@.len() - k,
            {
                let t = &ts[k];
                if mem.knows(id, t.as_str()) {
                    proof {
                        assert(0 <= k < ts@.len() && mem.remembers(id, ts@[k as int]@));
                    }
                    return true;
                }
                k += 1;
            }
            false
        },
    }
}

// ---------------------------------------------------------------------------
// One selective step.
// ---------------------------------------------------------------------------

/// The selective runner's decision for one mutation.
pub enum MutationPlan {
    /// A remembered hang lies inside the scope: the mutation is caught
    /// without paying the timeout again.
    SkipCaught,
    /// Execute the tests in the scope.
    Execute(TestScope),
}

/// `scope` runs exactly the tests the coverage policy picks for `id`.
pub open spec fn spec_scope_matches_policy(
    scope: TestScope,
    cov: Option<&CoverageMap>,
    id: usize,
) -> bool {
    forall|suite: Set<Seq<char>>|
        scope_tests(scope, suite) == spec_policy_tests(spec_entry(cov, id), suite)
}

/// One selective step: pick the policy's scope for `id` and consult the hang
/// memory over it — skip as caught when a remembered hang lies inside, hand
/// the scope back to execute otherwise. With a faithful memory the skip
/// changes no verdict (`lemma_rerun_verdicts_identical`).
pub fn plan_mutation(cov: Option<&CoverageMap>, mem: &TimeoutMemory, id: usize) -> (p:
    MutationPlan)
    ensures
        match p {
            MutationPlan::SkipCaught => exists|scope: TestScope|
                spec_scope_matches_policy(scope, cov, id) && spec_hang_known(mem, id, scope),
            MutationPlan::Execute(scope) => spec_scope_matches_policy(scope, cov, id)
                && !spec_hang_known(mem, id, scope),
        },
{
    let scope = plan_scope(cov, id);
    if hang_known(mem, id, &scope) {
        proof {
            assert(spec_scope_matches_policy(scope, cov, id) && spec_hang_known(mem, id, scope));
        }
        MutationPlan::SkipCaught
    } else {
        MutationPlan::Execute(scope)
    }
}

// ---------------------------------------------------------------------------
// The coverage side file.
// ---------------------------------------------------------------------------

/// The entry one side-file line contributes: its first field the mutation
/// id, the remaining fields the covering test names. A line without a usable
/// id contributes nothing: corrupt coverage data is recoverable, never fatal.
pub open spec fn spec_coverage_entry(line: Seq<char>) -> Option<(usize, Seq<Seq<char>>)> {
    let f = nonempty_fields(line, seq![' ']);
    if f.len() >= 1 && is_count(f[0]) && count_value(f[0]) <= usize::MAX {
        Some(((count_value(f[0]) as usize), f.subrange(1, f.len() as int)))
    } else {
        None
    }
}

/// The entries of a whole side file, in file order.
pub open spec fn spec_coverage_entries(lines: Seq<Seq<char>>) -> Seq<(usize, Seq<Seq<char>>)>
    decreases lines.len(),
{
    if lines.len() == 0 {
        Seq::empty()
    } else {
        spec_coverage_entries(lines.drop_last()) + match spec_coverage_entry(lines.last()) {
            Some(e) => seq![e],
            None => Seq::empty(),
        }
    }
}

/// Read a coverage side file: one mutation per line, the id first, then the
/// names of the tests known to exercise it, space-separated.
pub fn parse_coverage(text: &str) -> (m: CoverageMap)
    ensures
        m.entries@.map_values(|e: (usize, Vec<String>)| (e.0, e.1@.map_values(|t: String| t@)))
            == spec_coverage_entries(nonempty_lines(text@)),
{
    let sp = " ";
    proof {
        reveal_strlit(" ");
        assert(sp@ =~= seq![' ']);
    }
    let lines = split_nonempty_lines(text);
    let ghost lviews = nonempty_lines(text@);
    let mut m = CoverageMap::new();
    proof {
        assert(lviews.take(0) =~= Seq::<Seq<char>>::empty());
        assert(m.entries@.map_values(
            |e: (usize, Vec<String>)| (e.0, e.1@.map_values(|t: String| t@)),
        ) =~= Seq::<(usize, Seq<Seq<char>>)>::empty());
    }
    let mut i: usize = 0;
    while i < lines.len()
        invariant
            i <= lines@.len(),
            sp@ == seq![' '],
            lviews == nonempty_lines(text@),
            lines@.len() == lviews.len(),
            forall|k: int| 0 <= k < lines@.len() ==> lines@[k]@ == lviews[k],
            m.entries@.map_values(
                |e: (usize, Vec<String>)| (e.0, e.1@.map_values(|t: String| t@)),
            ) == spec_coverage_entries(lviews.take(i as int)),
        decreases lines@.len() - i,
    {
        let line: &str = lines[i];
        let ghost lv = lviews[i as int];
        let ghost f = nonempty_fields(lv, seq![' ']);
        let ghost pre_entries = m.entries@;
        let fields = split_nonempty(line, sp);
        if fields.len() > 0 {
            if let Some(id) = parse_count(fields[0]) {
                let mut tests: Vec<String> = Vec::new();
                let mut j: usize = 1;
                while j < fields.len()
                    invariant
                        1 <= j <= fields@.len(),
                        f == nonempty_fields(lv, seq![' ']),
                        fields@.len() == f.len(),
                        forall|k: int| 0 <= k < fields@.len() ==> fields@[k]@ == f[k],
                        tests@.len() == j - 1,
                        forall|k: int| 0 <= k < j - 1 ==> tests@[k]@ == f[k + 1],
                    decreases fields@.len() - j,
                {
                    let t: &str = fields[j];
                    tests.push(t.to_owned());
                    j += 1;
                }
                proof {
                    assert(tests@.map_values(|t: String| t@) =~= f.subrange(1, f.len() as int));
                    assert(spec_coverage_entry(lv) == Some(
                        ((id), f.subrange(1, f.len() as int)),
                    ));
                }
                let ghost tv = tests@;
                m.insert(id, tests);
                proof {
                    assert(m.entries@ == pre_entries.push((id, tests)));
                    assert(m.entries@.map_values(
                        |e: (usize, Vec<String>)| (e.0, e.1@.map_values(|t: String| t@)),
                    ) =~= pre_entries.map_values(
                        |e: (usize, Vec<String>)| (e.0, e.1@.map_values(|t: String| t@)),
                    ).push((id, tv.map_values(|t: String| t@))));
                }
            } else {
                proof {
                    assert(fields@[0]@ == f[0]);
                    assert(spec_coverage_entry(lv) is None);
                }
            }
        } else {
            proof {
                assert(f.len() == 0);
                assert(spec_coverage_entry(lv) is None);
            }
        }
        proof {
            assert(lviews.take(i + 1).drop_last() =~= lviews.take(i as int));
            assert(lviews.take(i + 1).last() == lv);
            let mapped = m.entries@.map_values(
                |e: (usize, Vec<String>)| (e.0, e.1@.map_values(|t: String| t@)),
            );
            if spec_coverage_entry(lv) is None {
                assert(spec_coverage_entries(lviews.take(i + 1)) =~= spec_coverage_entries(
                    lviews.take(i as int),
                ));
            } else {
                assert(spec_coverage_entries(lviews.take(i + 1)) =~= spec_coverage_entries(
                    lviews.take(i as int),
                ).push(spec_coverage_entry(lv)->Some_0));
            }
            assert(mapped =~= spec_coverage_entries(lviews.take(i + 1)));
        }
        i += 1;
    }
    proof {
        assert(lviews.take(lviews.len() as int) =~= lviews);
    }
    m
}

// ---------------------------------------------------------------------------
// The laws the selective strategy obeys.
// ---------------------------------------------------------------------------

/// Executing every test in `scope` catches the mutation exactly when some
/// test in `scope` does not pass under it; `out` gives each test's outcome
/// under the active mutation.
pub open spec fn scope_caught(out: Map<Seq<char>, RunOutcome>, scope: Set<Seq<char>>) -> bool {
    exists|t: Seq<char>| scope.contains(t) && out[t] != RunOutcome::Passed
}

/// Law: when the coverage data is sound — every test outside a mutation's
/// covering set passes under that mutation, which is exactly what coverage
/// instrumentation asserts — the coverage-guided scope catches every mutation
/// the full suite would catch: selective execution never produces a false
/// survivor.
pub proof fn lemma_selective_run_catches(
    out: Map<Seq<char>, RunOutcome>,
    entry: Option<Seq<Seq<char>>>,
    suite: Set<Seq<char>>,
)
    requires
        entry matches Some(ts) ==> forall|t: Seq<char>|
            suite.contains(t) && !ts.to_set().contains(t) ==> out[t] == RunOutcome::Passed,
    ensures
        scope_caught(out, suite) ==> scope_caught(out, spec_policy_tests(entry, suite)),
{
    if scope_caught(out, suite) {
        let t = choose|t: Seq<char>| suite.contains(t) && out[t] != RunOutcome::Passed;
        match entry {
            Some(ts) => {
                if ts.len() > 0 {
                    assert(ts.to_set().contains(t));
                    assert(spec_policy_tests(entry, suite).contains(t) && out[t]
                        != RunOutcome::Passed);
                }
            },
            None => {},
        }
    }
}

/// The verdict of one mutation under the selective runner: caught when a
/// remembered hang lies inside the scope, or when some executed test does
/// not pass.
pub open spec fn spec_mutation_caught(
    out: Map<Seq<char>, RunOutcome>,
    scope: Set<Seq<char>>,
    hangs: Set<Seq<char>>,
) -> bool {
    (exists|t: Seq<char>| scope.contains(t) && hangs.contains(t)) || scope_caught(out, scope)
}

/// Law: a faithful timeout memory — one that only names tests that do time
/// out under the mutation — never changes a verdict. In particular, running
/// the same catalog against the same binary twice classifies every mutation
/// identically, whether the second run starts with an empty memory or with
/// the first run's.
pub proof fn lemma_rerun_verdicts_identical(
    out: Map<Seq<char>, RunOutcome>,
    scope: Set<Seq<char>>,
    hangs1: Set<Seq<char>>,
    hangs2: Set<Seq<char>>,
)
    requires
        forall|t: Seq<char>|
            scope.contains(t) && hangs1.contains(t) ==> out[t] == RunOutcome::TimedOut,
        forall|t: Seq<char>|
            scope.contains(t) && hangs2.contains(t) ==> out[t] == RunOutcome::TimedOut,
    ensures
        spec_mutation_caught(out, scope, hangs1) == spec_mutation_caught(out, scope, hangs2),
{
    assert forall|hangs: Set<Seq<char>>|
        (forall|t: Seq<char>|
            scope.contains(t) && hangs.contains(t) ==> out[t]
                == RunOutcome::TimedOut) implies spec_mutation_caught(out, scope, hangs)
        == scope_caught(out, scope) by {
        if exists|t: Seq<char>| scope.contains(t) && hangs.contains(t) {
            let t = choose|t: Seq<char>| scope.contains(t) && hangs.contains(t);
            assert(out[t] == RunOutcome::TimedOut);
            assert(scope.contains(t) && out[t] != RunOutcome::Passed);
        }
    }
}

} // verus!
