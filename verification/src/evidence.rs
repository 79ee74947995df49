//! Recording verification runs: what the user gives, and what the log takes.
use crate::error::{Error, ErrorView};
use crate::text::{concat, lowercased, parted, split_once, texts_are_parted_at_the_first};
use crate::time::Timestamp;
use crate::verification::{
    found_run, recorded_runs, runs_are_found_by_issue_and_id, verification_status_names_read_back,
    VerificationCheck, VerificationCheckView, VerificationRun, VerificationRunView,
    VerificationStatus, VerificationStore,
};
use vstd::prelude::*;

verus! {

/// What is wrong with a status.
pub open spec fn status_problem(s: Seq<char>) -> ErrorView {
    ErrorView::Other(
        "invalid verification status: '"@ + s + "' (expected passed, failed, error, or skipped)"@,
    )
}

/// A check as it is written: `name=status` or `name=status:detail`.
pub open spec fn parsed_check(s: Seq<char>) -> Result<VerificationCheckView, ErrorView> {
    match parted(s, '=') {
        None => Err(
            ErrorView::Other(
                "invalid --check '"@ + s + "' (expected name=status or name=status:detail)"@,
            ),
        ),
        Some((name, rest)) => {
            let (status, detail) = match parted(rest, ':') {
                Some((a, b)) => (a, Some(b)),
                None => (rest, None),
            };
            match VerificationStatus::parsed_lower(lowercased(status)) {
                Some(x) => Ok(VerificationCheckView { name, status: x, detail }),
                None => Err(status_problem(status)),
            }
        },
    }
}

/// Reads a check.
pub fn parse_check(s: &str) -> (r: Result<VerificationCheck, Error>)
    ensures
        match parsed_check(s@) {
            Ok(c) => r is Ok && r->Ok_0.deep_view() == c,
            Err(e) => r is Err && r->Err_0@ == e,
        },
{
    match split_once(s, '=') {
        None => {
            let mut m = concat("invalid --check '", s);
            m.append("' (expected name=status or name=status:detail)");
            Err(Error::Other(m))
        },
        Some((name, rest)) => {
            let (status, detail) = match split_once(&rest, ':') {
                Some((a, b)) => (a, Some(b)),
                None => (rest, None),
            };
            match VerificationStatus::parse(&status) {
                Ok(x) => Ok(VerificationCheck { name, status: x, detail }),
                Err(e) => Err(e),
            }
        },
    }
}

/// The checks of a run, or what is wrong with the first that cannot be read.
pub open spec fn parsed_checks(texts: Seq<Seq<char>>) -> Result<
    Seq<VerificationCheckView>,
    ErrorView,
>
    decreases texts.len(),
{
    if texts.len() == 0 {
        Ok(seq![])
    } else {
        match parsed_checks(texts.drop_last()) {
            Err(e) => Err(e),
            Ok(before) => match parsed_check(texts.last()) {
                Ok(c) => Ok(before.push(c)),
                Err(e) => Err(e),
            },
        }
    }
}

proof fn lemma_first_problem_stays(texts: Seq<Seq<char>>, n: int)
    requires
        0 <= n <= texts.len(),
        parsed_checks(texts.take(n)) is Err,
    ensures
        parsed_checks(texts) == parsed_checks(texts.take(n)),
    decreases texts.len(),
{
    if n == texts.len() {
        assert(texts.take(n) =~= texts);
    } else {
        assert(texts.drop_last().take(n) =~= texts.take(n));
        lemma_first_problem_stays(texts.drop_last(), n);
    }
}

fn parse_checks(texts: &Vec<String>) -> (r: Result<Vec<VerificationCheck>, Error>)
    ensures
        match parsed_checks(texts.deep_view()) {
            Ok(c) => r is Ok && r->Ok_0.deep_view() == c,
            Err(e) => r is Err && r->Err_0@ == e,
        },
{
    let ghost d = texts.deep_view();
    let mut out: Vec<VerificationCheck> = Vec::new();
    let mut i: usize = 0;
    assert(d.take(0) =~= seq![]);
    assert(out.deep_view() =~= seq![]);
    while i < texts.len()
        invariant
            i <= texts.len(),
            d == texts.deep_view(),
            parsed_checks(d.take(i as int)) == Ok::<Seq<VerificationCheckView>, ErrorView>(
                out.deep_view(),
            ),
        decreases texts.len() - i,
    {
        let ghost before = out.deep_view();
        assert(d.take(i + 1).drop_last() =~= d.take(i as int));
        assert(d.take(i + 1).last() == texts@[i as int]@);
        match parse_check(&texts[i]) {
            Ok(c) => {
                let ghost cv = c.deep_view();
                out.push(c);
                assert(out.deep_view() =~= before.push(cv));
            },
            Err(e) => {
                proof {
                    lemma_first_problem_stays(d, i + 1);
                }
                return Err(e);
            },
        }
        i += 1;
    }
    assert(d.take(d.len() as int) =~= d);
    Ok(out)
}

/// What the user gives of a run. Checks are as they were written.
pub struct RunArgs {
    pub run_id: Option<String>,
    pub status: Option<String>,
    pub revision: Option<String>,
    pub environment: Option<String>,
    pub scenario: Option<String>,
    pub command: Option<String>,
    pub summary: Option<String>,
    pub artifacts: Vec<String>,
    pub checks: Vec<String>,
    pub gaps: Option<String>,
}

pub open spec fn first_of<V>(a: Option<V>, b: Option<V>) -> Option<V> {
    match a {
        Some(x) => Some(x),
        None => b,
    }
}

pub open spec fn first_list<V>(a: Seq<V>, b: Seq<V>) -> Seq<V> {
    if a.len() > 0 {
        a
    } else {
        b
    }
}

fn either(a: Option<String>, b: Option<String>) -> (r: Option<String>)
    ensures
        r.deep_view() == first_of(a.deep_view(), b.deep_view()),
{
    match a {
        Some(x) => Some(x),
        None => b,
    }
}

fn either_list(a: Vec<String>, b: Vec<String>) -> (r: Vec<String>)
    ensures
        r.deep_view() == first_list(a.deep_view(), b.deep_view()),
{
    if a.len() > 0 {
        a
    } else {
        b
    }
}

impl RunArgs {
    /// What the flags say, and what a record says where the flags say nothing.
    pub fn over(self, record: RunArgs) -> (r: RunArgs)
        ensures
            r.run_id.deep_view() == first_of(self.run_id.deep_view(), record.run_id.deep_view()),
            r.status.deep_view() == first_of(self.status.deep_view(), record.status.deep_view()),
            r.revision.deep_view() == first_of(
                self.revision.deep_view(),
                record.revision.deep_view(),
            ),
            r.environment.deep_view() == first_of(
                self.environment.deep_view(),
                record.environment.deep_view(),
            ),
            r.scenario.deep_view() == first_of(
                self.scenario.deep_view(),
                record.scenario.deep_view(),
            ),
            r.command.deep_view() == first_of(self.command.deep_view(), record.command.deep_view()),
            r.summary.deep_view() == first_of(self.summary.deep_view(), record.summary.deep_view()),
            r.artifacts.deep_view() == first_list(
                self.artifacts.deep_view(),
                record.artifacts.deep_view(),
            ),
            r.checks.deep_view() == first_list(self.checks.deep_view(), record.checks.deep_view()),
            r.gaps.deep_view() == first_of(self.gaps.deep_view(), record.gaps.deep_view()),
    {
        RunArgs {
            run_id: either(self.run_id, record.run_id),
            status: either(self.status, record.status),
            revision: either(self.revision, record.revision),
            environment: either(self.environment, record.environment),
            scenario: either(self.scenario, record.scenario),
            command: either(self.command, record.command),
            summary: either(self.summary, record.summary),
            artifacts: either_list(self.artifacts, record.artifacts),
            checks: either_list(self.checks, record.checks),
            gaps: either(self.gaps, record.gaps),
        }
    }

    /// The first thing that is wrong with a run for an issue.
    pub open spec fn problem(self, issue_id: Seq<char>, issue_exists: bool) -> Option<ErrorView> {
        if !issue_exists {
            Some(ErrorView::Other("Issue not found: "@ + issue_id))
        } else if self.status is None {
            Some(ErrorView::Other("missing --status (passed, failed, error, or skipped)"@))
        } else if VerificationStatus::parsed_lower(lowercased(self.status->0@)) is None {
            Some(status_problem(self.status->0@))
        } else {
            match parsed_checks(self.checks.deep_view()) {
                Err(e) => Some(e),
                Ok(_) => None,
            }
        }
    }

    /// The run that is recorded at `now`; without an id of its own it gets `fallback_id`.
    pub open spec fn recorded(
        self,
        issue_id: Seq<char>,
        fallback_id: Seq<char>,
        now: Timestamp,
    ) -> VerificationRunView {
        VerificationRunView {
            run_id: match self.run_id.deep_view() {
                Some(id) => id,
                None => fallback_id,
            },
            issue_id,
            status: VerificationStatus::parsed_lower(lowercased(self.status->0@))->0,
            revision: self.revision.deep_view(),
            timestamp: now,
            environment: self.environment.deep_view(),
            scenario: self.scenario.deep_view(),
            command: self.command.deep_view(),
            summary: self.summary.deep_view(),
            artifacts: self.artifacts.deep_view(),
            checks: parsed_checks(self.checks.deep_view())->Ok_0,
            gaps: self.gaps.deep_view(),
        }
    }

    /// Makes the run, or says what is wrong.
    pub fn build(
        self,
        issue_id: &str,
        issue_exists: bool,
        fallback_id: String,
        now: Timestamp,
    ) -> (r: Result<VerificationRun, Error>)
        ensures
            match self.problem(issue_id@, issue_exists) {
                Some(e) => r is Err && r->Err_0@ == e,
                None => r is Ok && r->Ok_0@ == self.recorded(issue_id@, fallback_id@, now),
            },
    {
        if !issue_exists {
            return Err(Error::Other(concat("Issue not found: ", issue_id)));
        }
        let status = match &self.status {
            Some(s) => match VerificationStatus::parse(s) {
                Ok(x) => x,
                Err(e) => return Err(e),
            },
            None => return Err(
                Error::Other("missing --status (passed, failed, error, or skipped)".to_owned()),
            ),
        };
        let checks = match parse_checks(&self.checks) {
            Ok(c) => c,
            Err(e) => return Err(e),
        };
        let run_id = match self.run_id {
            Some(id) => id,
            None => fallback_id,
        };
        Ok(
            VerificationRun {
                run_id,
                issue_id: issue_id.to_owned(),
                status,
                revision: self.revision,
                timestamp: now,
                environment: self.environment,
                scenario: self.scenario,
                command: self.command,
                summary: self.summary,
                artifacts: self.artifacts,
                checks,
                gaps: self.gaps,
            },
        )
    }
}

/// What becomes of a run that is submitted.
#[derive(Clone, Copy, Debug, PartialEq, Eq, Structural)]
pub enum Submission {
    /// It is new and goes to the end of the log.
    Append,
    /// It is in the log already.
    AlreadyRecorded,
    /// The log has another run under its id.
    Conflict,
}

/// What becomes of a run, given the log.
pub open spec fn submission(
    runs: Seq<VerificationRunView>,
    run: VerificationRunView,
) -> Submission {
    match found_run(runs, run.issue_id, run.run_id) {
        None => Submission::Append,
        Some(there) => if there.equivalent(run) {
            Submission::AlreadyRecorded
        } else {
            Submission::Conflict
        },
    }
}

/// The log after a run was submitted.
pub open spec fn after_submission(
    runs: Seq<VerificationRunView>,
    run: VerificationRunView,
) -> Seq<VerificationRunView> {
    if submission(runs, run) == Submission::Append {
        runs.push(run)
    } else {
        runs
    }
}

/// Decides what becomes of a run.
pub fn submit(store: &VerificationStore, runs: &Vec<VerificationRun>, run: &VerificationRun) -> (r:
    Submission)
    ensures
        r == submission(runs.deep_view(), run@),
{
    match store.find(runs, &run.issue_id, &run.run_id) {
        None => Submission::Append,
        Some(there) => if there.equivalent_to(run) {
            Submission::AlreadyRecorded
        } else {
            Submission::Conflict
        },
    }
}

/// What the user is told of a conflict.
pub fn conflict_error(run: &VerificationRun) -> (r: Error)
    ensures
        r@ == ErrorView::Other(
            "verification run '"@ + run@.run_id + "' for "@ + run@.issue_id
                + " is already recorded with different content"@,
        ),
{
    let mut m = concat("verification run '", &run.run_id);
    m.append("' for ");
    m.append(&run.issue_id);
    m.append(" is already recorded with different content");
    Error::Other(m)
}

proof fn lemma_found_push(
    runs: Seq<VerificationRunView>,
    run: VerificationRunView,
    issue_id: Seq<char>,
    run_id: Seq<char>,
)
    ensures
        found_run(runs.push(run), issue_id, run_id) == (match found_run(runs, issue_id, run_id) {
            Some(x) => Some(x),
            None => if run.issue_id == issue_id && run.run_id == run_id {
                Some(run)
            } else {
                None
            },
        }),
    decreases runs.len(),
{
    if runs.len() == 0 {
        assert(runs.push(run).drop_first() =~= runs);
    } else {
        assert(runs.push(run).drop_first() =~= runs.drop_first().push(run));
        lemma_found_push(runs.drop_first(), run, issue_id, run_id);
    }
}

/// Submitting a run again, whenever that is, records nothing new.
pub proof fn resubmission_records_nothing(
    runs: Seq<VerificationRunView>,
    run: VerificationRunView,
    again: VerificationRunView,
)
    requires
        run.equivalent(again),
        submission(runs, run) != Submission::Conflict,
    ensures
        submission(after_submission(runs, run), again) == Submission::AlreadyRecorded,
        after_submission(after_submission(runs, run), again) == after_submission(runs, run),
{
    lemma_found_push(runs, run, run.issue_id, run.run_id);
}

/// A run that was recorded stays what it is, whatever is submitted after it.
pub proof fn recorded_runs_never_change(
    runs: Seq<VerificationRunView>,
    run: VerificationRunView,
    issue_id: Seq<char>,
    run_id: Seq<char>,
)
    requires
        found_run(runs, issue_id, run_id) is Some,
    ensures
        found_run(after_submission(runs, run), issue_id, run_id) == found_run(
            runs,
            issue_id,
            run_id,
        ),
        after_submission(runs, run).take(runs.len() as int) == runs,
{
    lemma_found_push(runs, run, issue_id, run_id);
    assert(runs.push(run).take(runs.len() as int) =~= runs);
    assert(runs.take(runs.len() as int) =~= runs);
}

/// A run is new where the log has none under its issue and id, was recorded already where the
/// one that it has says the same, and is in conflict with any other. Only a new run changes the
/// log: it goes to its end.
pub proof fn only_new_runs_are_recorded(runs: Seq<VerificationRunView>, run: VerificationRunView)
    ensures
        submission(runs, run) == Submission::Append <==> forall|j: int|
            0 <= j < runs.len() ==> (#[trigger] runs[j]).issue_id != run.issue_id || runs[j].run_id
                != run.run_id,
        submission(runs, run) == Submission::AlreadyRecorded ==> exists|j: int|
            0 <= j < runs.len() && (#[trigger] runs[j]).run_id == run.run_id && runs[j].issue_id
                == run.issue_id && runs[j].status == run.status && runs[j].revision == run.revision
                && runs[j].checks == run.checks && runs[j].summary == run.summary,
        submission(runs, run) == Submission::Append ==> after_submission(runs, run) == runs.push(
            run,
        ),
        submission(runs, run) != Submission::Append ==> after_submission(runs, run) == runs,
{
    lemma_found_is_there(runs, run.issue_id, run.run_id);
    runs_are_found_by_issue_and_id(runs, run.issue_id, run.run_id, 0);
}

proof fn lemma_found_is_there(
    runs: Seq<VerificationRunView>,
    issue_id: Seq<char>,
    run_id: Seq<char>,
)
    ensures
        found_run(runs, issue_id, run_id) matches Some(r) ==> exists|j: int|
            0 <= j < runs.len() && #[trigger] runs[j] == r && r.issue_id == issue_id && r.run_id
                == run_id,
        found_run(runs, issue_id, run_id) is None ==> forall|j: int|
            0 <= j < runs.len() ==> (#[trigger] runs[j]).issue_id != issue_id || runs[j].run_id
                != run_id,
    decreases runs.len(),
{
    if runs.len() > 0 {
        let rest = runs.drop_first();
        lemma_found_is_there(rest, issue_id, run_id);
        if found_run(runs, issue_id, run_id) is None {
            assert forall|j: int| 0 <= j < runs.len() implies (#[trigger] runs[j]).issue_id
                != issue_id || runs[j].run_id != run_id by {
                if j > 0 {
                    assert(rest[j - 1] == runs[j]);
                }
            }
        }
        if !(runs[0].issue_id == issue_id && runs[0].run_id == run_id) && found_run(
            rest,
            issue_id,
            run_id,
        ) is Some {
            let r = found_run(rest, issue_id, run_id)->0;
            let j = choose|j: int| 0 <= j < rest.len() && #[trigger] rest[j] == r;
            assert(runs[j + 1] == r);
        }
    }
}

/// A run that is recorded says what the user said of it: everything that was given, for that
/// issue, now, under the id that was given or else one that was drawn.
pub proof fn recorded_runs_say_what_was_given(
    args: RunArgs,
    issue_id: Seq<char>,
    fallback_id: Seq<char>,
    now: Timestamp,
)
    requires
        args.problem(issue_id, true) is None,
    ensures
        ({
            let r = args.recorded(issue_id, fallback_id, now);
            &&& r.issue_id == issue_id && r.timestamp == now
            &&& args.run_id matches Some(id) ==> r.run_id == id@
            &&& args.run_id is None ==> r.run_id == fallback_id
            &&& args.status is Some
            &&& forall|s: VerificationStatus|
                lowercased(args.status->0@) == #[trigger] s.name() ==> r.status == s
            &&& args.revision matches Some(x) ==> r.revision == Some(x@)
            &&& args.environment matches Some(x) ==> r.environment == Some(x@)
            &&& args.scenario matches Some(x) ==> r.scenario == Some(x@)
            &&& args.command matches Some(x) ==> r.command == Some(x@)
            &&& args.summary matches Some(x) ==> r.summary == Some(x@)
            &&& args.gaps matches Some(x) ==> r.gaps == Some(x@)
            &&& args.revision is None ==> r.revision is None
            &&& args.environment is None ==> r.environment is None
            &&& args.scenario is None ==> r.scenario is None
            &&& args.command is None ==> r.command is None
            &&& args.summary is None ==> r.summary is None
            &&& args.gaps is None ==> r.gaps is None
            &&& r.artifacts.len() == args.artifacts@.len()
            &&& forall|k: int|
                0 <= k < r.artifacts.len() ==> #[trigger] r.artifacts[k] == args.artifacts@[k]@
            &&& r.checks.len() == args.checks@.len()
        }),
{
    let r = args.recorded(issue_id, fallback_id, now);
    assert forall|s: VerificationStatus| lowercased(args.status->0@)
        == #[trigger] s.name() implies r.status == s by {
        verification_status_names_read_back(s);
    }
    lemma_check_count(args.checks.deep_view());
}

proof fn lemma_check_count(texts: Seq<Seq<char>>)
    ensures
        parsed_checks(texts) is Ok ==> parsed_checks(texts)->Ok_0.len() == texts.len(),
    decreases texts.len(),
{
    if texts.len() > 0 {
        lemma_check_count(texts.drop_last());
    }
}

/// A check is written as its name, an equals sign and its state, with a colon and details behind
/// it where there are any.
pub proof fn checks_read_back(name: Seq<char>, s: VerificationStatus, detail: Seq<char>)
    requires
        !name.contains('='),
    ensures
        lowercased(s.name()) == s.name() ==> parsed_check(name + seq!['='] + s.name()) == Ok::<
            VerificationCheckView,
            ErrorView,
        >(VerificationCheckView { name, status: s, detail: None }),
        lowercased(s.name()) == s.name() ==> parsed_check(
            name + seq!['='] + s.name() + seq![':'] + detail,
        ) == Ok::<VerificationCheckView, ErrorView>(
            VerificationCheckView { name, status: s, detail: Some(detail) },
        ),
{
    texts_are_parted_at_the_first(name, '=', s.name());
    lemma_status_has_no_colon(s);
    verification_status_names_read_back(s);
    let rest = s.name() + seq![':'] + detail;
    assert(name + seq!['='] + s.name() + seq![':'] + detail =~= name + seq!['='] + rest);
    texts_are_parted_at_the_first(name, '=', rest);
    texts_are_parted_at_the_first(s.name(), ':', detail);
}

proof fn lemma_status_has_no_colon(s: VerificationStatus)
    ensures
        !s.name().contains(':'),
{
    reveal_strlit("passed");
    reveal_strlit("failed");
    reveal_strlit("error");
    reveal_strlit("skipped");
    if s.name().contains(':') {
        let k = choose|k: int| 0 <= k < s.name().len() && s.name()[k] == ':';
        assert(s.name()[k] != ':');
    }
}

// -------------------------------------------------------------------------- listing

/// The last of some runs, at most so many.
pub open spec fn last_of(runs: Seq<VerificationRunView>, limit: Option<usize>) -> Seq<
    VerificationRunView,
> {
    match limit {
        Some(n) => if n < runs.len() {
            runs.skip(runs.len() - n)
        } else {
            runs
        },
        None => runs,
    }
}

/// The runs of an issue as they are listed: the newest last, and of more than `limit` the
/// newest.
pub fn list_runs(
    store: &VerificationStore,
    runs: &Vec<VerificationRun>,
    issue_id: &str,
    limit: Option<usize>,
) -> (r: Vec<VerificationRun>)
    ensures
        r.deep_view() == last_of(recorded_runs(runs.deep_view(), issue_id@), limit),
{
    let all = store.for_issue(runs, issue_id);
    let ghost d = all.deep_view();
    assert(d.len() == all@.len());
    let first: usize = match limit {
        Some(n) => if n < all.len() {
            all.len() - n
        } else {
            0
        },
        None => 0,
    };
    let mut r: Vec<VerificationRun> = Vec::new();
    let mut i: usize = first;
    while i < all.len()
        invariant
            first <= i <= all.len(),
            d == all.deep_view(),
            d.len() == all@.len(),
            r@.len() == i - first,
            forall|k: int| 0 <= k < r@.len() ==> (#[trigger] r@[k])@ == d[first + k],
        decreases all.len() - i,
    {
        assert(d[i as int] == all@[i as int]@);
        r.push(all[i].copy());
        i += 1;
    }
    assert(r.deep_view() =~= last_of(d, limit));
    r
}

/// Law: what is given on the command line wins over a record, and the record counts where
/// nothing is given.
pub proof fn given_values_win_over_a_record<V>(given: V, record: Option<V>, list: Seq<V>, other: Seq<V>)
    ensures
        first_of(Some(given), record) == Some(given),
        first_of(None, record) == record,
        list.len() > 0 ==> first_list(list, other) == list,
        list.len() == 0 ==> first_list(list, other) == other,
{
}

/// Law: of more runs than the limit the last are listed, in their order.
pub proof fn last_runs_are_listed(runs: Seq<VerificationRunView>, limit: Option<usize>, back: int)
    ensures
        limit is None ==> last_of(runs, limit) == runs,
        limit is Some ==> last_of(runs, limit).len() == (if runs.len() < limit->0 {
            runs.len()
        } else {
            limit->0 as nat
        }),
        0 <= back < last_of(runs, limit).len() ==> last_of(runs, limit)[last_of(runs, limit).len()
            - 1 - back] == runs[runs.len() - 1 - back],
{
}

} // verus!
