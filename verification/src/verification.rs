//! Runs of checks, and the policy that asks for them before an issue is closed.
use crate::error::{Error, ErrorView};
use crate::events::{same_list, same_opt};
use crate::issue::{copy_texts, Issue, IssueView};
use crate::jsonl::{
    appended_value_reads_back, framed, framed_all, is_framed, is_line, keep_well_formed,
    line_values, log_values, numbered, parses, skipped_numbers, values_in, well_formed, LogLine,
    LogLineView,
};
use crate::path::{join_path, joined_path};
use crate::sort::{stable_sort, stable_sorted, Order};
use crate::text::{
    ascii_lowered, eq_ignore_ascii_case, is_ascii_text, lemma_filter_push, lines_of, lowercased,
    same_text, to_lowercase,
};
use crate::time::Timestamp;
use vstd::prelude::*;

verus! {

/// Outcome of a verification run.
#[derive(Clone, Copy, Debug, PartialEq, Eq, Hash, Structural)]
pub enum VerificationStatus {
    Passed,
    Failed,
    Error,
    Skipped,
}

/// One named check within a run.
#[derive(Clone, Debug, PartialEq, Eq)]
pub struct VerificationCheck {
    pub name: String,
    pub status: VerificationStatus,
    pub detail: Option<String>,
}

/// A record of one run. It is never changed once it is in the log.
#[derive(Clone, Debug, PartialEq, Eq)]
pub struct VerificationRun {
    /// Identifies the run among those of its issue.
    pub run_id: String,
    pub issue_id: String,
    pub status: VerificationStatus,
    /// The revision that was verified, most often a commit id.
    pub revision: Option<String>,
    pub timestamp: Timestamp,
    pub environment: Option<String>,
    pub scenario: Option<String>,
    pub command: Option<String>,
    pub summary: Option<String>,
    /// References to artifacts, never resolved.
    pub artifacts: Vec<String>,
    pub checks: Vec<VerificationCheck>,
    /// Known gaps.
    pub gaps: Option<String>,
}

pub struct VerificationCheckView {
    pub name: Seq<char>,
    pub status: VerificationStatus,
    pub detail: Option<Seq<char>>,
}

pub struct VerificationRunView {
    pub run_id: Seq<char>,
    pub issue_id: Seq<char>,
    pub status: VerificationStatus,
    pub revision: Option<Seq<char>>,
    pub timestamp: Timestamp,
    pub environment: Option<Seq<char>>,
    pub scenario: Option<Seq<char>>,
    pub command: Option<Seq<char>>,
    pub summary: Option<Seq<char>>,
    pub artifacts: Seq<Seq<char>>,
    pub checks: Seq<VerificationCheckView>,
    pub gaps: Option<Seq<char>>,
}

impl DeepView for VerificationCheck {
    type V = VerificationCheckView;

    open spec fn deep_view(&self) -> VerificationCheckView {
        VerificationCheckView {
            name: self.name@,
            status: self.status,
            detail: self.detail.deep_view(),
        }
    }
}

impl View for VerificationRun {
    type V = VerificationRunView;

    open spec fn view(&self) -> VerificationRunView {
        VerificationRunView {
            run_id: self.run_id@,
            issue_id: self.issue_id@,
            status: self.status,
            revision: self.revision.deep_view(),
            timestamp: self.timestamp,
            environment: self.environment.deep_view(),
            scenario: self.scenario.deep_view(),
            command: self.command.deep_view(),
            summary: self.summary.deep_view(),
            artifacts: self.artifacts.deep_view(),
            checks: self.checks.deep_view(),
            gaps: self.gaps.deep_view(),
        }
    }
}

impl DeepView for VerificationRun {
    type V = VerificationRunView;

    open spec fn deep_view(&self) -> VerificationRunView {
        self.view()
    }
}

impl VerificationStatus {
    pub open spec fn name(self) -> Seq<char> {
        match self {
            VerificationStatus::Passed => "passed"@,
            VerificationStatus::Failed => "failed"@,
            VerificationStatus::Error => "error"@,
            VerificationStatus::Skipped => "skipped"@,
        }
    }

    /// The status that a lower-case text names.
    pub open spec fn parsed_lower(s: Seq<char>) -> Option<VerificationStatus> {
        if s == "passed"@ || s == "pass"@ || s == "ok"@ || s == "success"@ {
            Some(VerificationStatus::Passed)
        } else if s == "failed"@ || s == "fail"@ {
            Some(VerificationStatus::Failed)
        } else if s == "error"@ || s == "errored"@ {
            Some(VerificationStatus::Error)
        } else if s == "skipped"@ || s == "skip"@ || s == "ignored"@ {
            Some(VerificationStatus::Skipped)
        } else {
            None
        }
    }

    /// Whether the run passed.
    pub fn is_pass(&self) -> (r: bool)
        ensures
            r == (*self == VerificationStatus::Passed),
    {
        matches!(self, VerificationStatus::Passed)
    }

    pub fn text(&self) -> (r: &'static str)
        ensures
            r@ == self.name(),
    {
        match self {
            VerificationStatus::Passed => "passed",
            VerificationStatus::Failed => "failed",
            VerificationStatus::Error => "error",
            VerificationStatus::Skipped => "skipped",
        }
    }

    /// The status that a lower-case text names.
    pub fn parse_lower(s: &str) -> (r: Option<VerificationStatus>)
        ensures
            r == VerificationStatus::parsed_lower(s@),
    {
        if same_text(s, "passed") || same_text(s, "pass") || same_text(s, "ok") || same_text(
            s,
            "success",
        ) {
            Some(VerificationStatus::Passed)
        } else if same_text(s, "failed") || same_text(s, "fail") {
            Some(VerificationStatus::Failed)
        } else if same_text(s, "error") || same_text(s, "errored") {
            Some(VerificationStatus::Error)
        } else if same_text(s, "skipped") || same_text(s, "skip") || same_text(s, "ignored") {
            Some(VerificationStatus::Skipped)
        } else {
            None
        }
    }

    /// Reads a status from its name or an alias, whatever the case.
    pub fn parse(s: &str) -> (r: Result<VerificationStatus, Error>)
        ensures
            match VerificationStatus::parsed_lower(lowercased(s@)) {
                Some(x) => r == Ok::<VerificationStatus, Error>(x),
                None => r is Err && r->Err_0@ == ErrorView::Other(
                    "invalid verification status: '"@ + s@
                        + "' (expected passed, failed, error, or skipped)"@,
                ),
            },
            is_ascii_text(s@) ==> VerificationStatus::parsed_lower(lowercased(s@))
                == VerificationStatus::parsed_lower(ascii_lowered(s@)),
    {
        let lower = to_lowercase(s);
        match VerificationStatus::parse_lower(&lower) {
            Some(x) => Ok(x),
            None => {
                let mut m = "invalid verification status: '".to_owned();
                m.append(s);
                m.append("' (expected passed, failed, error, or skipped)");
                Err(Error::Other(m))
            },
        }
    }
}

impl std::str::FromStr for VerificationStatus {
    type Err = Error;

    fn from_str(s: &str) -> (r: Result<VerificationStatus, Error>)
        ensures
            match VerificationStatus::parsed_lower(lowercased(s@)) {
                Some(x) => r == Ok::<VerificationStatus, Error>(x),
                None => r is Err && r->Err_0@ == ErrorView::Other(
                    "invalid verification status: '"@ + s@
                        + "' (expected passed, failed, error, or skipped)"@,
                ),
            },
            is_ascii_text(s@) ==> VerificationStatus::parsed_lower(lowercased(s@))
                == VerificationStatus::parsed_lower(ascii_lowered(s@)),
    {
        VerificationStatus::parse(s)
    }
}

impl Default for VerificationStatus {
    fn default() -> (r: VerificationStatus)
        ensures
            r == VerificationStatus::Passed,
    {
        VerificationStatus::Passed
    }
}

/// The name of a status is ASCII, is its own lower-case form, and reads back as the status.
pub proof fn verification_status_names_read_back(s: VerificationStatus)
    ensures
        is_ascii_text(s.name()),
        ascii_lowered(s.name()) == s.name(),
        VerificationStatus::parsed_lower(ascii_lowered(s.name())) == Some(s),
{
    reveal_strlit("passed");
    reveal_strlit("pass");
    reveal_strlit("ok");
    reveal_strlit("success");
    reveal_strlit("failed");
    reveal_strlit("fail");
    reveal_strlit("error");
    reveal_strlit("errored");
    reveal_strlit("skipped");
    reveal_strlit("skip");
    reveal_strlit("ignored");
    assert(ascii_lowered(s.name()) =~= s.name());
    assert("passed"@.len() == 6 && "pass"@.len() == 4 && "ok"@.len() == 2 && "success"@.len() == 7
        && "failed"@.len() == 6 && "fail"@.len() == 4 && "error"@.len() == 5 && "errored"@.len()
        == 7 && "skipped"@.len() == 7);
    assert("passed"@[0] == 'p' && "failed"@[0] == 'f' && "success"@[1] == 'u' && "skipped"@[1]
        == 'k' && "errored"@[1] == 'r');
}

impl VerificationRunView {
    /// Every field but the time of recording agrees.
    pub open spec fn equivalent(self, other: VerificationRunView) -> bool {
        self == (VerificationRunView { timestamp: self.timestamp, ..other })
    }
}

fn same_checks(a: &Vec<VerificationCheck>, b: &Vec<VerificationCheck>) -> (r: bool)
    ensures
        r == (a.deep_view() == b.deep_view()),
{
    if a.len() != b.len() {
        assert(a.deep_view().len() != b.deep_view().len());
        return false;
    }
    let mut i: usize = 0;
    while i < a.len()
        invariant
            i <= a.len(),
            a.len() == b.len(),
            forall|j: int| 0 <= j < i ==> (#[trigger] a@[j]).deep_view() == b@[j].deep_view(),
        decreases a.len() - i,
    {
        if !(same_text(&a[i].name, &b[i].name) && a[i].status == b[i].status && same_opt(
            &a[i].detail,
            &b[i].detail,
        )) {
            assert(a.deep_view()[i as int] != b.deep_view()[i as int]);
            return false;
        }
        i += 1;
    }
    assert(a.deep_view() =~= b.deep_view());
    true
}

fn copy_checks(v: &Vec<VerificationCheck>) -> (r: Vec<VerificationCheck>)
    ensures
        r.deep_view() == v.deep_view(),
{
    let mut r: Vec<VerificationCheck> = Vec::new();
    let mut i: usize = 0;
    while i < v.len()
        invariant
            i <= v.len(),
            r.len() == i,
            forall|j: int| 0 <= j < i ==> (#[trigger] r@[j]).deep_view() == v@[j].deep_view(),
        decreases v.len() - i,
    {
        r.push(
            VerificationCheck {
                name: v[i].name.clone(),
                status: v[i].status,
                detail: v[i].detail.clone(),
            },
        );
        i += 1;
    }
    assert(r.deep_view() =~= v.deep_view());
    r
}

impl VerificationRun {
    /// Whether two runs agree in all but the time of recording. A run that is submitted
    /// again is then no conflict.
    pub fn equivalent_to(&self, other: &VerificationRun) -> (r: bool)
        ensures
            r == self@.equivalent(other@),
    {
        same_text(&self.run_id, &other.run_id) && same_text(&self.issue_id, &other.issue_id)
            && self.status == other.status && same_opt(&self.revision, &other.revision) && same_opt(
            &self.environment,
            &other.environment,
        ) && same_opt(&self.scenario, &other.scenario) && same_opt(&self.command, &other.command)
            && same_opt(&self.summary, &other.summary) && same_list(
            &self.artifacts,
            &other.artifacts,
        ) && same_checks(&self.checks, &other.checks) && same_opt(&self.gaps, &other.gaps)
    }

    pub fn copy(&self) -> (r: VerificationRun)
        ensures
            r@ == self@,
    {
        VerificationRun {
            run_id: self.run_id.clone(),
            issue_id: self.issue_id.clone(),
            status: self.status,
            revision: self.revision.clone(),
            timestamp: self.timestamp,
            environment: self.environment.clone(),
            scenario: self.scenario.clone(),
            command: self.command.clone(),
            summary: self.summary.clone(),
            artifacts: copy_texts(&self.artifacts),
            checks: copy_checks(&self.checks),
            gaps: self.gaps.clone(),
        }
    }
}

/// Equivalence of runs is an equivalence relation, and the time of recording plays no part.
pub proof fn equivalence_ignores_the_time(
    a: VerificationRunView,
    b: VerificationRunView,
    c: VerificationRunView,
    t: Timestamp,
)
    ensures
        a.equivalent(VerificationRunView { timestamp: t, ..a }),
        a.equivalent(b) ==> b.equivalent(a),
        a.equivalent(b) && b.equivalent(c) ==> a.equivalent(c),
{
}

/// When an issue may be closed. By default nothing is asked.
#[derive(Clone, Debug, PartialEq, Eq)]
pub struct VerificationConfig {
    /// The types of issues for which evidence is asked.
    pub require_for: Vec<String>,
    /// The latest run must have passed.
    pub require_pass: bool,
    /// The latest run must be of the current revision.
    pub require_current_revision: bool,
}

impl VerificationConfig {
    /// No type is listed, or nothing is asked.
    pub open spec fn inactive(self) -> bool {
        self.require_for@.len() == 0 || (!self.require_pass && !self.require_current_revision)
    }

    /// Whether issues of that type are listed, whatever the case.
    pub open spec fn lists_type(self, kind_name: Seq<char>) -> bool {
        exists|i: int|
            0 <= i < self.require_for@.len() && ascii_lowered((#[trigger] self.require_for@[i])@)
                == ascii_lowered(kind_name)
    }

    pub open spec fn gates(self, issue: IssueView) -> bool {
        !self.inactive() && self.lists_type(issue.issue_type.name())
    }

    /// Whether the policy asks nothing at all.
    pub fn is_inactive(&self) -> (r: bool)
        ensures
            r == self.inactive(),
    {
        self.require_for.len() == 0 || (!self.require_pass && !self.require_current_revision)
    }

    /// Whether the policy covers the type of this issue.
    pub fn gates_issue(&self, issue: &Issue) -> (r: bool)
        ensures
            r == self.gates(issue@),
    {
        if self.is_inactive() {
            return false;
        }
        let kind_name = issue.issue_type.text();
        let mut i: usize = 0;
        while i < self.require_for.len()
            invariant
                i <= self.require_for.len(),
                kind_name@ == issue@.issue_type.name(),
                !self.inactive(),
                forall|j: int|
                    0 <= j < i ==> ascii_lowered((#[trigger] self.require_for@[j])@)
                        != ascii_lowered(kind_name@),
            decreases self.require_for.len() - i,
        {
            if eq_ignore_ascii_case(&self.require_for[i], kind_name) {
                return true;
            }
            i += 1;
        }
        false
    }
}

impl Default for VerificationConfig {
    fn default() -> (r: VerificationConfig)
        ensures
            r.require_for@.len() == 0,
            !r.require_pass,
            !r.require_current_revision,
    {
        VerificationConfig {
            require_for: Vec::new(),
            require_pass: false,
            require_current_revision: false,
        }
    }
}

/// Whether an issue may be closed, and if not, why.
#[derive(Clone, Debug)]
pub struct CloseGateReport {
    pub allowed: bool,
    pub diagnostics: Vec<String>,
    /// The latest run for the issue, where one was looked at.
    pub latest_run: Option<VerificationRun>,
}

pub struct CloseGateView {
    pub allowed: bool,
    pub diagnostics: Seq<Seq<char>>,
    pub latest_run: Option<VerificationRunView>,
}

impl View for CloseGateReport {
    type V = CloseGateView;

    open spec fn view(&self) -> CloseGateView {
        CloseGateView {
            allowed: self.allowed,
            diagnostics: self.diagnostics.deep_view(),
            latest_run: self.latest_run.deep_view(),
        }
    }
}

impl CloseGateReport {
    fn allow(latest_run: Option<VerificationRun>) -> (r: CloseGateReport)
        ensures
            r@ == allowing(latest_run.deep_view()),
    {
        let r = CloseGateReport { allowed: true, diagnostics: Vec::new(), latest_run };
        assert(r.diagnostics.deep_view() =~= seq![]);
        r
    }

    fn block(latest_run: Option<VerificationRun>, diagnostic: String) -> (r: CloseGateReport)
        ensures
            r@ == blocking(latest_run.deep_view(), diagnostic@),
    {
        let mut diagnostics: Vec<String> = Vec::new();
        diagnostics.push(diagnostic);
        assert(diagnostics.deep_view() =~= seq![diagnostic@]);
        CloseGateReport { allowed: false, diagnostics, latest_run }
    }
}

pub open spec fn allowing(latest: Option<VerificationRunView>) -> CloseGateView {
    CloseGateView { allowed: true, diagnostics: seq![], latest_run: latest }
}

pub open spec fn blocking(
    latest: Option<VerificationRunView>,
    diagnostic: Seq<char>,
) -> CloseGateView {
    CloseGateView { allowed: false, diagnostics: seq![diagnostic], latest_run: latest }
}

/// The run with the latest time; of equal times the one that stands last.
pub open spec fn latest_of(runs: Seq<VerificationRunView>) -> Option<VerificationRunView>
    decreases runs.len(),
{
    if runs.len() == 0 {
        None
    } else {
        match latest_of(runs.drop_last()) {
            Some(best) => if best.timestamp.le(runs.last().timestamp) {
                Some(runs.last())
            } else {
                Some(best)
            },
            None => Some(runs.last()),
        }
    }
}

/// The latest run. Of runs at the same time it is the one that stands last.
pub fn latest_run<'a>(runs: &[&'a VerificationRun]) -> (r: Option<&'a VerificationRun>)
    ensures
        r.deep_view() == latest_of(runs.deep_view()),
{
    let mut best: Option<&'a VerificationRun> = None;
    let ghost d = runs.deep_view();
    let mut i: usize = 0;
    assert(d.take(0) =~= seq![]);
    while i < runs.len()
        invariant
            i <= runs.len(),
            d == runs.deep_view(),
            best.deep_view() == latest_of(d.take(i as int)),
        decreases runs.len() - i,
    {
        let run = runs[i];
        assert(d[i as int] == run@);
        assert(d.take(i + 1).drop_last() =~= d.take(i as int));
        let later = match best {
            Some(b) => b.timestamp.at_most(&run.timestamp),
            None => true,
        };
        if later {
            best = Some(run);
        }
        i += 1;
    }
    assert(d.take(d.len() as int) =~= d);
    best
}

/// No run is later than the `k`th, and none behind it is as late.
pub open spec fn is_latest(runs: Seq<VerificationRunView>, k: int) -> bool {
    &&& 0 <= k < runs.len()
    &&& forall|j: int| 0 <= j < runs.len() ==> #[trigger] recorded_no_later(runs[j], runs[k])
    &&& forall|j: int| k < j < runs.len() ==> !#[trigger] recorded_no_later(runs[k], runs[j])
}

/// The place of the latest run.
spec fn latest_index(runs: Seq<VerificationRunView>) -> int
    decreases runs.len(),
{
    if runs.len() <= 1 {
        0
    } else {
        let k = latest_index(runs.drop_last());
        if recorded_no_later(runs[k], runs.last()) {
            runs.len() - 1
        } else {
            k
        }
    }
}

proof fn lemma_latest_index(runs: Seq<VerificationRunView>)
    requires
        runs.len() > 0,
    ensures
        is_latest(runs, latest_index(runs)),
        latest_of(runs) == Some(runs[latest_index(runs)]),
    decreases runs.len(),
{
    let front = runs.drop_last();
    if runs.len() == 1 {
        assert(latest_of(front) is None);
    } else {
        lemma_latest_index(front);
        let k = latest_index(front);
        let m = latest_index(runs);
        assert(front[k] == runs[k]);
        assert forall|j: int| 0 <= j < runs.len() implies #[trigger] recorded_no_later(
            runs[j],
            runs[m],
        ) by {
            if j < runs.len() - 1 {
                assert(recorded_no_later(front[j], front[k]));
            }
        }
        assert forall|j: int| m < j < runs.len() implies !#[trigger] recorded_no_later(
            runs[m],
            runs[j],
        ) by {
            if j < runs.len() - 1 {
                assert(!recorded_no_later(front[k], front[j]));
            }
        }
    }
}

/// The latest run is one of the runs; none is later, and none behind it is as late.
pub proof fn latest_run_is_latest(runs: Seq<VerificationRunView>)
    ensures
        runs.len() == 0 <==> latest_of(runs) is None,
        runs.len() > 0 ==> exists|k: int|
            #[trigger] is_latest(runs, k) && latest_of(runs) == Some(runs[k]),
{
    if runs.len() > 0 {
        lemma_latest_index(runs);
    }
}

/// A run that is appended and not earlier than the others becomes the latest.
pub proof fn later_run_supersedes(runs: Seq<VerificationRunView>, run: VerificationRunView)
    requires
        forall|j: int| 0 <= j < runs.len() ==> #[trigger] recorded_no_later(runs[j], run),
    ensures
        latest_of(runs.push(run)) == Some(run),
{
    assert(runs.push(run).drop_last() =~= runs);
    if runs.len() > 0 {
        lemma_latest_index(runs);
        assert(recorded_no_later(runs[latest_index(runs)], run));
    }
}

// ----------------------------------------------------------------------- gate

/// The runs of one issue.
pub open spec fn runs_of(
    runs: Seq<VerificationRunView>,
    issue_id: Seq<char>,
) -> Seq<VerificationRunView> {
    runs.filter(|r: VerificationRunView| r.issue_id == issue_id)
}

/// Whether an issue may be closed under a policy, given all runs and the current revision.
pub open spec fn close_gate(
    issue: IssueView,
    runs: Seq<VerificationRunView>,
    config: VerificationConfig,
    current: Option<Seq<char>>,
) -> CloseGateView {
    if !config.gates(issue) {
        allowing(None)
    } else {
        match latest_of(runs_of(runs, issue.id)) {
            None => blocking(
                None,
                "no verification evidence recorded for "@ + issue.id
                    + " (policy requires verification for type '"@ + issue.issue_type.name()
                    + "')"@,
            ),
            Some(latest) => if config.require_pass && latest.status != VerificationStatus::Passed {
                blocking(
                    Some(latest),
                    "latest verification "@ + latest.run_id + " for "@ + issue.id
                        + " has status '"@ + latest.status.name()
                        + "'; policy requires a passing run"@,
                )
            } else if config.require_current_revision {
                match current {
                    None => blocking(
                        Some(latest),
                        "require_current_revision is enabled but the current revision could not be determined (not a git repository?); record a run with --revision <current> for "@
                            + issue.id + " or close with --verification-override"@,
                    ),
                    Some(cur) => match latest.revision {
                        None => blocking(
                            Some(latest),
                            "latest verification "@ + latest.run_id + " for "@ + issue.id
                                + " has no recorded revision; require_current_revision requires proof targeting revision '"@
                                + cur + "'"@,
                        ),
                        Some(rev) => if rev != cur {
                            blocking(
                                Some(latest),
                                "stale evidence: latest verification "@ + latest.run_id + " for "@
                                    + issue.id + " targets revision '"@ + rev
                                    + "', current revision is '"@ + cur + "'"@,
                            )
                        } else {
                            allowing(Some(latest))
                        },
                    },
                }
            } else {
                allowing(Some(latest))
            },
        }
    }
}

fn runs_for<'a>(runs: &'a [VerificationRun], issue_id: &str) -> (r: Vec<&'a VerificationRun>)
    ensures
        r.deep_view() == runs_of(runs.deep_view(), issue_id@),
{
    let ghost d = runs.deep_view();
    let ghost f = |x: VerificationRunView| x.issue_id == issue_id@;
    let mut r: Vec<&'a VerificationRun> = Vec::new();
    let mut i: usize = 0;
    proof {
        reveal(Seq::filter);
        assert(d.take(0) =~= seq![]);
        assert(r.deep_view() =~= d.take(0).filter(f));
    }
    while i < runs.len()
        invariant
            i <= runs.len(),
            d == runs.deep_view(),
            f == (|x: VerificationRunView| x.issue_id == issue_id@),
            r.deep_view() == d.take(i as int).filter(f),
        decreases runs.len() - i,
    {
        let ghost before = r.deep_view();
        let run = &runs[i];
        assert(d[i as int] == run@);
        proof {
            lemma_filter_push(d.take(i as int), run@, f);
            assert(d.take(i + 1) =~= d.take(i as int).push(run@));
        }
        if same_text(&run.issue_id, issue_id) {
            r.push(run);
            assert(r.deep_view() =~= before.push(run@));
        }
        i += 1;
    }
    assert(d.take(d.len() as int) =~= d);
    r
}

/// Decides whether `issue` may be closed. `current_revision` is missing where it could not
/// be determined.
pub fn evaluate_close_gate(
    issue: &Issue,
    runs: &[VerificationRun],
    config: &VerificationConfig,
    current_revision: Option<&str>,
) -> (r: CloseGateReport)
    ensures
        r@ == close_gate(issue@, runs.deep_view(), *config, current_revision.deep_view()),
{
    if !config.gates_issue(issue) {
        return CloseGateReport::allow(None);
    }
    let issue_runs = runs_for(runs, &issue.id);
    let slice = issue_runs.as_slice();
    assert(slice.deep_view() =~= issue_runs.deep_view());
    let latest = match latest_run(slice) {
        Some(latest) => latest,
        None => {
            let mut m = "no verification evidence recorded for ".to_owned();
            m.append(&issue.id);
            m.append(" (policy requires verification for type '");
            m.append(issue.issue_type.text());
            m.append("')");
            return CloseGateReport::block(None, m);
        },
    };
    if config.require_pass && !latest.status.is_pass() {
        let mut m = "latest verification ".to_owned();
        m.append(&latest.run_id);
        m.append(" for ");
        m.append(&issue.id);
        m.append(" has status '");
        m.append(latest.status.text());
        m.append("'; policy requires a passing run");
        return CloseGateReport::block(Some(latest.copy()), m);
    }
    if config.require_current_revision {
        let current = match current_revision {
            Some(c) => c,
            None => {
                let mut m =
                    "require_current_revision is enabled but the current revision could not be determined (not a git repository?); record a run with --revision <current> for ".to_owned();
                m.append(&issue.id);
                m.append(" or close with --verification-override");
                return CloseGateReport::block(Some(latest.copy()), m);
            },
        };
        match &latest.revision {
            None => {
                let mut m = "latest verification ".to_owned();
                m.append(&latest.run_id);
                m.append(" for ");
                m.append(&issue.id);
                m.append(
                    " has no recorded revision; require_current_revision requires proof targeting revision '",
                );
                m.append(current);
                m.append("'");
                return CloseGateReport::block(Some(latest.copy()), m);
            },
            Some(rev) => {
                if !same_text(rev, current) {
                    let mut m = "stale evidence: latest verification ".to_owned();
                    m.append(&latest.run_id);
                    m.append(" for ");
                    m.append(&issue.id);
                    m.append(" targets revision '");
                    m.append(rev);
                    m.append("', current revision is '");
                    m.append(current);
                    m.append("'");
                    return CloseGateReport::block(Some(latest.copy()), m);
                }
            },
        }
    }
    CloseGateReport::allow(Some(latest.copy()))
}

/// A policy that asks nothing lets every issue be closed.
pub proof fn inactive_policy_allows(
    issue: IssueView,
    runs: Seq<VerificationRunView>,
    config: VerificationConfig,
    current: Option<Seq<char>>,
)
    requires
        config.inactive(),
    ensures
        close_gate(issue, runs, config, current).allowed,
{
}

/// A covered issue may be closed exactly where it has a run, the latest one passed if that
/// is asked, and it is of the current revision if that is asked. Where it may not be
/// closed there is one reason, where it may there is none.
pub proof fn gate_is_exact(
    issue: IssueView,
    runs: Seq<VerificationRunView>,
    config: VerificationConfig,
    current: Option<Seq<char>>,
)
    requires
        config.gates(issue),
    ensures
        close_gate(issue, runs, config, current).allowed <==> ({
            &&& latest_of(runs_of(runs, issue.id)) matches Some(latest)
            &&& config.require_pass ==> latest.status == VerificationStatus::Passed
            &&& config.require_current_revision ==> current is Some && latest.revision == current
        }),
        close_gate(issue, runs, config, current).diagnostics.len() == (if close_gate(
            issue,
            runs,
            config,
            current,
        ).allowed {
            0int
        } else {
            1int
        }),
{
}

/// Runs of other issues have no say.
pub proof fn runs_of_others_do_not_count(
    issue: IssueView,
    runs: Seq<VerificationRunView>,
    other: VerificationRunView,
    config: VerificationConfig,
    current: Option<Seq<char>>,
)
    requires
        other.issue_id != issue.id,
    ensures
        close_gate(issue, runs.push(other), config, current) == close_gate(
            issue,
            runs,
            config,
            current,
        ),
{
    lemma_filter_push(runs, other, |r: VerificationRunView| r.issue_id == issue.id);
}

/// The policy asks for proof before this issue is closed: it asks for a pass or for the current
/// revision, and the type of the issue is one of those that it lists, whatever the case.
pub open spec fn asks_for_proof(config: VerificationConfig, issue: IssueView) -> bool {
    &&& config.require_pass || config.require_current_revision
    &&& exists|k: int|
        0 <= k < config.require_for@.len() && ascii_lowered((#[trigger] config.require_for@[k])@)
            == ascii_lowered(issue.issue_type.name())
}

/// The `k`th run is the last word on an issue: a run of it, none later, and none behind it at the
/// same time.
pub open spec fn is_last_word(runs: Seq<VerificationRunView>, id: Seq<char>, k: int) -> bool {
    &&& 0 <= k < runs.len()
    &&& runs[k].issue_id == id
    &&& forall|j: int|
        0 <= j < runs.len() && (#[trigger] runs[j]).issue_id == id ==> !runs[k].timestamp.lt(
            runs[j].timestamp,
        ) && (j > k ==> runs[j].timestamp.lt(runs[k].timestamp))
}

proof fn lemma_last_word(runs: Seq<VerificationRunView>, id: Seq<char>)
    ensures
        latest_of(runs_of(runs, id)) matches Some(r) ==> exists|k: int|
            #[trigger] is_last_word(runs, id, k) && runs[k] == r,
        latest_of(runs_of(runs, id)) is None ==> forall|j: int|
            0 <= j < runs.len() ==> (#[trigger] runs[j]).issue_id != id,
    decreases runs.len(),
{
    if runs.len() == 0 {
        assert(runs_of(runs, id) =~= seq![]) by {
            reveal(Seq::filter);
        }
    } else {
        let front = runs.drop_last();
        let x = runs.last();
        let f = |r: VerificationRunView| r.issue_id == id;
        lemma_last_word(front, id);
        lemma_filter_push(front, x, f);
        assert(front.push(x) =~= runs);
        let of_front = runs_of(front, id);
        assert(of_front.push(x).drop_last() =~= of_front);
        assert(runs[runs.len() - 1] == x);
        if x.issue_id == id {
            match latest_of(of_front) {
                Some(best) => {
                    let k = choose|k: int|
                        #[trigger] is_last_word(front, id, k) && front[k] == best;
                    if best.timestamp.le(x.timestamp) {
                        assert forall|j: int|
                            0 <= j < runs.len() && (#[trigger] runs[j]).issue_id
                                == id implies !x.timestamp.lt(runs[j].timestamp) by {
                            if j < front.len() {
                                assert(front[j] == runs[j]);
                            }
                        }
                        assert(is_last_word(runs, id, runs.len() - 1));
                    } else {
                        assert(runs[k] == front[k]);
                        assert forall|j: int|
                            0 <= j < runs.len() && (#[trigger] runs[j]).issue_id
                                == id implies !runs[k].timestamp.lt(runs[j].timestamp) && (j > k
                            ==> runs[j].timestamp.lt(runs[k].timestamp)) by {
                            if j < front.len() {
                                assert(front[j] == runs[j]);
                            }
                        }
                        assert(is_last_word(runs, id, k));
                    }
                },
                None => {
                    assert forall|j: int|
                        0 <= j < runs.len() && (#[trigger] runs[j]).issue_id == id implies j
                        == runs.len() - 1 by {
                        if j < front.len() {
                            assert(front[j] == runs[j]);
                        }
                    }
                    assert(is_last_word(runs, id, runs.len() - 1));
                },
            }
        } else {
            match latest_of(of_front) {
                Some(best) => {
                    let k = choose|k: int|
                        #[trigger] is_last_word(front, id, k) && front[k] == best;
                    assert(runs[k] == front[k]);
                    assert forall|j: int|
                        0 <= j < runs.len() && (#[trigger] runs[j]).issue_id
                            == id implies !runs[k].timestamp.lt(runs[j].timestamp) && (j > k
                        ==> runs[j].timestamp.lt(runs[k].timestamp)) by {
                        assert(front[j] == runs[j]);
                    }
                    assert(is_last_word(runs, id, k));
                },
                None => {
                    assert forall|j: int| 0 <= j < runs.len() implies (#[trigger] runs[j]).issue_id
                        != id by {
                        if j < front.len() {
                            assert(front[j] == runs[j]);
                        }
                    }
                },
            }
        }
    }
}

/// An issue may be closed exactly where the policy asks for no proof, or the last word on it is
/// such a proof: it passed, where that is asked, and is of the current revision, where that is.
pub proof fn closing_needs_the_proof_that_is_asked(
    issue: IssueView,
    runs: Seq<VerificationRunView>,
    config: VerificationConfig,
    current: Option<Seq<char>>,
)
    ensures
        close_gate(issue, runs, config, current).allowed <==> !asks_for_proof(config, issue)
            || exists|k: int|
            {
                &&& #[trigger] is_last_word(runs, issue.id, k)
                &&& config.require_pass ==> runs[k].status == VerificationStatus::Passed
                &&& config.require_current_revision ==> current is Some && runs[k].revision
                    == current
            },
        close_gate(issue, runs, config, current).allowed <==> close_gate(
            issue,
            runs,
            config,
            current,
        ).diagnostics.len() == 0,
{
    lemma_last_word(runs, issue.id);
    assert(config.gates(issue) <==> asks_for_proof(config, issue));
    if config.gates(issue) {
        match latest_of(runs_of(runs, issue.id)) {
            Some(latest) => {
                let w = choose|k: int|
                    #[trigger] is_last_word(runs, issue.id, k) && runs[k] == latest;
                assert forall|k: int| #[trigger] is_last_word(runs, issue.id, k) implies k == w by {
                    assert(runs[k].issue_id == issue.id);
                    assert(runs[w].issue_id == issue.id);
                }
            },
            None => {
                assert forall|k: int| !#[trigger] is_last_word(runs, issue.id, k) by {
                    if 0 <= k < runs.len() {
                        assert(runs[k].issue_id != issue.id);
                    }
                }
            },
        }
    }
}

// ---------------------------------------------------------------------- store

/// Runs by the time of recording.
pub struct ByRecordingTime;

pub open spec fn recorded_no_later(a: VerificationRunView, b: VerificationRunView) -> bool {
    a.timestamp.le(b.timestamp)
}

impl Order<VerificationRun> for ByRecordingTime {
    open spec fn le(&self, a: VerificationRunView, b: VerificationRunView) -> bool {
        recorded_no_later(a, b)
    }

    proof fn lawful(&self) {
    }

    fn at_most(&self, a: &VerificationRun, b: &VerificationRun) -> (r: bool) {
        a.timestamp.at_most(&b.timestamp)
    }
}

/// The first run of that issue with that id.
pub open spec fn found_run(
    runs: Seq<VerificationRunView>,
    issue_id: Seq<char>,
    run_id: Seq<char>,
) -> Option<VerificationRunView>
    decreases runs.len(),
{
    if runs.len() == 0 {
        None
    } else if runs[0].issue_id == issue_id && runs[0].run_id == run_id {
        Some(runs[0])
    } else {
        found_run(runs.drop_first(), issue_id, run_id)
    }
}

/// The log of verification runs of a `.trx` directory.
pub struct VerificationStore {
    path: String,
}

/// The runs of one issue, oldest first; at the same time, in file order.
pub open spec fn recorded_runs(
    runs: Seq<VerificationRunView>,
    issue_id: Seq<char>,
) -> Seq<VerificationRunView> {
    stable_sorted(
        runs_of(runs, issue_id),
        |a: VerificationRunView, b: VerificationRunView| recorded_no_later(a, b),
    )
}

impl VerificationStore {
    pub closed spec fn spec_path(self) -> Seq<char> {
        self.path@
    }

    /// The log of the given `.trx` directory.
    pub fn at(trx_dir: &str) -> (r: VerificationStore)
        ensures
            r.spec_path() == joined_path(trx_dir@, "verifications.jsonl"@),
    {
        VerificationStore { path: join_path(trx_dir, "verifications.jsonl") }
    }

    pub fn path(&self) -> (r: &String)
        ensures
            r@ == self.spec_path(),
    {
        &self.path
    }

    /// The runs of the log in file order, and the numbers of the lines that hold none.
    /// `parsed` holds what each line of the file that is not blank was read as.
    pub fn read_all(&self, lines: &Vec<LogLine>, parsed: Vec<Option<VerificationRun>>) -> (r: (
        Vec<VerificationRun>,
        Vec<usize>,
    ))
        requires
            lines.len() == parsed.len(),
        ensures
            r.0.deep_view() == well_formed(parsed.deep_view()),
            r.1@ == skipped_numbers(lines.deep_view(), parsed.deep_view()),
            forall|parse: spec_fn(Seq<char>) -> Option<VerificationRunView>| #[trigger]
                parses(lines.deep_view(), parsed.deep_view(), parse) ==> r.0.deep_view()
                    == values_in(lines.deep_view(), parse),
    {
        keep_well_formed(lines, parsed)
    }

    /// The runs of one issue, oldest first; at the same time, in file order.
    pub fn for_issue(&self, runs: &Vec<VerificationRun>, issue_id: &str) -> (r: Vec<
        VerificationRun,
    >)
        ensures
            r.deep_view() == recorded_runs(runs.deep_view(), issue_id@),
    {
        let all = runs.as_slice();
        assert(all.deep_view() =~= runs.deep_view());
        let found = runs_for(all, issue_id);
        let mut copies: Vec<VerificationRun> = Vec::new();
        let mut i: usize = 0;
        while i < found.len()
            invariant
                i <= found.len(),
                copies.len() == i,
                forall|j: int| 0 <= j < i ==> (#[trigger] copies@[j])@ == found@[j]@,
            decreases found.len() - i,
        {
            copies.push(found[i].copy());
            i += 1;
        }
        assert(copies.deep_view() =~= found.deep_view());
        let r = stable_sort(copies, &ByRecordingTime);
        assert((|a: VerificationRunView, b: VerificationRunView| recorded_no_later(a, b)) =~= (|
            a: VerificationRunView,
            b: VerificationRunView,
        | (ByRecordingTime).le(a, b)));
        r
    }

    /// The first run of that issue with that id.
    pub fn find(&self, runs: &Vec<VerificationRun>, issue_id: &str, run_id: &str) -> (r: Option<
        VerificationRun,
    >)
        ensures
            r.deep_view() == found_run(runs.deep_view(), issue_id@, run_id@),
    {
        let ghost d = runs.deep_view();
        let mut i: usize = 0;
        assert(d.skip(0) =~= d);
        while i < runs.len()
            invariant
                i <= runs.len(),
                d == runs.deep_view(),
                found_run(d, issue_id@, run_id@) == found_run(
                    d.skip(i as int),
                    issue_id@,
                    run_id@,
                ),
            decreases runs.len() - i,
        {
            assert(d[i as int] == runs@[i as int]@);
            assert(d.skip(i as int).drop_first() =~= d.skip(i + 1));
            if same_text(&runs[i].issue_id, issue_id) && same_text(&runs[i].run_id, run_id) {
                return Some(runs[i].copy());
            }
            i += 1;
        }
        None
    }
}

/// A run that is appended to the log is the last that `read_all` gives back; every earlier one
/// is still there, in file order and unchanged, and blank or malformed lines behind it add
/// nothing. `lines` and `parsed` are what stands in the log then and what it was read as.
pub proof fn appended_run_reads_back(
    content: Seq<char>,
    line: Seq<char>,
    rest: Seq<Seq<char>>,
    parse: spec_fn(Seq<char>) -> Option<VerificationRunView>,
    added: VerificationRunView,
    lines: Seq<LogLineView>,
    parsed: Seq<Option<VerificationRunView>>,
)
    requires
        is_framed(content),
        is_line(line),
        parse(line) == Some(added),
        forall|i: int|
            0 <= i < rest.len() ==> !(#[trigger] rest[i]).contains('\n') && line_values(
                rest[i],
                parse,
            ) == Seq::<VerificationRunView>::empty(),
        lines == numbered(lines_of(content + framed(line) + framed_all(rest))),
        parses(lines, parsed, parse),
    ensures
        well_formed(parsed) == log_values(content, parse).push(added),
{
    appended_value_reads_back(content, line, rest, parse, added);
    assert(parsed =~= Seq::new(lines.len(), |i: int| parse(lines[i].text)));
}

/// The runs of an issue are those of the log that are of it, from the oldest to the newest.
pub proof fn runs_are_listed_by_time(
    runs: Seq<VerificationRunView>,
    issue_id: Seq<char>,
    x: VerificationRunView,
)
    ensures
        recorded_runs(runs, issue_id).contains(x) <==> runs.contains(x) && x.issue_id == issue_id,
        forall|i: int, j: int|
            0 <= i < j < recorded_runs(runs, issue_id).len() ==> !(#[trigger] recorded_runs(
                runs,
                issue_id,
            )[j]).timestamp.lt((#[trigger] recorded_runs(runs, issue_id)[i]).timestamp),
{
    let f = |r: VerificationRunView| r.issue_id == issue_id;
    let le = |a: VerificationRunView, b: VerificationRunView| recorded_no_later(a, b);
    let own = runs_of(runs, issue_id);
    crate::filter::filtering_keeps_what_passes(runs, f, x);
    crate::sort::sorting_keeps_each(own, le, x);
    assert(crate::sort::is_total(le));
    assert(crate::sort::is_transitive(le));
    crate::sort::sorting_orders(own, le);
    let r = recorded_runs(runs, issue_id);
    assert forall|i: int, j: int| 0 <= i < j < r.len() implies !(#[trigger] r[j]).timestamp.lt(
        (#[trigger] r[i]).timestamp,
    ) by {
        assert(le(r[i], r[j]));
    }
}

/// A run is found under its issue and its id: the first of the log that has both.
pub proof fn runs_are_found_by_issue_and_id(
    runs: Seq<VerificationRunView>,
    issue_id: Seq<char>,
    run_id: Seq<char>,
    k: int,
)
    ensures
        0 <= k < runs.len() && runs[k].issue_id == issue_id && runs[k].run_id == run_id && (forall|
            j: int,
        |
            0 <= j < k ==> (#[trigger] runs[j]).issue_id != issue_id || runs[j].run_id != run_id)
            ==> found_run(runs, issue_id, run_id) == Some(runs[k]),
        (forall|j: int|
            0 <= j < runs.len() ==> (#[trigger] runs[j]).issue_id != issue_id || runs[j].run_id
                != run_id) ==> found_run(runs, issue_id, run_id) is None,
    decreases runs.len(),
{
    if runs.len() > 0 {
        let rest = runs.drop_first();
        runs_are_found_by_issue_and_id(rest, issue_id, run_id, k - 1);
        if 0 < k < runs.len() && runs[k].issue_id == issue_id && runs[k].run_id == run_id && (
        forall|j: int|
            0 <= j < k ==> (#[trigger] runs[j]).issue_id != issue_id || runs[j].run_id != run_id) {
            assert(runs[0].issue_id != issue_id || runs[0].run_id != run_id);
            assert(rest[k - 1] == runs[k]);
            assert forall|j: int| 0 <= j < k - 1 implies (#[trigger] rest[j]).issue_id != issue_id
                || rest[j].run_id != run_id by {
                assert(rest[j] == runs[j + 1]);
            }
        }
        if forall|j: int|
            0 <= j < runs.len() ==> (#[trigger] runs[j]).issue_id != issue_id || runs[j].run_id
                != run_id {
            assert(runs[0].issue_id != issue_id || runs[0].run_id != run_id);
            assert forall|j: int| 0 <= j < rest.len() implies (#[trigger] rest[j]).issue_id
                != issue_id || rest[j].run_id != run_id by {
                assert(rest[j] == runs[j + 1]);
            }
        }
    }
}

/// Two runs are the same submission exactly where all that they say agrees.
pub proof fn equivalent_runs_say_the_same(a: VerificationRunView, b: VerificationRunView)
    ensures
        a.equivalent(b) <==> {
            &&& a.run_id == b.run_id && a.issue_id == b.issue_id && a.status == b.status
            &&& a.revision == b.revision && a.environment == b.environment && a.scenario
                == b.scenario && a.command == b.command
            &&& a.summary == b.summary && a.artifacts == b.artifacts && a.checks == b.checks
                && a.gaps == b.gaps
        },
{
}

} // verus!
