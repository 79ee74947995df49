//! The issues of a repository, kept as a log of snapshots: for each issue the latest
//! snapshot counts.
use crate::attributes::{ensure_lines, gitattributes_lines, merge_attribute_lines, with_lines};
use crate::error::{Error, ErrorView};
use crate::id::child_id;
use crate::issue::{Issue, IssueView, Status};
use crate::path::{join_path, joined_path};
use crate::sort::{stable_sort, stable_sorted, Order};
use crate::text::{
    concat, is_space, lines_of, parse_unsigned, parsed_unsigned,
    same_text, split_lines, strip_prefix, stripped, text_at_most, text_le, trim,
    trim_end_matches, trim_start_matches, trimmed, trimmed_end_of, trimmed_start, trimmed_start_of,
    lemma_filter_push, lemma_text_order,
};
use crate::time::Timestamp;
use vstd::prelude::*;

verus! {

// -------------------------------------------------------------------- entries

/// The place of the entry with that id, or the number of entries.
pub open spec fn index_of(entries: Seq<IssueView>, id: Seq<char>) -> int
    decreases entries.len(),
{
    if entries.len() == 0 {
        0
    } else if entries[0].id == id {
        0
    } else {
        1 + index_of(entries.drop_first(), id)
    }
}

/// The issue with that id.
pub open spec fn lookup(entries: Seq<IssueView>, id: Seq<char>) -> Option<IssueView> {
    let i = index_of(entries, id);
    if i < entries.len() {
        Some(entries[i])
    } else {
        None
    }
}

/// No id occurs twice.
pub open spec fn distinct_ids(entries: Seq<IssueView>) -> bool {
    forall|i: int, j: int|
        0 <= i < j < entries.len() ==> (#[trigger] entries[i]).id != (#[trigger] entries[j]).id
}

/// The entries with `issue` in the place of the one with its id, or at the end.
pub open spec fn with_issue(entries: Seq<IssueView>, issue: IssueView) -> Seq<IssueView> {
    let i = index_of(entries, issue.id);
    if i < entries.len() {
        entries.update(i, issue)
    } else {
        entries.push(issue)
    }
}

/// The entries after a snapshot was read: it counts unless there is a later one.
pub open spec fn with_snapshot(entries: Seq<IssueView>, issue: IssueView) -> Seq<IssueView> {
    match lookup(entries, issue.id) {
        Some(current) => if current.updated_at.le(issue.updated_at) {
            with_issue(entries, issue)
        } else {
            entries
        },
        None => with_issue(entries, issue),
    }
}

/// What a log of snapshots, in file order, amounts to.
pub open spec fn replayed(log: Seq<IssueView>) -> Seq<IssueView>
    decreases log.len(),
{
    if log.len() == 0 {
        seq![]
    } else {
        with_snapshot(replayed(log.drop_last()), log.last())
    }
}

/// What a set of legacy documents amounts to: the last one for an id counts.
pub open spec fn collected(docs: Seq<IssueView>) -> Seq<IssueView>
    decreases docs.len(),
{
    if docs.len() == 0 {
        seq![]
    } else {
        with_issue(collected(docs.drop_last()), docs.last())
    }
}

pub proof fn lemma_index_of(entries: Seq<IssueView>, id: Seq<char>)
    ensures
        0 <= index_of(entries, id) <= entries.len(),
        index_of(entries, id) < entries.len() ==> entries[index_of(entries, id)].id == id,
        forall|j: int| 0 <= j < index_of(entries, id) ==> (#[trigger] entries[j]).id != id,
    decreases entries.len(),
{
    if entries.len() > 0 && entries[0].id != id {
        let rest = entries.drop_first();
        lemma_index_of(rest, id);
        assert forall|j: int| 0 <= j < index_of(entries, id) implies (#[trigger] entries[j]).id
            != id by {
            if j > 0 {
                assert(entries[j] == rest[j - 1]);
            }
        }
        if index_of(entries, id) < entries.len() {
            assert(entries[index_of(entries, id)] == rest[index_of(rest, id)]);
        }
    }
}

/// Every issue of a store is found under its id, and what is found under an id is an issue of
/// the store that has it.
pub proof fn issues_are_found_by_id(entries: Seq<IssueView>, x: IssueView, id: Seq<char>)
    requires
        distinct_ids(entries),
    ensures
        entries.contains(x) && x.id == id ==> lookup(entries, id) == Some(x),
        lookup(entries, id) == Some(x) ==> entries.contains(x) && x.id == id,
        lookup(entries, id) is None <==> forall|i: int|
            0 <= i < entries.len() ==> (#[trigger] entries[i]).id != id,
{
    lemma_index_of(entries, id);
    let k = index_of(entries, id);
    if entries.contains(x) && x.id == id {
        let i = choose|i: int| 0 <= i < entries.len() && entries[i] == x;
        lemma_index_unique(entries, id, i);
    }
    if k < entries.len() {
        assert(entries.contains(entries[k]));
    }
}

/// The entry with an id is the first that has it.
proof fn lemma_index_unique(entries: Seq<IssueView>, id: Seq<char>, i: int)
    requires
        0 <= i < entries.len(),
        entries[i].id == id,
        forall|j: int| 0 <= j < i ==> (#[trigger] entries[j]).id != id,
    ensures
        index_of(entries, id) == i,
{
    lemma_index_of(entries, id);
    let k = index_of(entries, id);
    if k < i {
        assert(entries[k].id != id);
    } else if i < k {
        assert(entries[i].id != id);
    }
}

/// What is put under an id is found under it, and nothing else changes.
pub proof fn put_is_found(entries: Seq<IssueView>, issue: IssueView, id: Seq<char>)
    ensures
        lookup(with_issue(entries, issue), id) == (if id == issue.id {
            Some(issue)
        } else {
            lookup(entries, id)
        }),
        distinct_ids(entries) ==> distinct_ids(with_issue(entries, issue)),
{
    let w = with_issue(entries, issue);
    let k = index_of(entries, issue.id);
    lemma_index_of(entries, issue.id);
    lemma_index_of(entries, id);
    lemma_index_of(w, id);
    assert forall|j: int| 0 <= j < entries.len() implies (#[trigger] w[j]).id == entries[j].id by {}
    if id == issue.id {
        assert forall|j: int| 0 <= j < k implies (#[trigger] w[j]).id != id by {
            assert(entries[j].id != id);
        }
        lemma_index_unique(w, id, k);
    } else {
        let i = index_of(entries, id);
        if i < entries.len() {
            assert forall|j: int| 0 <= j < i implies (#[trigger] w[j]).id != id by {
                assert(entries[j].id != id);
            }
            lemma_index_unique(w, id, i);
        } else {
            let m = index_of(w, id);
            if m < w.len() {
                assert(w[m].id == id);
                if m < entries.len() {
                    assert(entries[m].id != id);
                }
            }
        }
    }
    if distinct_ids(entries) {
        assert forall|i: int, j: int| 0 <= i < j < w.len() implies (#[trigger] w[i]).id != (
        #[trigger] w[j]).id by {
            assert(entries[i].id == w[i].id);
            if j < entries.len() {
                assert(entries[j].id == w[j].id);
            } else {
                assert(entries[i].id != issue.id);
            }
        }
    }
}

/// However a log came about, each id stands once in what it amounts to.
pub proof fn replayed_ids_are_distinct(log: Seq<IssueView>)
    ensures
        distinct_ids(replayed(log)),
    decreases log.len(),
{
    if log.len() > 0 {
        replayed_ids_are_distinct(log.drop_last());
        put_is_found(replayed(log.drop_last()), log.last(), log.last().id);
    }
}

proof fn lemma_collected_distinct(docs: Seq<IssueView>)
    ensures
        distinct_ids(collected(docs)),
    decreases docs.len(),
{
    if docs.len() > 0 {
        lemma_collected_distinct(docs.drop_last());
        put_is_found(collected(docs.drop_last()), docs.last(), docs.last().id);
    }
}

/// The snapshot at `k` wins for its id: no snapshot of that id is later, and none behind
/// it is as late.
pub open spec fn wins(log: Seq<IssueView>, k: int) -> bool {
    &&& 0 <= k < log.len()
    &&& forall|j: int|
        0 <= j < log.len() && (#[trigger] log[j]).id == log[k].id ==> log[j].updated_at.le(
            log[k].updated_at,
        )
    &&& forall|j: int|
        k < j < log.len() && (#[trigger] log[j]).id == log[k].id ==> log[j].updated_at.lt(
            log[k].updated_at,
        )
}

/// The place of the winning snapshot for an id, or -1.
spec fn winner(log: Seq<IssueView>, id: Seq<char>) -> int
    decreases log.len(),
{
    if log.len() == 0 {
        -1
    } else {
        let w = winner(log.drop_last(), id);
        if log.last().id == id && (w < 0 || log[w].updated_at.le(log.last().updated_at)) {
            log.len() - 1
        } else {
            w
        }
    }
}

proof fn lemma_winner(log: Seq<IssueView>, id: Seq<char>)
    ensures
        -1 <= winner(log, id) < log.len(),
        winner(log, id) >= 0 ==> wins(log, winner(log, id)) && log[winner(log, id)].id == id,
        winner(log, id) < 0 ==> forall|j: int| 0 <= j < log.len() ==> (#[trigger] log[j]).id != id,
        lookup(replayed(log), id) == (if winner(log, id) >= 0 {
            Some(log[winner(log, id)])
        } else {
            None
        }),
    decreases log.len(),
{
    if log.len() > 0 {
        let front = log.drop_last();
        let last = log.last();
        lemma_winner(front, id);
        let w = winner(front, id);
        let m = winner(log, id);
        put_is_found(replayed(front), last, id);
        if w >= 0 {
            assert(front[w] == log[w]);
        }
        if m >= 0 {
            assert(log[m].id == id);
            assert forall|j: int|
                0 <= j < log.len() && (#[trigger] log[j]).id == log[m].id implies log[j].updated_at.le(
                log[m].updated_at,
            ) by {
                if j < front.len() {
                    assert(front[j] == log[j]);
                }
            }
            assert forall|j: int|
                m < j < log.len() && (#[trigger] log[j]).id == log[m].id implies log[j].updated_at.lt(
                log[m].updated_at,
            ) by {
                if j < front.len() {
                    assert(front[j] == log[j]);
                }
            }
        } else {
            assert forall|j: int| 0 <= j < log.len() implies (#[trigger] log[j]).id != id by {
                if j < front.len() {
                    assert(front[j] == log[j]);
                }
            }
        }
    }
}

/// The latest snapshot of an issue counts, of equally late ones the last in the log; an
/// issue of which there is no snapshot is not there.
pub proof fn latest_snapshot_counts(log: Seq<IssueView>, id: Seq<char>)
    ensures
        match lookup(replayed(log), id) {
            Some(issue) => exists|k: int| #[trigger]
                wins(log, k) && log[k] == issue && issue.id == id,
            None => forall|j: int| 0 <= j < log.len() ==> (#[trigger] log[j]).id != id,
        },
{
    lemma_winner(log, id);
}

/// A snapshot that no other of its issue is later than, appended to the log, is what is
/// read back; every other issue is as before.
pub proof fn appended_snapshot_reads_back(log: Seq<IssueView>, issue: IssueView, id: Seq<char>)
    requires
        lookup(replayed(log), issue.id) matches Some(current) ==> current.updated_at.le(
            issue.updated_at,
        ),
    ensures
        replayed(log.push(issue)) == with_issue(replayed(log), issue),
        lookup(replayed(log.push(issue)), id) == (if id == issue.id {
            Some(issue)
        } else {
            lookup(replayed(log), id)
        }),
{
    assert(log.push(issue).drop_last() =~= log);
    put_is_found(replayed(log), issue, id);
}

/// A snapshot that is in the log already can be appended again without effect, as long as
/// it is not as late as the winner without being it.
pub proof fn repeated_winner_changes_nothing(log: Seq<IssueView>, id: Seq<char>)
    requires
        lookup(replayed(log), id) is Some,
    ensures
        replayed(log.push(lookup(replayed(log), id)->0)) == replayed(log),
{
    let r = replayed(log);
    let issue = lookup(r, id)->0;
    lemma_index_of(r, id);
    assert(issue.id == id);
    assert(log.push(issue).drop_last() =~= log);
    assert(with_issue(r, issue) =~= r);
}

/// An earlier snapshot that comes back, as a merge may bring it, changes nothing.
pub proof fn earlier_snapshot_changes_nothing(log: Seq<IssueView>, issue: IssueView)
    requires
        lookup(replayed(log), issue.id) matches Some(current) && issue.updated_at.lt(
            current.updated_at,
        ),
    ensures
        replayed(log.push(issue)) == replayed(log),
{
    assert(log.push(issue).drop_last() =~= log);
}

/// Two snapshots of an issue that are equally late are the same.
pub open spec fn no_ties(log: Seq<IssueView>) -> bool {
    forall|i: int, j: int|
        0 <= i < log.len() && 0 <= j < log.len() && (#[trigger] log[i]).id == (#[trigger] log[j]).id
            && log[i].updated_at == log[j].updated_at ==> log[i] == log[j]
}

/// Logs that hold the same snapshots, in whatever order and however often, as merges leave
/// them, give the same issues, unless two different snapshots of an issue are equally late.
pub proof fn merge_order_does_not_matter(a: Seq<IssueView>, b: Seq<IssueView>, id: Seq<char>)
    requires
        forall|x: IssueView| #[trigger] a.contains(x) <==> b.contains(x),
        no_ties(a),
    ensures
        lookup(replayed(a), id) == lookup(replayed(b), id),
{
    lemma_winner(a, id);
    lemma_winner(b, id);
    let i = winner(a, id);
    let j = winner(b, id);
    if i >= 0 {
        assert(a.contains(a[i]));
        assert(b.contains(a[i]));
        let m = choose|m: int| 0 <= m < b.len() && b[m] == a[i];
        assert(j >= 0 && b[m].updated_at.le(b[j].updated_at));
    }
    if j >= 0 {
        assert(b.contains(b[j]));
        assert(a.contains(b[j]));
        let n = choose|n: int| 0 <= n < a.len() && a[n] == b[j];
        assert(i >= 0 && a[n].updated_at.le(a[i].updated_at));
        a[n].updated_at.lemma_same_instant(a[i].updated_at);
        assert(a[n] == a[i]);
    }
}

proof fn lemma_replay_distinct(log: Seq<IssueView>)
    requires
        distinct_ids(log),
    ensures
        replayed(log) == log,
    decreases log.len(),
{
    if log.len() > 0 {
        let front = log.drop_last();
        assert(distinct_ids(front)) by {
            assert forall|i: int, j: int| 0 <= i < j < front.len() implies (#[trigger] front[i]).id
                != (#[trigger] front[j]).id by {
                assert(log[i].id != log[j].id);
            }
        }
        lemma_replay_distinct(front);
        lemma_index_of(front, log.last().id);
        let k = index_of(front, log.last().id);
        if k < front.len() {
            assert(log[k].id != log[log.len() - 1].id);
        }
        assert(front.push(log.last()) =~= log);
    } else {
        assert(replayed(log) =~= log);
    }
}

// ---------------------------------------------------------------------- order

/// Issues by id.
pub struct ById;

pub open spec fn id_le(a: IssueView, b: IssueView) -> bool {
    text_le(a.id, b.id)
}

impl Order<Issue> for ById {
    open spec fn le(&self, a: IssueView, b: IssueView) -> bool {
        id_le(a, b)
    }

    proof fn lawful(&self) {
        lemma_text_order();
    }

    fn at_most(&self, a: &Issue, b: &Issue) -> (r: bool) {
        text_at_most(&a.id, &b.id)
    }
}

/// The entries by id: what is written for a whole store.
pub open spec fn snapshot(entries: Seq<IssueView>) -> Seq<IssueView> {
    stable_sorted(entries, |a: IssueView, b: IssueView| id_le(a, b))
}

pub proof fn lemma_same_items<V>(a: Seq<V>, b: Seq<V>, x: V)
    requires
        a.to_multiset() == b.to_multiset(),
        a.contains(x),
    ensures
        b.contains(x),
{
    broadcast use vstd::seq_lib::group_to_multiset_ensures;

    assert(a.to_multiset().count(x) > 0);
}

proof fn lemma_permuted_distinct(a: Seq<IssueView>, b: Seq<IssueView>)
    requires
        a.to_multiset() == b.to_multiset(),
        distinct_ids(a),
    ensures
        distinct_ids(b),
{
    broadcast use vstd::seq_lib::group_to_multiset_ensures;

    assert forall|i: int, j: int| 0 <= i < j < b.len() implies (#[trigger] b[i]).id != (#[trigger]
    b[j]).id by {
        if b[i].id == b[j].id {
            lemma_same_items(b, a, b[i]);
            lemma_same_items(b, a, b[j]);
            let p = choose|p: int| 0 <= p < a.len() && a[p] == b[i];
            let q = choose|q: int| 0 <= q < a.len() && a[q] == b[j];
            if p < q {
                assert(a[p].id != a[q].id);
            } else if q < p {
                assert(a[q].id != a[p].id);
            } else {
                assert(b[i] == b[j]);
                assert(a.no_duplicates()) by {
                    assert forall|x: int, y: int|
                        0 <= x < a.len() && 0 <= y < a.len() && x != y implies a[x] != a[y] by {
                        if x < y {
                            assert(a[x].id != a[y].id);
                        } else {
                            assert(a[y].id != a[x].id);
                        }
                    }
                }
                a.lemma_multiset_has_no_duplicates();
                assert(b.to_multiset().count(b[i]) <= 1);
                let rest = b.remove(j);
                assert(b =~= rest.insert(j, b[j]));
                assert(rest[i] == b[i]);
                assert(rest.to_multiset().count(b[i]) >= 1);
                assert(b.to_multiset() =~= rest.to_multiset().insert(b[j]));
            }
        }
    }
}

proof fn lemma_lookup_member(entries: Seq<IssueView>, i: int)
    requires
        distinct_ids(entries),
        0 <= i < entries.len(),
    ensures
        lookup(entries, entries[i].id) == Some(entries[i]),
{
    assert forall|j: int| 0 <= j < i implies (#[trigger] entries[j]).id != entries[i].id by {}
    lemma_index_unique(entries, entries[i].id, i);
}

/// A log that holds the snapshot of a store, and nothing else, is read as that store.
pub proof fn compacted_log_reads_back(entries: Seq<IssueView>, id: Seq<char>)
    requires
        distinct_ids(entries),
    ensures
        lookup(replayed(snapshot(entries)), id) == lookup(entries, id),
        replayed(snapshot(entries)).len() == entries.len(),
{
    let le = |a: IssueView, b: IssueView| id_le(a, b);
    let s = snapshot(entries);
    crate::sort::sorting_keeps_items(entries, le);
    lemma_permuted_distinct(entries, s);
    lemma_replay_distinct(s);
    lemma_index_of(entries, id);
    lemma_index_of(s, id);
    let i = index_of(entries, id);
    let k = index_of(s, id);
    if i < entries.len() {
        lemma_same_items(entries, s, entries[i]);
        let p = choose|p: int| 0 <= p < s.len() && s[p] == entries[i];
        lemma_lookup_member(s, p);
    } else if k < s.len() {
        lemma_same_items(s, entries, s[k]);
        let p = choose|p: int| 0 <= p < entries.len() && entries[p] == s[k];
        assert(entries[p].id != id);
    }
}

// ---------------------------------------------------------------------- store

/// What was found on disk for a store.
pub enum Stored {
    /// The documents of a legacy layout, in the order in which they were found.
    Legacy(Vec<Issue>),
    /// The snapshots of the log, in file order; none where there is no log.
    Log(Vec<Issue>),
}

impl Stored {
    pub open spec fn is_legacy(self) -> bool {
        self is Legacy
    }

    /// What was found amounts to these entries.
    pub open spec fn amounts_to(self) -> Seq<IssueView> {
        match self {
            Stored::Legacy(docs) => collected(docs.deep_view()),
            Stored::Log(log) => replayed(log.deep_view()),
        }
    }
}

/// What is to be written for an issue that was put among the stored ones: all issues where
/// they came from a legacy layout, else that issue.
pub open spec fn lines_for(stored: Stored, issue: IssueView) -> Seq<IssueView> {
    if stored.is_legacy() {
        snapshot(with_issue(stored.amounts_to(), issue))
    } else {
        seq![issue]
    }
}

/// The log once lines were appended. The documents of a legacy layout leave no log.
pub open spec fn log_after(stored: Stored, lines: Seq<IssueView>) -> Seq<IssueView> {
    match stored {
        Stored::Legacy(_) => lines,
        Stored::Log(log) => log.deep_view() + lines,
    }
}

/// What is written for an issue that is created or updated reads back: that issue as it was
/// given, and every other as it was stored. Left out are updates that are older than what the
/// log holds of the issue.
pub proof fn written_issue_reads_back(stored: Stored, issue: IssueView, id: Seq<char>)
    requires
        match lookup(stored.amounts_to(), issue.id) {
            Some(current) => stored.is_legacy() || current.updated_at.le(issue.updated_at),
            None => true,
        },
    ensures
        lookup(replayed(log_after(stored, lines_for(stored, issue))), id) == (if id == issue.id {
            Some(issue)
        } else {
            lookup(stored.amounts_to(), id)
        }),
{
    match stored {
        Stored::Legacy(docs) => {
            let all = with_issue(stored.amounts_to(), issue);
            lemma_collected_distinct(docs.deep_view());
            put_is_found(stored.amounts_to(), issue, id);
            compacted_log_reads_back(all, id);
        },
        Stored::Log(log) => {
            appended_snapshot_reads_back(log.deep_view(), issue, id);
            assert(log.deep_view() + seq![issue] =~= log.deep_view().push(issue));
        },
    }
}

/// The issues of one repository.
pub struct Store {
    root: String,
    issues: Vec<Issue>,
    /// The issues came from a legacy layout: the next write has to hold all of them.
    migrate_pending: bool,
}

/// The children of `parent` in `entries` have numbers up to this one; 0 where there is none.
pub open spec fn max_child(entries: Seq<IssueView>, parent: Seq<char>) -> nat
    decreases entries.len(),
{
    if entries.len() == 0 {
        0
    } else {
        let rest = max_child(entries.drop_last(), parent);
        match child_number(entries.last().id, parent) {
            Some(n) => if n > rest {
                n
            } else {
                rest
            },
            None => rest,
        }
    }
}

/// The number in the id of a direct child of `parent`.
pub open spec fn child_number(id: Seq<char>, parent: Seq<char>) -> Option<nat> {
    match stripped(id, parent + "."@) {
        Some(suffix) => if suffix.contains('.') {
            None
        } else {
            parsed_unsigned(suffix, u32::MAX as nat)
        },
        None => None,
    }
}

fn find_issue(issues: &Vec<Issue>, id: &str) -> (r: usize)
    ensures
        r == index_of(issues.deep_view(), id@),
        r <= issues.len(),
{
    let ghost d = issues.deep_view();
    let mut i: usize = 0;
    assert(d.skip(0) =~= d);
    while i < issues.len()
        invariant
            i <= issues.len(),
            d == issues.deep_view(),
            index_of(d, id@) == i + index_of(d.skip(i as int), id@),
        decreases issues.len() - i,
    {
        assert(d[i as int] == issues@[i as int]@);
        assert(d.skip(i as int).drop_first() =~= d.skip(i + 1));
        if same_text(&issues[i].id, id) {
            return i;
        }
        i += 1;
    }
    i
}

fn put_issue(issues: &mut Vec<Issue>, issue: Issue)
    ensures
        final(issues).deep_view() == with_issue(old(issues).deep_view(), issue@),
{
    let ghost before = issues.deep_view();
    let i = find_issue(issues, &issue.id);
    if i < issues.len() {
        issues.set(i, issue);
        assert(issues.deep_view() =~= before.update(i as int, issue@));
    } else {
        issues.push(issue);
        assert(issues.deep_view() =~= before.push(issue@));
    }
}

pub fn copy_issues(v: &Vec<Issue>) -> (r: Vec<Issue>)
    ensures
        r.deep_view() == v.deep_view(),
{
    let mut r: Vec<Issue> = Vec::new();
    let mut i: usize = 0;
    while i < v.len()
        invariant
            i <= v.len(),
            r.len() == i,
            forall|j: int| 0 <= j < i ==> (#[trigger] r@[j])@ == v@[j]@,
        decreases v.len() - i,
    {
        r.push(v[i].copy());
        i += 1;
    }
    assert(r.deep_view() =~= v.deep_view());
    r
}

fn has_dot(s: &str) -> (r: bool)
    ensures
        r == s@.contains('.'),
{
    let v = crate::text::chars_of(s);
    let mut i: usize = 0;
    while i < v.len()
        invariant
            i <= v.len(),
            v@ == s@,
            forall|j: int| 0 <= j < i ==> s@[j] != '.',
        decreases v.len() - i,
    {
        if v[i] == '.' {
            assert(s@[i as int] == '.');
            return true;
        }
        i += 1;
    }
    false
}

impl Store {
    /// The issues, each id once.
    pub closed spec fn entries(self) -> Seq<IssueView> {
        self.issues.deep_view()
    }

    pub closed spec fn spec_root(self) -> Seq<char> {
        self.root@
    }

    pub closed spec fn pending(self) -> bool {
        self.migrate_pending
    }

    pub open spec fn wf(self) -> bool {
        distinct_ids(self.entries())
    }

    /// The store holds what was found on disk.
    pub open spec fn holds(self, stored: Stored) -> bool {
        self.entries() == stored.amounts_to() && self.pending() == stored.is_legacy()
    }

    /// Opens the store of the repository whose `.trx` directory was looked for from the
    /// current directory upwards.
    pub fn open(dirs: &Vec<DirProbe>, stored: Stored) -> (r: Result<Store, Error>)
        ensures
            match tracker_dir(dirs.deep_view()) {
                Some(k) => r is Ok && r->Ok_0.spec_root() == dirs.deep_view()[k].path && r->Ok_0.wf()
                    && r->Ok_0.holds(stored),
                None => r is Err && r->Err_0@ == ErrorView::NotInitialized,
            },
    {
        match find_root(dirs) {
            Ok(root) => Store::open_at(root, true, stored),
            Err(e) => Err(e),
        }
    }

    /// Opens the store at an explicit root.
    pub fn open_at(root: String, has_trx_dir: bool, stored: Stored) -> (r: Result<Store, Error>)
        ensures
            has_trx_dir ==> r is Ok && r->Ok_0.spec_root() == root@ && r->Ok_0.wf()
                && r->Ok_0.holds(stored),
            !has_trx_dir ==> r is Err && r->Err_0@ == ErrorView::NotInitialized,
    {
        if !has_trx_dir {
            return Err(Error::NotInitialized);
        }
        let mut store = Store { root, issues: Vec::new(), migrate_pending: false };
        store.load(stored);
        Ok(store)
    }

    /// A new, empty store.
    pub fn init(root: String, has_trx_dir: bool) -> (r: Result<Store, Error>)
        ensures
            !has_trx_dir ==> r is Ok && r->Ok_0.spec_root() == root@ && r->Ok_0.entries().len() == 0
                && r->Ok_0.wf() && !r->Ok_0.pending(),
            has_trx_dir ==> r is Err && r->Err_0@ == ErrorView::AlreadyInitialized(
                joined_path(root@, ".trx"@),
            ),
    {
        if has_trx_dir {
            return Err(Error::AlreadyInitialized(join_path(&root, ".trx")));
        }
        Ok(Store { root, issues: Vec::new(), migrate_pending: false })
    }

    pub fn trx_dir(&self) -> (r: String)
        ensures
            r@ == joined_path(self.spec_root(), ".trx"@),
    {
        join_path(&self.root, ".trx")
    }

    pub fn issues_path(&self) -> (r: String)
        ensures
            r@ == joined_path(joined_path(self.spec_root(), ".trx"@), "issues.jsonl"@),
    {
        join_path(&self.trx_dir(), "issues.jsonl")
    }

    /// Whether the issues came from a legacy layout that the next write replaces.
    pub fn migrate_pending(&self) -> (r: bool)
        ensures
            r == self.pending(),
    {
        self.migrate_pending
    }

    /// Replaces the issues by what was found on disk.
    pub fn load(&mut self, stored: Stored)
        ensures
            final(self).holds(stored),
            final(self).wf(),
            final(self).spec_root() == old(self).spec_root(),
    {
        match stored {
            Stored::Legacy(docs) => {
                let ghost d = docs.deep_view();
                let mut issues: Vec<Issue> = Vec::new();
                let mut i: usize = 0;
                assert(issues.deep_view() =~= collected(d.take(0)));
                while i < docs.len()
                    invariant
                        i <= docs.len(),
                        d == docs.deep_view(),
                        issues.deep_view() == collected(d.take(i as int)),
                    decreases docs.len() - i,
                {
                    assert(d.take(i + 1).drop_last() =~= d.take(i as int));
                    assert(d.take(i + 1).last() == docs@[i as int]@);
                    put_issue(&mut issues, docs[i].copy());
                    i += 1;
                }
                assert(d.take(d.len() as int) =~= d);
                proof {
                    lemma_collected_distinct(d);
                }
                self.issues = issues;
                self.migrate_pending = true;
            },
            Stored::Log(log) => {
                let ghost d = log.deep_view();
                let mut issues: Vec<Issue> = Vec::new();
                let mut i: usize = 0;
                assert(issues.deep_view() =~= replayed(d.take(0)));
                while i < log.len()
                    invariant
                        i <= log.len(),
                        d == log.deep_view(),
                        issues.deep_view() == replayed(d.take(i as int)),
                    decreases log.len() - i,
                {
                    assert(d.take(i + 1).drop_last() =~= d.take(i as int));
                    assert(d.take(i + 1).last() == log@[i as int]@);
                    let k = find_issue(&issues, &log[i].id);
                    let replace = if k < issues.len() {
                        assert(issues.deep_view()[k as int] == issues@[k as int]@);
                        issues[k].updated_at.at_most(&log[i].updated_at)
                    } else {
                        true
                    };
                    if replace {
                        put_issue(&mut issues, log[i].copy());
                    }
                    i += 1;
                }
                assert(d.take(d.len() as int) =~= d);
                proof {
                    replayed_ids_are_distinct(d);
                }
                self.issues = issues;
                self.migrate_pending = false;
            },
        }
    }

    /// The snapshots to append for the whole store, by id.
    pub fn save(&self) -> (r: Vec<Issue>)
        ensures
            r.deep_view() == snapshot(self.entries()),
    {
        let r = stable_sort(copy_issues(&self.issues), &ById);
        assert((|a: IssueView, b: IssueView| id_le(a, b)) =~= (|a: IssueView, b: IssueView|
            (ById).le(a, b)));
        r
    }

    /// The snapshots to append after `issue` changed: all of them where a legacy layout is
    /// to be replaced, else that issue's.
    pub fn persist_changed(&self, issue: &Issue) -> (r: Vec<Issue>)
        ensures
            r.deep_view() == (if self.pending() {
                snapshot(self.entries())
            } else {
                seq![issue@]
            }),
    {
        if self.migrate_pending {
            self.save()
        } else {
            let mut r: Vec<Issue> = Vec::new();
            r.push(issue.copy());
            assert(r.deep_view() =~= seq![issue@]);
            r
        }
    }

    /// Notes that the snapshots were written. Says whether the legacy files can go.
    pub fn finish_legacy_migration(&mut self) -> (r: bool)
        ensures
            r == old(self).pending(),
            !final(self).pending(),
            final(self).entries() == old(self).entries(),
            final(self).spec_root() == old(self).spec_root(),
    {
        let pending = self.migrate_pending;
        self.migrate_pending = false;
        pending
    }

    pub fn get(&self, id: &str) -> (r: Option<&Issue>)
        ensures
            r.deep_view() == lookup(self.entries(), id@),
    {
        let i = find_issue(&self.issues, id);
        if i < self.issues.len() {
            assert(self.issues.deep_view()[i as int] == self.issues@[i as int]@);
            Some(&self.issues[i])
        } else {
            None
        }
    }

    /// The issue with that id, to be changed in place. Its id must stay.
    pub fn get_mut(&mut self, id: &str) -> (r: Option<&mut Issue>)
        ensures
            match r {
                Some(issue) => {
                    &&& lookup(old(self).entries(), id@) == Some(issue@)
                    &&& final(self).entries() == old(self).entries().update(
                        index_of(old(self).entries(), id@),
                        final(issue)@,
                    )
                },
                None => lookup(old(self).entries(), id@) is None && *final(self) == *old(self),
            },
            final(self).spec_root() == old(self).spec_root(),
            final(self).pending() == old(self).pending(),
    {
        let i = find_issue(&self.issues, id);
        if i < self.issues.len() {
            assert(self.issues.deep_view()[i as int] == self.issues@[i as int]@);
            let ghost before = self.issues@;
            let r = &mut self.issues[i];
            proof {
                lemma_deep_update(before, i as int, *final(r));
            }
            Some(r)
        } else {
            None
        }
    }

    /// Adds an issue to what is on disk. Hands back the snapshots to append.
    pub fn create(&mut self, stored: Stored, issue: Issue) -> (r: Result<Vec<Issue>, Error>)
        ensures
            final(self).wf(),
            final(self).spec_root() == old(self).spec_root(),
            final(self).pending() == stored.is_legacy(),
            match lookup(stored.amounts_to(), issue@.id) {
                Some(_) => {
                    &&& r is Err && r->Err_0@ == ErrorView::AlreadyExists(issue@.id)
                    &&& final(self).entries() == stored.amounts_to()
                },
                None => {
                    &&& r is Ok && r->Ok_0.deep_view() == lines_for(stored, issue@)
                    &&& final(self).entries() == with_issue(stored.amounts_to(), issue@)
                },
            },
    {
        let ghost found = stored.amounts_to();
        self.load(stored);
        if self.get(&issue.id).is_some() {
            return Err(Error::AlreadyExists(issue.id));
        }
        proof {
            put_is_found(found, issue@, issue@.id);
        }
        put_issue(&mut self.issues, issue.copy());
        Ok(self.persist_changed(&issue))
    }

    /// Replaces an issue of what is on disk. Hands back the snapshots to append.
    pub fn update(&mut self, stored: Stored, issue: Issue) -> (r: Result<Vec<Issue>, Error>)
        ensures
            final(self).wf(),
            final(self).spec_root() == old(self).spec_root(),
            final(self).pending() == stored.is_legacy(),
            match lookup(stored.amounts_to(), issue@.id) {
                Some(_) => {
                    &&& r is Ok && r->Ok_0.deep_view() == lines_for(stored, issue@)
                    &&& final(self).entries() == with_issue(stored.amounts_to(), issue@)
                },
                None => {
                    &&& r is Err && r->Err_0@ == ErrorView::NotFound(issue@.id)
                    &&& final(self).entries() == stored.amounts_to()
                },
            },
    {
        let ghost found = stored.amounts_to();
        self.load(stored);
        if self.get(&issue.id).is_none() {
            return Err(Error::NotFound(issue.id));
        }
        proof {
            put_is_found(found, issue@, issue@.id);
        }
        put_issue(&mut self.issues, issue.copy());
        Ok(self.persist_changed(&issue))
    }

    /// Deletes an issue of what is on disk at `now`. Hands back the snapshots to append.
    pub fn delete_at(
        &mut self,
        stored: Stored,
        id: &str,
        by: Option<String>,
        reason: Option<String>,
        now: Timestamp,
    ) -> (r: Result<Vec<Issue>, Error>)
        ensures
            final(self).wf(),
            final(self).spec_root() == old(self).spec_root(),
            final(self).pending() == stored.is_legacy(),
            match lookup(stored.amounts_to(), id@) {
                Some(issue) => {
                    let gone = issue.after_delete(by.deep_view(), reason.deep_view(), now);
                    &&& r is Ok && r->Ok_0.deep_view() == (if stored.is_legacy() {
                        snapshot(final(self).entries())
                    } else {
                        seq![gone]
                    })
                    &&& final(self).entries() == with_issue(stored.amounts_to(), gone)
                },
                None => {
                    &&& r is Err && r->Err_0@ == ErrorView::NotFound(id@)
                    &&& final(self).entries() == stored.amounts_to()
                },
            },
    {
        let ghost found = stored.amounts_to();
        self.load(stored);
        let mut issue = match self.get(id) {
            Some(issue) => issue.copy(),
            None => return Err(Error::NotFound(id.to_owned())),
        };
        issue.delete_at(by, reason, now);
        proof {
            put_is_found(found, issue@, issue@.id);
        }
        put_issue(&mut self.issues, issue.copy());
        Ok(self.persist_changed(&issue))
    }

    /// Deletes an issue of what is on disk now. Hands back the snapshots to append.
    pub fn delete(
        &mut self,
        stored: Stored,
        id: &str,
        by: Option<String>,
        reason: Option<String>,
    ) -> (r: Result<Vec<Issue>, Error>)
        ensures
            final(self).wf(),
            final(self).spec_root() == old(self).spec_root(),
            final(self).pending() == stored.is_legacy(),
            match lookup(stored.amounts_to(), id@) {
                Some(issue) => exists|now: Timestamp| {
                    let gone = #[trigger] issue.after_delete(by.deep_view(), reason.deep_view(), now);
                    &&& r is Ok && r->Ok_0.deep_view() == (if stored.is_legacy() {
                        snapshot(final(self).entries())
                    } else {
                        seq![gone]
                    })
                    &&& final(self).entries() == with_issue(stored.amounts_to(), gone)
                },
                None => {
                    &&& r is Err && r->Err_0@ == ErrorView::NotFound(id@)
                    &&& final(self).entries() == stored.amounts_to()
                },
            },
    {
        let now = Timestamp::now();
        self.delete_at(stored, id, by, reason, now)
    }

    /// All issues, or all but the deleted ones.
    pub fn list(&self, include_tombstones: bool) -> (r: Vec<&Issue>)
        ensures
            r.deep_view() == listed(self.entries(), include_tombstones),
    {
        let ghost d = self.issues.deep_view();
        let ghost f = |i: IssueView| include_tombstones || i.status != Status::Tombstone;
        let mut r: Vec<&Issue> = Vec::new();
        let mut i: usize = 0;
        proof {
            reveal(Seq::filter);
            assert(d.take(0) =~= seq![]);
            assert(r.deep_view() =~= d.take(0).filter(f));
        }
        while i < self.issues.len()
            invariant
                i <= self.issues.len(),
                d == self.issues.deep_view(),
                f == (|i: IssueView| include_tombstones || i.status != Status::Tombstone),
                r.deep_view() == d.take(i as int).filter(f),
            decreases self.issues.len() - i,
        {
            let ghost before = r.deep_view();
            let issue = &self.issues[i];
            proof {
                lemma_filter_push(d.take(i as int), issue@, f);
                assert(d.take(i + 1) =~= d.take(i as int).push(issue@));
            }
            if include_tombstones || issue.status != Status::Tombstone {
                r.push(issue);
                assert(r.deep_view() =~= before.push(issue@));
            }
            i += 1;
        }
        assert(d.take(d.len() as int) =~= d);
        r
    }

    /// The issues on which work remains.
    pub fn list_open(&self) -> (r: Vec<&Issue>)
        ensures
            r.deep_view() == listed_open(self.entries()),
    {
        let ghost d = self.issues.deep_view();
        let ghost f = |i: IssueView| i.status.spec_is_open();
        let mut r: Vec<&Issue> = Vec::new();
        let mut i: usize = 0;
        proof {
            reveal(Seq::filter);
            assert(d.take(0) =~= seq![]);
            assert(r.deep_view() =~= d.take(0).filter(f));
        }
        while i < self.issues.len()
            invariant
                i <= self.issues.len(),
                d == self.issues.deep_view(),
                f == (|i: IssueView| i.status.spec_is_open()),
                r.deep_view() == d.take(i as int).filter(f),
            decreases self.issues.len() - i,
        {
            let ghost before = r.deep_view();
            let issue = &self.issues[i];
            proof {
                lemma_filter_push(d.take(i as int), issue@, f);
                assert(d.take(i + 1) =~= d.take(i as int).push(issue@));
            }
            if issue.status.is_open() {
                r.push(issue);
                assert(r.deep_view() =~= before.push(issue@));
            }
            i += 1;
        }
        assert(d.take(d.len() as int) =~= d);
        r
    }

    /// The number for the next child of an issue: one more than the largest among its
    /// direct children. `None` where no number is left.
    pub fn try_next_child_num(&self, parent_id: &str) -> (r: Option<u32>)
        ensures
            r is Some <==> max_child(self.entries(), parent_id@) < u32::MAX,
            r is Some ==> r->0 == max_child(self.entries(), parent_id@) + 1,
    {
        let ghost d = self.issues.deep_view();
        let prefix = concat(parent_id, ".");
        let mut max: u32 = 0;
        let mut i: usize = 0;
        while i < self.issues.len()
            invariant
                i <= self.issues.len(),
                d == self.issues.deep_view(),
                prefix@ == parent_id@ + "."@,
                max == max_child(d.take(i as int), parent_id@),
            decreases self.issues.len() - i,
        {
            assert(d.take(i + 1).drop_last() =~= d.take(i as int));
            assert(d.take(i + 1).last() == self.issues@[i as int]@);
            match strip_prefix(&self.issues[i].id, &prefix) {
                Some(suffix) => {
                    if !has_dot(&suffix) {
                        match parse_unsigned(&suffix, u32::MAX as u64) {
                            Some(n) => if n > max as u64 {
                                max = n as u32;
                            },
                            None => {},
                        }
                    }
                },
                None => {},
            }
            i += 1;
        }
        assert(d.take(d.len() as int) =~= d);
        if max < u32::MAX {
            Some(max + 1)
        } else {
            None
        }
    }

    /// The number for the next child of an issue.
    pub fn next_child_num(&self, parent_id: &str) -> (r: u32)
        requires
            max_child(self.entries(), parent_id@) < u32::MAX,
        ensures
            r == max_child(self.entries(), parent_id@) + 1,
    {
        match self.try_next_child_num(parent_id) {
            Some(n) => n,
            None => 0,
        }
    }

    /// The prefix of new ids, from the content of the configuration file, if there is one.
    pub fn prefix(&self, config: Option<&str>) -> (r: String)
        ensures
            r@ == id_prefix(config.deep_view()),
    {
        match config {
            Some(content) => {
                let lines = split_lines(content);
                let ghost d = lines.deep_view();
                let mut i: usize = 0;
                assert(d.skip(0) =~= d);
                while i < lines.len()
                    invariant
                        i <= lines.len(),
                        d == lines.deep_view(),
                        d == lines_of(content@),
                        config == Some(content),
                        first_prefix(d) == first_prefix(d.skip(i as int)),
                    decreases lines.len() - i,
                {
                    assert(d[i as int] == lines@[i as int]@);
                    assert(d.skip(i as int).drop_first() =~= d.skip(i + 1));
                    match prefix_value(&lines[i]) {
                        Some(v) => return v,
                        None => {},
                    }
                    i += 1;
                }
                "trx".to_owned()
            },
            None => "trx".to_owned(),
        }
    }
}

proof fn lemma_deep_update(v: Seq<Issue>, i: int, x: Issue)
    requires
        0 <= i < v.len(),
    ensures
        Seq::new(v.update(i, x).len(), |k: int| v.update(i, x)[k].deep_view()) == Seq::new(
            v.len(),
            |k: int| v[k].deep_view(),
        ).update(i, x@),
{
    assert(Seq::new(v.update(i, x).len(), |k: int| v.update(i, x)[k].deep_view()) =~= Seq::new(
        v.len(),
        |k: int| v[k].deep_view(),
    ).update(i, x@));
}

pub open spec fn listed(entries: Seq<IssueView>, include_tombstones: bool) -> Seq<IssueView> {
    entries.filter(|i: IssueView| include_tombstones || i.status != Status::Tombstone)
}

pub open spec fn listed_open(entries: Seq<IssueView>) -> Seq<IssueView> {
    entries.filter(|i: IssueView| i.status.spec_is_open())
}

/// A listing holds the issues of the store that are not deleted, and the deleted ones too where
/// they are asked for.
pub proof fn listing_leaves_out_the_deleted(
    entries: Seq<IssueView>,
    include_tombstones: bool,
    x: IssueView,
)
    ensures
        listed(entries, include_tombstones).contains(x) <==> entries.contains(x) && (
        include_tombstones || x.status != Status::Tombstone),
{
    crate::filter::filtering_keeps_what_passes(
        entries,
        |i: IssueView| include_tombstones || i.status != Status::Tombstone,
        x,
    );
}

/// The open issues are those of the store that are neither closed nor deleted.
pub proof fn open_means_not_closed(entries: Seq<IssueView>, x: IssueView)
    ensures
        listed_open(entries).contains(x) <==> entries.contains(x) && x.status != Status::Closed
            && x.status != Status::Tombstone,
{
    crate::filter::filtering_keeps_what_passes(
        entries,
        |i: IssueView| i.status.spec_is_open(),
        x,
    );
}

// --------------------------------------------------------------------- prefix

/// The value that a line of the configuration gives to the prefix.
pub open spec fn line_prefix(line: Seq<char>) -> Option<Seq<char>> {
    match stripped(line, "prefix"@) {
        Some(rest) => match stripped(trimmed(rest), "="@) {
            Some(value) => Some(trimmed_end_of(trimmed_start_of(trimmed(value), '"'), '"')),
            None => None,
        },
        None => None,
    }
}

pub open spec fn first_prefix(lines: Seq<Seq<char>>) -> Option<Seq<char>>
    decreases lines.len(),
{
    if lines.len() == 0 {
        None
    } else {
        match line_prefix(lines[0]) {
            Some(v) => Some(v),
            None => first_prefix(lines.drop_first()),
        }
    }
}

/// The prefix that a configuration sets, or `trx`.
pub open spec fn id_prefix(config: Option<Seq<char>>) -> Seq<char> {
    match config {
        Some(content) => match first_prefix(lines_of(content)) {
            Some(v) => v,
            None => "trx"@,
        },
        None => "trx"@,
    }
}

fn prefix_value(line: &str) -> (r: Option<String>)
    ensures
        r.deep_view() == line_prefix(line@),
{
    match strip_prefix(line, "prefix") {
        Some(rest) => match strip_prefix(&trim(&rest), "=") {
            Some(value) => {
                let inner = trim_start_matches(&trim(&value), '"');
                Some(trim_end_matches(&inner, '"'))
            },
            None => None,
        },
        None => None,
    }
}

/// The configuration of a new store.
pub open spec fn new_config(prefix: Seq<char>) -> Seq<char> {
    "# trx configuration\nprefix = \""@ + prefix + "\"\n"@
}

pub fn initial_config(prefix: &str) -> (r: String)
    ensures
        r@ == new_config(prefix@),
{
    let mut r = concat("# trx configuration\nprefix = \"", prefix);
    r.append("\"\n");
    r
}

/// The prefix with which a store was set up reads back from its configuration, unless it
/// holds a line end or a quote at either end.
pub proof fn initial_prefix_reads_back(prefix: Seq<char>)
    requires
        !prefix.contains('\n'),
        prefix.len() > 0 ==> prefix[0] != '"' && prefix.last() != '"',
    ensures
        id_prefix(Some(new_config(prefix))) == prefix,
{
    reveal_strlit("# trx configuration\nprefix = \"");
    reveal_strlit("# trx configuration");
    reveal_strlit("prefix = \"");
    reveal_strlit("\"\n");
    reveal_strlit("\"");
    reveal_strlit("prefix");
    reveal_strlit("=");
    let empty = Seq::<char>::empty();
    let first = "# trx configuration"@;
    let second = "prefix = \""@ + prefix + "\""@;
    assert(!is_space(first[0]) && !is_space(second[0]));
    assert(!is_space(first.last()) && !is_space(second.last()));
    assert(trimmed(first) == first);
    assert(trimmed(second) == second);
    assert(!second.contains('\n')) by {
        if second.contains('\n') {
            let i = choose|i: int| 0 <= i < second.len() && second[i] == '\n';
            if 10 <= i < 10 + prefix.len() {
                assert(prefix[i - 10] == '\n');
            }
        }
    }
    crate::jsonl::appended_line_reads_back(empty, first);
    let content = empty + crate::jsonl::framed(first);
    crate::jsonl::appended_line_reads_back(content, second);
    assert(new_config(prefix) =~= content + crate::jsonl::framed(second));
    let lines = lines_of(new_config(prefix));
    assert(lines_of(empty) =~= seq![]) by {
        assert(crate::text::split_on(empty, '\n') =~= seq![empty]);
    }
    assert(lines =~= seq![first, second]);
    assert(first.take(6)[0] != "prefix"@[0]);
    assert(line_prefix(first) is None);
    assert(lines.drop_first() =~= seq![second]);
    assert(second.take(6) =~= "prefix"@);
    let rest = second.skip(6);
    assert(stripped(second, "prefix"@) == Some(rest));
    let spaced = second.skip(7);
    assert(rest.drop_first() =~= spaced);
    assert(is_space(rest[0]));
    assert(!is_space(spaced[0]));
    assert(spaced.last() == '"');
    assert(trimmed_start(spaced) == spaced);
    assert(trimmed(rest) == spaced);
    assert(spaced.take(1) =~= "="@);
    let value = spaced.skip(1);
    assert(stripped(spaced, "="@) == Some(value));
    let quoted = second.skip(9);
    assert(value.drop_first() =~= quoted);
    assert(is_space(value[0]));
    assert(quoted[0] == '"' && quoted.last() == '"');
    assert(trimmed_start(quoted) == quoted);
    assert(trimmed(value) == quoted);
    let open = prefix + "\""@;
    assert(quoted.drop_first() =~= open);
    reveal_with_fuel(trimmed_start_of, 3);
    reveal_with_fuel(trimmed_end_of, 3);
    if prefix.len() == 0 {
        assert(open.drop_first() =~= empty);
        assert(trimmed_start_of(quoted, '"') =~= empty);
        assert(trimmed_end_of(empty, '"') =~= prefix);
    } else {
        assert(open[0] == prefix[0]);
        assert(trimmed_start_of(quoted, '"') == open);
        assert(open.drop_last() =~= prefix);
        assert(trimmed_end_of(open, '"') == prefix);
    }
    assert(line_prefix(second) == Some(prefix));
    assert(lines.drop_first()[0] == second);
    assert(first_prefix(lines.drop_first()) == Some(prefix));
}

// ----------------------------------------------------------------- find the root

/// A directory that was looked into.
#[derive(Clone, Debug)]
pub struct DirProbe {
    pub path: String,
    pub has_trx: bool,
    pub has_git: bool,
}

pub struct DirProbeView {
    pub path: Seq<char>,
    pub has_trx: bool,
    pub has_git: bool,
}

impl DeepView for DirProbe {
    type V = DirProbeView;

    open spec fn deep_view(&self) -> DirProbeView {
        DirProbeView { path: self.path@, has_trx: self.has_trx, has_git: self.has_git }
    }
}

/// The directory whose tracker is in charge, in a path from the current directory upwards:
/// the first with a `.trx` directory, but none above the first with a `.git`.
pub open spec fn tracker_dir(dirs: Seq<DirProbeView>) -> Option<int>
    decreases dirs.len(),
{
    if dirs.len() == 0 {
        None
    } else if dirs[0].has_trx {
        Some(0)
    } else if dirs[0].has_git {
        None
    } else {
        match tracker_dir(dirs.drop_first()) {
            Some(k) => Some(k + 1),
            None => None,
        }
    }
}

/// Finds the directory of the tracker. `dirs` leads from the current directory upwards.
pub fn find_root(dirs: &Vec<DirProbe>) -> (r: Result<String, Error>)
    ensures
        match tracker_dir(dirs.deep_view()) {
            Some(k) => 0 <= k < dirs.deep_view().len() && r is Ok && r->Ok_0@
                == dirs.deep_view()[k].path,
            None => r is Err && r->Err_0@ == ErrorView::NotInitialized,
        },
{
    let ghost d = dirs.deep_view();
    let mut i: usize = 0;
    assert(d.skip(0) =~= d);
    while i < dirs.len()
        invariant
            i <= dirs.len(),
            d == dirs.deep_view(),
            tracker_dir(d) == (match tracker_dir(d.skip(i as int)) {
                Some(k) => Some(k + i),
                None => None::<int>,
            }),
        decreases dirs.len() - i,
    {
        assert(d[i as int] == dirs@[i as int].deep_view());
        assert(d.skip(i as int).drop_first() =~= d.skip(i + 1));
        if dirs[i].has_trx {
            return Ok(dirs[i].path.clone());
        }
        if dirs[i].has_git {
            return Err(Error::NotInitialized);
        }
        i += 1;
    }
    Err(Error::NotInitialized)
}

/// The tracker is never looked for above the repository that one is in, and the nearest
/// one is taken.
pub proof fn tracker_search_stays_in_repository(dirs: Seq<DirProbeView>, g: int)
    requires
        0 <= g < dirs.len(),
        dirs[g].has_git,
    ensures
        match tracker_dir(dirs) {
            Some(k) => 0 <= k <= g && dirs[k].has_trx,
            None => forall|j: int| 0 <= j < dirs.len() && (forall|m: int| 0 <= m < j ==> !(#[trigger] dirs[m]).has_git) ==> !(#[trigger] dirs[j]).has_trx,
        },
    decreases dirs.len(),
{
    if !dirs[0].has_trx && !dirs[0].has_git {
        let rest = dirs.drop_first();
        assert(rest[g - 1] == dirs[g]);
        tracker_search_stays_in_repository(rest, g - 1);
        if tracker_dir(dirs) is None {
            assert forall|j: int| 0 <= j < dirs.len() && (forall|m: int| 0 <= m < j ==> !(#[trigger] dirs[m]).has_git) implies !(#[trigger] dirs[j]).has_trx by {
                if j > 0 {
                    assert(rest[j - 1] == dirs[j]);
                    assert forall|m: int| 0 <= m < j - 1 implies !(#[trigger] rest[m]).has_git by {
                        assert(dirs[m + 1] == rest[m]);
                    }
                }
            }
        }
    } else if dirs[0].has_git && !dirs[0].has_trx {
        assert forall|j: int| 0 <= j < dirs.len() && (forall|m: int| 0 <= m < j ==> !(#[trigger] dirs[m]).has_git) implies !(#[trigger] dirs[j]).has_trx by {
            if j > 0 {
                assert(dirs[0].has_git);
            }
        }
    }
}

// ----------------------------------------------------------------------- lock

/// What became of an attempt to create the lock file.
#[derive(Clone, Copy, Debug, PartialEq, Eq, Structural)]
pub enum LockAttempt {
    Created,
    AlreadyThere,
}

/// What to do after an attempt.
pub enum LockStep {
    Hold,
    /// Try again after this many milliseconds.
    Retry(u64),
    GiveUp(Error),
}

pub const LOCK_TIMEOUT_MS: u64 = 10_000;

pub const LOCK_RETRY_DELAY_MS: u64 = 25;

/// What to do after an attempt to create the lock file at `path`, `waited_ms` after the
/// first one.
pub fn lock_step(attempt: LockAttempt, waited_ms: u64, path: &str) -> (r: LockStep)
    ensures
        match r {
            LockStep::Hold => attempt == LockAttempt::Created,
            LockStep::Retry(ms) => attempt == LockAttempt::AlreadyThere && waited_ms < 10_000 && ms
                == 25,
            LockStep::GiveUp(e) => attempt == LockAttempt::AlreadyThere && waited_ms >= 10_000
                && e@ == ErrorView::Other(
                "Timed out waiting for store lock at "@ + path@
                    + ". Another trx process may be running; remove the lock only if no trx process is active."@,
            ),
        },
{
    match attempt {
        LockAttempt::Created => LockStep::Hold,
        LockAttempt::AlreadyThere => {
            if waited_ms >= LOCK_TIMEOUT_MS {
                let mut m = concat("Timed out waiting for store lock at ", path);
                m.append(
                    ". Another trx process may be running; remove the lock only if no trx process is active.",
                );
                LockStep::GiveUp(Error::Other(m))
            } else {
                LockStep::Retry(LOCK_RETRY_DELAY_MS)
            }
        },
    }
}

// ----------------------------------------------------------------- child numbers

proof fn lemma_max_child_bound(entries: Seq<IssueView>, parent: Seq<char>, k: int)
    requires
        0 <= k < entries.len(),
        child_number(entries[k].id, parent) is Some,
    ensures
        child_number(entries[k].id, parent)->0 <= max_child(entries, parent),
    decreases entries.len(),
{
    if k < entries.len() - 1 {
        assert(entries.drop_last()[k] == entries[k]);
        lemma_max_child_bound(entries.drop_last(), parent, k);
    }
}

/// The id of the next child belongs to no issue yet.
pub proof fn next_child_id_is_new(entries: Seq<IssueView>, parent: Seq<char>)
    requires
        max_child(entries, parent) < u32::MAX,
    ensures
        lookup(entries, child_id(parent, max_child(entries, parent) + 1)) is None,
{
    let n = max_child(entries, parent) + 1;
    let id = child_id(parent, n);
    let suffix = crate::text::decimal(n);
    crate::text::decimal_reads_back(n, u32::MAX as nat);
    crate::text::lemma_decimal_value(n);
    assert(id.take((parent + "."@).len() as int) =~= parent + "."@);
    assert(id.skip((parent + "."@).len() as int) =~= suffix);
    assert(!suffix.contains('.')) by {
        if suffix.contains('.') {
            let i = choose|i: int| 0 <= i < suffix.len() && suffix[i] == '.';
            assert(crate::text::is_digit(suffix[i]));
        }
    }
    assert(child_number(id, parent) == Some(n));
    lemma_index_of(entries, id);
    let k = index_of(entries, id);
    if k < entries.len() {
        lemma_max_child_bound(entries, parent, k);
    }
}

// ------------------------------------------------------------- merge attributes

impl Store {
    /// The content of `.gitattributes` with the lines of a store, where it lacks some.
    /// A missing file counts as empty.
    pub fn ensure_merge_attributes(content: Option<&str>) -> (r: Option<String>)
        ensures
            ({
                let before = match content {
                    Some(c) => c@,
                    None => seq![],
                };
                match r {
                    Some(new) => new@ == with_lines(before, merge_attribute_lines()) && new@
                        != before,
                    None => with_lines(before, merge_attribute_lines()) == before,
                }
            }),
    {
        let lines = gitattributes_lines();
        match content {
            Some(c) => ensure_lines(c, &lines),
            None => {
                let empty = String::new();
                assert(empty@ =~= seq![]);
                ensure_lines(&empty, &lines)
            },
        }
    }
}

/// Law: the tracker in charge is the nearest one at or above the current directory, with no
/// repository in between. Where there is none, none is in charge.
pub proof fn nearest_tracker_is_in_charge(dirs: Seq<DirProbeView>, k: int)
    ensures
        tracker_dir(dirs) == Some(k) <==> 0 <= k < dirs.len() && dirs[k].has_trx && forall|j: int|
            0 <= j < k ==> !(#[trigger] dirs[j]).has_trx && !dirs[j].has_git,
        (forall|j: int| 0 <= j < dirs.len() ==> !(#[trigger] dirs[j]).has_trx) ==> tracker_dir(dirs)
            is None,
    decreases dirs.len(),
{
    if dirs.len() > 0 {
        let rest = dirs.drop_first();
        nearest_tracker_is_in_charge(rest, k - 1);
        assert forall|j: int| 0 <= j < rest.len() implies rest[j] == #[trigger] dirs[j + 1] by {}
        if tracker_dir(dirs) == Some(k) && k > 0 {
            assert forall|j: int| 0 <= j < k implies !(#[trigger] dirs[j]).has_trx
                && !dirs[j].has_git by {
                if j > 0 {
                    assert(rest[j - 1] == dirs[j]);
                }
            }
        }
        if 0 < k < dirs.len() && dirs[k].has_trx && (forall|j: int|
            0 <= j < k ==> !(#[trigger] dirs[j]).has_trx && !dirs[j].has_git) {
            assert(!dirs[0].has_trx && !dirs[0].has_git);
            assert(rest[k - 1] == dirs[k]);
            assert forall|j: int| 0 <= j < k - 1 implies !(#[trigger] rest[j]).has_trx
                && !rest[j].has_git by {
                assert(rest[j] == dirs[j + 1]);
            }
        }
        if tracker_dir(dirs) == Some(k) && k <= 0 {
            tracker_is_within(rest);
        }
        if forall|j: int| 0 <= j < dirs.len() ==> !(#[trigger] dirs[j]).has_trx {
            assert forall|j: int| 0 <= j < rest.len() implies !(#[trigger] rest[j]).has_trx by {
                assert(!dirs[j + 1].has_trx);
            }
        }
    }
}

proof fn tracker_is_within(dirs: Seq<DirProbeView>)
    ensures
        tracker_dir(dirs) matches Some(k) ==> 0 <= k < dirs.len(),
    decreases dirs.len(),
{
    if dirs.len() > 0 {
        tracker_is_within(dirs.drop_first());
    }
}

/// Law: the largest number of a child is that of one of the children, or none where there are
/// no children, and no child has a larger one.
pub proof fn child_numbers_run_up_to_the_largest(
    entries: Seq<IssueView>,
    parent: Seq<char>,
    k: int,
)
    ensures
        0 <= k < entries.len() && child_number(entries[k].id, parent) is Some ==> child_number(
            entries[k].id,
            parent,
        )->0 <= max_child(entries, parent),
        max_child(entries, parent) > 0 ==> exists|m: int|
            0 <= m < entries.len() && child_number((#[trigger] entries[m]).id, parent) == Some(
                max_child(entries, parent),
            ),
    decreases entries.len(),
{
    if 0 <= k < entries.len() && child_number(entries[k].id, parent) is Some {
        lemma_max_child_bound(entries, parent, k);
    }
    if entries.len() > 0 {
        let front = entries.drop_last();
        child_numbers_run_up_to_the_largest(front, parent, 0);
        assert forall|m: int| 0 <= m < front.len() implies #[trigger] front[m] == entries[m] by {}
        if max_child(entries, parent) > 0 {
            if max_child(entries, parent) == max_child(front, parent) {
                let m = choose|m: int|
                    0 <= m < front.len() && child_number((#[trigger] front[m]).id, parent) == Some(
                        max_child(front, parent),
                    );
                assert(entries[m].id == front[m].id);
            } else {
                assert(child_number(entries[entries.len() - 1].id, parent) == Some(
                    max_child(entries, parent),
                ));
            }
        }
    }
}

} // verus!
