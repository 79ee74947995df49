//! What is said about the tracker, the service and the synchronisation.
use crate::agent_ctx::AgentCtx;
use crate::report::{context_rows, ctx_rows};
use crate::service::ServiceStatus;
use crate::style::{
    line_of, line_of_two, list_texts, listed_lines, new_line, no_lines, plain, push_line,
    push_lines, push_span, toned, Span, SpanView, Tone,
};
use crate::text::{
    ascii_lowered, concat, contains, decimal, decimal_text, eq_ignore_ascii_case, holds_text,
    is_blank, is_blank_text, lines_of, split_lines, trim, trimmed,
};
use vstd::prelude::*;

verus! {

// --------------------------------------------------------------------------- info

/// What is known of a store.
pub struct StoreInfo {
    pub path: String,
    pub migrate_pending: bool,
    pub issues: usize,
    pub open: usize,
    pub closed: usize,
    pub events: usize,
}

/// What is said of a store, or of its absence.
pub open spec fn store_lines(info: Option<StoreInfo>) -> Seq<Seq<SpanView>> {
    match info {
        Some(s) => seq![
            seq![plain("  path     "@ + s.path@)],
            seq![plain("  format   jsonl"@)],
        ] + (if s.migrate_pending {
            seq![
                seq![
                    plain("  "@),
                    toned(Tone::Yellow, "!"@),
                    plain(" legacy CRDT layout detected — will migrate on next mutation"@),
                ],
            ]
        } else {
            seq![]
        }) + seq![
            seq![
                plain(
                    "  issues   "@ + decimal(s.issues as nat) + " ("@ + decimal(s.open as nat)
                        + " open, "@ + decimal(s.closed as nat) + " closed)"@,
                ),
            ],
            seq![plain("  events   "@ + decimal(s.events as nat))],
        ],
        None => seq![
            seq![
                plain("  "@),
                toned(Tone::Yellow, "!"@),
                plain(" not initialized in this directory"@),
            ],
        ],
    }
}

fn make_store_lines(info: &Option<StoreInfo>) -> (r: Vec<Vec<Span>>)
    ensures
        r.deep_view() == store_lines(*info),
{
    let mut r = no_lines();
    match info {
        Some(s) => {
            push_line(&mut r, line_of(Tone::Plain, &concat("  path     ", &s.path)));
            push_line(&mut r, line_of(Tone::Plain, "  format   jsonl"));
            if s.migrate_pending {
                let mut line = line_of_two(Tone::Plain, "  ", Tone::Yellow, "!");
                push_span(
                    &mut line,
                    Tone::Plain,
                    " legacy CRDT layout detected — will migrate on next mutation",
                );
                assert(line.deep_view() =~= seq![
                    plain("  "@),
                    toned(Tone::Yellow, "!"@),
                    plain(" legacy CRDT layout detected — will migrate on next mutation"@),
                ]);
                push_line(&mut r, line);
            }
            let mut t = concat("  issues   ", &decimal_text(s.issues as u64));
            t.append(" (");
            t.append(&decimal_text(s.open as u64));
            t.append(" open, ");
            t.append(&decimal_text(s.closed as u64));
            t.append(" closed)");
            push_line(&mut r, line_of(Tone::Plain, &t));
            push_line(
                &mut r,
                line_of(Tone::Plain, &concat("  events   ", &decimal_text(s.events as u64))),
            );
        },
        None => {
            let mut line = line_of_two(Tone::Plain, "  ", Tone::Yellow, "!");
            push_span(&mut line, Tone::Plain, " not initialized in this directory");
            assert(line.deep_view() =~= seq![
                plain("  "@),
                toned(Tone::Yellow, "!"@),
                plain(" not initialized in this directory"@),
            ]);
            push_line(&mut r, line);
        },
    }
    assert(r.deep_view() =~= store_lines(*info));
    r
}

/// What is said of the context.
pub open spec fn context_lines(c: AgentCtx) -> Seq<Seq<SpanView>> {
    if c.has_nothing() {
        seq![
            seq![plain("  "@), toned(Tone::Dim, "·"@), plain(" no AGENT_CTX_* variables set"@)],
        ]
    } else {
        listed_lines(plain(""@), Tone::Plain, ctx_rows(c))
    }
}

fn make_context_lines(c: &AgentCtx) -> (r: Vec<Vec<Span>>)
    ensures
        r.deep_view() == context_lines(*c),
{
    if c.is_empty() {
        let mut r = no_lines();
        let mut line = line_of_two(Tone::Plain, "  ", Tone::Dim, "·");
        push_span(&mut line, Tone::Plain, " no AGENT_CTX_* variables set");
        assert(line.deep_view() =~= seq![
            plain("  "@),
            toned(Tone::Dim, "·"@),
            plain(" no AGENT_CTX_* variables set"@),
        ]);
        push_line(&mut r, line);
        assert(r.deep_view() =~= context_lines(*c));
        r
    } else {
        list_texts(Tone::Plain, "", Tone::Plain, &context_rows(c))
    }
}

/// The version, the store and the context.
pub open spec fn info_lines(version: Seq<char>, info: Option<StoreInfo>, c: AgentCtx) -> Seq<
    Seq<SpanView>,
> {
    seq![
        seq![toned(Tone::Bold, "trx"@), plain(" "@ + version)],
        seq![],
        seq![toned(Tone::Bold, "Store:"@)],
    ] + store_lines(info) + seq![seq![], seq![toned(Tone::Bold, "AGENT_CTX:"@)]] + context_lines(c)
}

pub fn make_info(version: &str, info: &Option<StoreInfo>, c: &AgentCtx) -> (r: Vec<Vec<Span>>)
    ensures
        r.deep_view() == info_lines(version@, *info, *c),
{
    let mut r = no_lines();
    push_line(&mut r, line_of_two(Tone::Bold, "trx", Tone::Plain, &concat(" ", version)));
    push_line(&mut r, new_line());
    push_line(&mut r, line_of(Tone::Bold, "Store:"));
    push_lines(&mut r, make_store_lines(info));
    push_line(&mut r, new_line());
    push_line(&mut r, line_of(Tone::Bold, "AGENT_CTX:"));
    push_lines(&mut r, make_context_lines(c));
    assert(r.deep_view() =~= info_lines(version@, *info, *c));
    r
}

// ------------------------------------------------------------------------- service

/// What is said of the state of the service.
pub open spec fn status_lines(status: ServiceStatus) -> Seq<Seq<SpanView>> {
    match status {
        ServiceStatus::Running { pid, port } => seq![
            seq![plain("Service is "@), toned(Tone::Green, "running"@)],
            seq![plain("  PID: "@ + decimal(pid as nat))],
        ] + (match port {
            Some(p) => seq![seq![plain("  Port: "@ + decimal(p as nat))]],
            None => seq![],
        }),
        ServiceStatus::Stopped => seq![
            seq![plain("Service is "@), toned(Tone::Yellow, "stopped"@)],
        ],
        ServiceStatus::Dead => seq![
            seq![
                plain("Service appears to be "@),
                toned(Tone::Red, "dead"@),
                plain(" (stale PID file)"@),
            ],
            seq![plain("Try running 'trx service stop' to cleanup"@)],
        ],
    }
}

pub fn make_status_lines(status: &ServiceStatus) -> (r: Vec<Vec<Span>>)
    ensures
        r.deep_view() == status_lines(*status),
{
    let mut r = no_lines();
    match status {
        ServiceStatus::Running { pid, port } => {
            push_line(&mut r, line_of_two(Tone::Plain, "Service is ", Tone::Green, "running"));
            push_line(
                &mut r,
                line_of(Tone::Plain, &concat("  PID: ", &decimal_text(*pid as u64))),
            );
            match port {
                Some(p) => push_line(
                    &mut r,
                    line_of(Tone::Plain, &concat("  Port: ", &decimal_text(*p as u64))),
                ),
                None => {},
            }
        },
        ServiceStatus::Stopped => push_line(
            &mut r,
            line_of_two(Tone::Plain, "Service is ", Tone::Yellow, "stopped"),
        ),
        ServiceStatus::Dead => {
            let mut line = line_of_two(Tone::Plain, "Service appears to be ", Tone::Red, "dead");
            push_span(&mut line, Tone::Plain, " (stale PID file)");
            assert(line.deep_view() =~= seq![
                plain("Service appears to be "@),
                toned(Tone::Red, "dead"@),
                plain(" (stale PID file)"@),
            ]);
            push_line(&mut r, line);
            push_line(
                &mut r,
                line_of(Tone::Plain, "Try running 'trx service stop' to cleanup"),
            );
        },
    }
    assert(r.deep_view() =~= status_lines(*status));
    r
}

/// What is said after the service was to be started, and whether it runs. `done` is the word
/// for success, `act` the one for the attempt.
pub open spec fn launch_lines(status: ServiceStatus, done: Seq<char>, act: Seq<char>) -> Seq<
    Seq<SpanView>,
> {
    match status {
        ServiceStatus::Running { pid, port } => seq![
            seq![
                toned(Tone::Green, "✓"@),
                plain(" Service "@ + done + " (PID: "@ + decimal(pid as nat) + ")"@),
            ],
        ] + (match port {
            Some(p) => seq![seq![plain("  Listening on: 127.0.0.1:"@ + decimal(p as nat))]],
            None => seq![],
        }),
        _ => seq![seq![toned(Tone::Red, "✗"@), plain(" Service failed to "@ + act)]],
    }
}

/// What is said after the service was to be started. The flag is set where it runs.
pub fn make_launch_lines(status: &ServiceStatus, done: &str, act: &str) -> (r: (
    Vec<Vec<Span>>,
    bool,
))
    ensures
        r.0.deep_view() == launch_lines(*status, done@, act@),
        r.1 == (*status is Running),
{
    let mut r = no_lines();
    let runs: bool;
    match status {
        ServiceStatus::Running { pid, port } => {
            let mut t = concat(" Service ", done);
            t.append(" (PID: ");
            t.append(&decimal_text(*pid as u64));
            t.append(")");
            push_line(&mut r, line_of_two(Tone::Green, "✓", Tone::Plain, &t));
            match port {
                Some(p) => push_line(
                    &mut r,
                    line_of(
                        Tone::Plain,
                        &concat("  Listening on: 127.0.0.1:", &decimal_text(*p as u64)),
                    ),
                ),
                None => {},
            }
            runs = true;
        },
        _ => {
            push_line(
                &mut r,
                line_of_two(Tone::Red, "✗", Tone::Plain, &concat(" Service failed to ", act)),
            );
            runs = false;
        },
    }
    assert(r.deep_view() =~= launch_lines(*status, done@, act@));
    (r, runs)
}

// ---------------------------------------------------------------------------- sync

/// What is said of the changes that a synchronisation would take up.
pub open spec fn pending_lines(changes: Seq<char>) -> Seq<Seq<SpanView>> {
    if is_blank_text(changes) {
        seq![seq![plain("Nothing to sync"@)]]
    } else {
        seq![seq![toned(Tone::Yellow, "⊘"@), plain(" Would sync these changes:"@)]] + listed_lines(
            plain("  "@),
            Tone::Plain,
            lines_of(changes),
        )
    }
}

pub fn make_pending_lines(changes: &str) -> (r: Vec<Vec<Span>>)
    ensures
        r.deep_view() == pending_lines(changes@),
{
    let mut r = no_lines();
    if is_blank(changes) {
        push_line(&mut r, line_of(Tone::Plain, "Nothing to sync"));
        assert(r.deep_view() =~= pending_lines(changes@));
    } else {
        push_line(
            &mut r,
            line_of_two(Tone::Yellow, "⊘", Tone::Plain, " Would sync these changes:"),
        );
        assert(r.deep_view() =~= seq![
            seq![toned(Tone::Yellow, "⊘"@), plain(" Would sync these changes:"@)],
        ]);
        push_lines(&mut r, list_texts(Tone::Plain, "  ", Tone::Plain, &split_lines(changes)));
    }
    r
}

/// What a command of git came to.
pub struct GitOutput {
    pub success: bool,
    pub stderr: String,
}

/// What follows a command of git.
pub enum SyncStep {
    /// Commit with this message.
    Commit(String),
    /// Say that the files are staged.
    Staged,
    /// Say that there is nothing to do.
    Nothing,
    /// Say that all is done.
    Synced,
    Fail(String),
}

/// The message of a commit where none is given.
pub open spec fn sync_message(message: Option<Seq<char>>) -> Seq<char> {
    match message {
        Some(m) => m,
        None => "trx: sync issues"@,
    }
}

/// Decides what follows after the files were to be staged.
pub fn after_stage(output: &GitOutput, message: Option<String>, no_commit: bool) -> (r: SyncStep)
    ensures
        match r {
            SyncStep::Fail(e) => !output.success && e@ == "git add failed: "@ + output.stderr@,
            SyncStep::Staged => output.success && no_commit,
            SyncStep::Commit(m) => output.success && !no_commit && m@ == sync_message(
                message.deep_view(),
            ),
            _ => false,
        },
{
    if !output.success {
        SyncStep::Fail(concat("git add failed: ", &output.stderr))
    } else if no_commit {
        SyncStep::Staged
    } else {
        match message {
            Some(m) => SyncStep::Commit(m),
            None => SyncStep::Commit("trx: sync issues".to_owned()),
        }
    }
}

/// Decides what follows after the commit.
pub fn after_commit(output: &GitOutput) -> (r: SyncStep)
    ensures
        match r {
            SyncStep::Synced => output.success,
            SyncStep::Nothing => !output.success && holds_text(
                output.stderr@,
                "nothing to commit"@,
            ),
            SyncStep::Fail(e) => !output.success && !holds_text(
                output.stderr@,
                "nothing to commit"@,
            ) && e@ == "git commit failed: "@ + output.stderr@,
            _ => false,
        },
{
    if output.success {
        SyncStep::Synced
    } else if contains(&output.stderr, "nothing to commit") {
        SyncStep::Nothing
    } else {
        SyncStep::Fail(concat("git commit failed: ", &output.stderr))
    }
}

// ------------------------------------------------------------------------- answers

/// Whether an answer at the terminal is a yes.
pub fn is_yes(input: &str) -> (r: bool)
    ensures
        r == (ascii_lowered(trimmed(input@)) == ascii_lowered("y"@)),
{
    eq_ignore_ascii_case(&trim(input), "y")
}

// ------------------------------------------------------------------------- laws

/// Law: what is said of a store names its path and its numbers of issues, of open and closed
/// ones, and of events. Without a store it is said that there is none.
pub proof fn stores_are_told_in_numbers(s: StoreInfo)
    ensures
        ({
            let r = store_lines(Some(s));
            let n = r.len() as int;
            &&& n >= 4
            &&& r[0] == seq![plain("  path     "@ + s.path@)]
            &&& r[n - 2] == seq![
                plain(
                    "  issues   "@ + decimal(s.issues as nat) + " ("@ + decimal(s.open as nat)
                        + " open, "@ + decimal(s.closed as nat) + " closed)"@,
                ),
            ]
            &&& r[n - 1] == seq![plain("  events   "@ + decimal(s.events as nat))]
            &&& n == 5 <==> s.migrate_pending
        }),
        store_lines(None).len() == 1,
{
}

/// Law: a service that runs is told with its process and port. One that does not is never said
/// to run.
pub proof fn services_are_told_as_they_are(status: ServiceStatus)
    ensures
        status is Running <==> status_lines(status)[0][1].text == "running"@,
        status is Running ==> status_lines(status)[1] == seq![
            plain("  PID: "@ + decimal(status->pid as nat)),
        ],
        status is Running && status->port is Some ==> status_lines(status)[2] == seq![
            plain("  Port: "@ + decimal(status->port->0 as nat)),
        ],
        status is Stopped ==> status_lines(status)[0][1].text == "stopped"@,
        status is Dead ==> status_lines(status)[0][1].text == "dead"@,
        status is Running <==> launch_lines(status, "started"@, "start"@)[0][0].text == "✓"@,
{
    reveal_strlit("running");
    reveal_strlit("stopped");
    reveal_strlit("dead");
    reveal_strlit("✓");
    reveal_strlit("✗");
    assert("running"@[0] == 'r' && "stopped"@[0] == 's' && "dead"@[0] == 'd');
    assert("✓"@[0] == '✓' && "✗"@[0] == '✗');
}

/// Law: every line of the changes is listed before a synchronisation.
pub proof fn pending_changes_are_all_listed(changes: Seq<char>, k: int)
    requires
        !is_blank_text(changes),
        0 <= k < lines_of(changes).len(),
    ensures
        pending_lines(changes).len() == 1 + lines_of(changes).len(),
        exists|m: int|
            0 <= m < pending_lines(changes)[1 + k].len() && (
            #[trigger] pending_lines(changes)[1 + k][m]).text == lines_of(changes)[k],
{
    let r = pending_lines(changes);
    let l = listed_lines(plain("  "@), Tone::Plain, lines_of(changes));
    assert(r[1 + k] == l[k]);
    assert(l[k][1].text == lines_of(changes)[k]);
}

/// Law: a commit has the message that was given, and one of its own where none was.
pub proof fn given_messages_are_kept(m: Seq<char>)
    ensures
        sync_message(Some(m)) == m,
        sync_message(None) == "trx: sync issues"@,
{
}

/// Law: the information tells the version, all of the store, and all of the context.
pub proof fn information_tells_everything(
    version: Seq<char>,
    info: Option<StoreInfo>,
    c: AgentCtx,
    l: Seq<SpanView>,
)
    ensures
        info_lines(version, info, c)[0][1].text == " "@ + version,
        store_lines(info).contains(l) ==> info_lines(version, info, c).contains(l),
        context_lines(c).contains(l) ==> info_lines(version, info, c).contains(l),
{
    let head = seq![
        seq![toned(Tone::Bold, "trx"@), plain(" "@ + version)],
        seq![],
        seq![toned(Tone::Bold, "Store:"@)],
    ];
    let middle = seq![seq![], seq![toned(Tone::Bold, "AGENT_CTX:"@)]];
    let s = store_lines(info);
    crate::filter::chained_lists_hold_both(head, s, l);
    crate::filter::chained_lists_hold_both(head + s, middle, l);
    crate::filter::chained_lists_hold_both(head + s + middle, context_lines(c), l);
}

} // verus!
