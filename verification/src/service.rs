//! The background service: where its files lie, whether it runs, and the steps of
//! starting and stopping it.
use crate::error::{Error, ErrorView};
use crate::path::{
    is_absolute_on, is_absolute_path_on, join_name, join_path, joined_path, path_in,
};
use crate::text::{chars_of, concat, digits_value, is_digit, parsed_unsigned, trim, trimmed};
use vstd::prelude::*;

verus! {

// ---------------------------------------------------------------- directories

/// A base directory: an absolute `XDG_*` value on any system, else the user's directory on
/// Windows and a directory below the home directory elsewhere.
pub open spec fn base(
    xdg: Option<Seq<char>>,
    home: Option<Seq<char>>,
    win_dir: Option<Seq<char>>,
    is_windows: bool,
    unix_rel: Seq<char>,
) -> Option<Seq<char>> {
    if xdg is Some && is_absolute_on(xdg->0, is_windows) {
        xdg
    } else if is_windows {
        win_dir
    } else {
        match home {
            Some(h) => Some(joined_path(h, unix_rel)),
            None => None,
        }
    }
}

pub fn resolve_base(
    xdg: Option<String>,
    home: Option<String>,
    win_dir: Option<String>,
    is_windows: bool,
    unix_rel: &str,
) -> (r: Option<String>)
    ensures
        r.deep_view() == base(
            xdg.deep_view(),
            home.deep_view(),
            win_dir.deep_view(),
            is_windows,
            unix_rel@,
        ),
{
    match xdg {
        Some(p) => if is_absolute_path_on(&p, is_windows) {
            return Some(p);
        },
        None => {},
    }
    if is_windows {
        win_dir
    } else {
        match home {
            Some(h) => Some(join_path(&h, unix_rel)),
            None => None,
        }
    }
}

/// The variables from which the directory of the service is found.
pub struct BaseVars {
    pub xdg_state_home: Option<String>,
    pub home: Option<String>,
    pub local_app_data: Option<String>,
    pub is_windows: bool,
}

impl BaseVars {
    pub open spec fn state_base(self) -> Option<Seq<char>> {
        base(
            self.xdg_state_home.deep_view(),
            self.home.deep_view(),
            self.local_app_data.deep_view(),
            self.is_windows,
            ".local/state"@,
        )
    }
}

/// The directory in which the service keeps its files.
pub fn state_dir(vars: BaseVars) -> (r: Result<String, Error>)
    ensures
        match vars.state_base() {
            Some(b) => r is Ok && r->Ok_0@ == path_in(b, "trx"@, vars.is_windows),
            None => r is Err && r->Err_0@ == ErrorView::Service(
                "unable to determine base directory (XDG_STATE_HOME)"@,
            ),
        },
{
    let is_windows = vars.is_windows;
    match resolve_base(
        vars.xdg_state_home,
        vars.home,
        vars.local_app_data,
        is_windows,
        ".local/state",
    ) {
        Some(b) => Ok(join_name(&b, "trx", is_windows)),
        None => Err(
            Error::Service("unable to determine base directory (XDG_STATE_HOME)".to_owned()),
        ),
    }
}

// -------------------------------------------------------------------- numbers

/// Why a text is not a number of at most `max`.
#[derive(Clone, Copy, Debug, PartialEq, Eq, Structural)]
pub enum NumberProblem {
    Empty,
    InvalidDigit,
    TooLarge,
}

impl NumberProblem {
    pub open spec fn message(self) -> Seq<char> {
        match self {
            NumberProblem::Empty => "cannot parse integer from empty string"@,
            NumberProblem::InvalidDigit => "invalid digit found in string"@,
            NumberProblem::TooLarge => "number too large to fit in target type"@,
        }
    }

    pub fn text(&self) -> (r: &'static str)
        ensures
            r@ == self.message(),
    {
        match self {
            NumberProblem::Empty => "cannot parse integer from empty string",
            NumberProblem::InvalidDigit => "invalid digit found in string",
            NumberProblem::TooLarge => "number too large to fit in target type",
        }
    }
}

/// The first problem in a run of digits, read from the left.
pub open spec fn digits_problem(body: Seq<char>, max: nat) -> Option<NumberProblem>
    decreases body.len(),
{
    if body.len() == 0 {
        None
    } else {
        match digits_problem(body.drop_last(), max) {
            Some(p) => Some(p),
            None => if !is_digit(body.last()) {
                Some(NumberProblem::InvalidDigit)
            } else if digits_value(body) > max {
                Some(NumberProblem::TooLarge)
            } else {
                None
            },
        }
    }
}

pub open spec fn number_problem(s: Seq<char>, max: nat) -> Option<NumberProblem> {
    if s.len() == 0 {
        Some(NumberProblem::Empty)
    } else {
        let body = if s[0] == '+' {
            s.drop_first()
        } else {
            s
        };
        if body.len() == 0 {
            Some(NumberProblem::InvalidDigit)
        } else {
            digits_problem(body, max)
        }
    }
}

proof fn lemma_digits_problem(body: Seq<char>, max: nat)
    ensures
        digits_problem(body, max) is None ==> crate::text::all_digits(body) && digits_value(body)
            <= max,
    decreases body.len(),
{
    if body.len() > 0 && digits_problem(body, max) is None {
        let front = body.drop_last();
        lemma_digits_problem(front, max);
        assert forall|i: int| 0 <= i < body.len() implies is_digit(#[trigger] body[i]) by {
            if i < front.len() {
                assert(front[i] == body[i]);
            }
        }
    }
}

/// Reads a number of at most `max`.
fn parse_number(s: &str, max: u64) -> (r: Result<u64, NumberProblem>)
    ensures
        match number_problem(s@, max as nat) {
            Some(p) => r == Err::<u64, NumberProblem>(p),
            None => r is Ok && parsed_unsigned(s@, max as nat) == Some(r->Ok_0 as nat) && r->Ok_0
                <= max,
        },
{
    let v = chars_of(s);
    if v.len() == 0 {
        return Err(NumberProblem::Empty);
    }
    let from: usize = if v[0] == '+' {
        1
    } else {
        0
    };
    if from == v.len() {
        assert(s@.drop_first().len() == 0);
        return Err(NumberProblem::InvalidDigit);
    }
    let ghost body = v@.skip(from as int);
    assert(from == 1 ==> body =~= s@.drop_first());
    assert(from == 0 ==> body =~= s@);
    assert(number_problem(s@, max as nat) == digits_problem(body, max as nat));
    let mut acc: u64 = 0;
    let mut i: usize = from;
    assert(body.take(0) =~= Seq::empty());
    while i < v.len()
        invariant
            from <= i <= v.len(),
            body == v@.skip(from as int),
            number_problem(s@, max as nat) == digits_problem(body, max as nat),
            digits_problem(body.take(i - from), max as nat) is None,
            digits_value(body.take(i - from)) == acc,
            acc <= max,
        decreases v.len() - i,
    {
        let ghost now = body.take(i + 1 - from);
        assert(now.drop_last() =~= body.take(i - from));
        assert(now.last() == v@[i as int]);
        let c: u32 = v[i] as u32;
        if c < 48 || c > 57 {
            proof {
                lemma_problem_stays(body, i + 1 - from, max as nat);
            }
            return Err(NumberProblem::InvalidDigit);
        }
        let d: u64 = (c - 48) as u64;
        assert(digits_value(now) == digits_value(body.take(i - from)) * 10 + d);
        if d > max || acc > (max - d) / 10 {
            proof {
                lemma_problem_stays(body, i + 1 - from, max as nat);
            }
            return Err(NumberProblem::TooLarge);
        }
        acc = acc * 10 + d;
        i += 1;
    }
    assert(body.take(body.len() as int) =~= body);
    proof {
        lemma_digits_problem(body, max as nat);
    }
    Ok(acc)
}

/// A problem in the front of a text is the problem of the text.
proof fn lemma_problem_stays(body: Seq<char>, n: int, max: nat)
    requires
        0 <= n <= body.len(),
        digits_problem(body.take(n), max) is Some,
    ensures
        digits_problem(body, max) == digits_problem(body.take(n), max),
    decreases body.len(),
{
    if n == body.len() {
        assert(body.take(n) =~= body);
    } else {
        assert(body.drop_last().take(n) =~= body.take(n));
        lemma_problem_stays(body.drop_last(), n, max);
    }
}

// -------------------------------------------------------------------- manager

/// What is known of the service: the process id and the port that its files hold, and
/// whether that process exists.
#[derive(Clone, Copy, Debug)]
pub struct Probe {
    pub pid: Option<u32>,
    pub alive: bool,
    pub port: Option<u16>,
}

#[derive(Clone, Copy, Debug, PartialEq, Eq, Structural)]
pub enum ServiceStatus {
    Running { pid: u32, port: Option<u16> },
    Stopped,
    /// There is a process id, but no such process.
    Dead,
}

pub struct ServiceManager {
    state_dir: String,
    is_windows: bool,
}

impl ServiceManager {
    pub closed spec fn dir(self) -> Seq<char> {
        self.state_dir@
    }

    pub closed spec fn on_windows(self) -> bool {
        self.is_windows
    }

    pub fn new(vars: BaseVars) -> (r: Result<ServiceManager, Error>)
        ensures
            match vars.state_base() {
                Some(b) => r is Ok && r->Ok_0.dir() == path_in(b, "trx"@, vars.is_windows)
                    && r->Ok_0.on_windows() == vars.is_windows,
                None => r is Err && r->Err_0@ == ErrorView::Service(
                    "unable to determine base directory (XDG_STATE_HOME)"@,
                ),
            },
    {
        let is_windows = vars.is_windows;
        match state_dir(vars) {
            Ok(state_dir) => Ok(ServiceManager { state_dir, is_windows }),
            Err(e) => Err(e),
        }
    }

    pub fn pid_file(&self) -> (r: String)
        ensures
            r@ == path_in(self.dir(), "trx-api.pid"@, self.on_windows()),
    {
        join_name(&self.state_dir, "trx-api.pid", self.is_windows)
    }

    pub fn port_file(&self) -> (r: String)
        ensures
            r@ == path_in(self.dir(), "trx-api.port"@, self.on_windows()),
    {
        join_name(&self.state_dir, "trx-api.port", self.is_windows)
    }

    /// The process id in the content of the pid file.
    pub fn read_pid(&self, content: &str) -> (r: Result<u32, Error>)
        ensures
            match number_problem(trimmed(content@), u32::MAX as nat) {
                Some(p) => r is Err && r->Err_0@ == ErrorView::Service(
                    "Invalid PID: "@ + p.message(),
                ),
                None => r is Ok && parsed_unsigned(trimmed(content@), u32::MAX as nat) == Some(
                    r->Ok_0 as nat,
                ),
            },
    {
        match parse_number(&trim(content), u32::MAX as u64) {
            Ok(n) => Ok(n as u32),
            Err(p) => Err(Error::Service(concat("Invalid PID: ", p.text()))),
        }
    }

    /// The port in the content of the port file.
    pub fn read_port(&self, content: &str) -> (r: Result<u16, Error>)
        ensures
            match number_problem(trimmed(content@), u16::MAX as nat) {
                Some(p) => r is Err && r->Err_0@ == ErrorView::Service(
                    "Invalid port: "@ + p.message(),
                ),
                None => r is Ok && parsed_unsigned(trimmed(content@), u16::MAX as nat) == Some(
                    r->Ok_0 as nat,
                ),
            },
    {
        match parse_number(&trim(content), u16::MAX as u64) {
            Ok(n) => Ok(n as u16),
            Err(p) => Err(Error::Service(concat("Invalid port: ", p.text()))),
        }
    }

    /// The content of the pid file of a process.
    pub fn write_pid(&self, pid: u32) -> (r: String)
        ensures
            r@ == crate::text::decimal(pid as nat),
    {
        crate::text::decimal_text(pid as u64)
    }

    /// The content of the port file of a port.
    pub fn write_port(&self, port: u16) -> (r: String)
        ensures
            r@ == crate::text::decimal(port as nat),
    {
        crate::text::decimal_text(port as u64)
    }

    /// Whether the service runs.
    pub fn is_running(&self, probe: &Probe) -> (r: bool)
        ensures
            r == (probe.pid is Some && probe.alive),
    {
        probe.pid.is_some() && probe.alive
    }

    pub fn status(&self, probe: &Probe) -> (r: ServiceStatus)
        ensures
            r == (match probe.pid {
                Some(pid) => if probe.alive {
                    ServiceStatus::Running { pid, port: probe.port }
                } else {
                    ServiceStatus::Dead
                },
                None => ServiceStatus::Stopped,
            }),
    {
        match probe.pid {
            Some(pid) => {
                if probe.alive {
                    ServiceStatus::Running { pid, port: probe.port }
                } else {
                    ServiceStatus::Dead
                }
            },
            None => ServiceStatus::Stopped,
        }
    }
}

/// The process id that is written to its file reads back.
pub proof fn written_pid_reads_back(pid: nat, max: nat)
    requires
        pid <= max,
    ensures
        number_problem(crate::text::decimal(pid), max) is None,
        parsed_unsigned(crate::text::decimal(pid), max) == Some(pid),
        trimmed(crate::text::decimal(pid)) == crate::text::decimal(pid),
{
    let s = crate::text::decimal(pid);
    crate::text::decimal_reads_back(pid, max);
    crate::text::lemma_decimal_value(pid);
    assert(is_digit(s[0]));
    assert(is_digit(s[s.len() - 1]));
    lemma_no_digits_problem(s, max);
}

proof fn lemma_no_digits_problem(body: Seq<char>, max: nat)
    requires
        crate::text::all_digits(body),
        digits_value(body) <= max,
    ensures
        digits_problem(body, max) is None,
    decreases body.len(),
{
    if body.len() > 0 {
        let front = body.drop_last();
        assert forall|i: int| 0 <= i < front.len() implies is_digit(#[trigger] front[i]) by {
            assert(front[i] == body[i]);
        }
        assert(is_digit(body[body.len() - 1]));
        lemma_no_digits_problem(front, max);
    }
}

// ------------------------------------------------------------------- starting

/// How far starting the service has come.
#[derive(Clone, Copy, Debug, PartialEq, Eq, Structural)]
pub enum StartState {
    CheckRunning,
    CheckBinary,
    Launch,
    /// The service was spawned; so many polls found it not running.
    Waiting { polls: u32 },
    LastCheck,
    Ended,
}

/// What came of the last action.
#[derive(Clone, Copy, Debug, PartialEq, Eq, Structural)]
pub enum StartEvent {
    Running(bool),
    NoExecutableDir,
    BinaryFound(bool),
    Spawned,
    /// The service ran in the foreground and ended, with success or not.
    Exited(bool),
}

#[derive(Clone, Copy, Debug, PartialEq, Eq, Structural)]
pub enum StartFailure {
    AlreadyRunning,
    NoServiceBinary,
    BinaryNotFound,
    FailedToStart,
}

/// What to do next.
#[derive(Clone, Copy, Debug, PartialEq, Eq, Structural)]
pub enum StartAction {
    LookForBinary,
    RunInForeground,
    SpawnInBackground,
    /// Sleep that many milliseconds, then look whether the service runs.
    SleepThenProbe(u64),
    Probe,
    Succeed,
    Fail(StartFailure),
}

pub const START_POLLS: u32 = 20;

pub const POLL_MS: u64 = 100;

impl StartFailure {
    pub open spec fn error(self) -> ErrorView {
        match self {
            StartFailure::AlreadyRunning => ErrorView::Service("Service already running"@),
            StartFailure::NoServiceBinary => ErrorView::Service("Cannot find service binary"@),
            StartFailure::BinaryNotFound => ErrorView::Service(
                "trx-api binary not found. Please install it first."@,
            ),
            StartFailure::FailedToStart => ErrorView::Service("Service failed to start"@),
        }
    }

    pub fn to_error(&self) -> (r: Error)
        ensures
            r@ == self.error(),
    {
        match self {
            StartFailure::AlreadyRunning => Error::Service("Service already running".to_owned()),
            StartFailure::NoServiceBinary => Error::Service(
                "Cannot find service binary".to_owned(),
            ),
            StartFailure::BinaryNotFound => Error::Service(
                "trx-api binary not found. Please install it first.".to_owned(),
            ),
            StartFailure::FailedToStart => Error::Service("Service failed to start".to_owned()),
        }
    }
}

/// The next state and action. An event that does not belong to the state ends the start as
/// failed.
pub open spec fn next_start(state: StartState, event: StartEvent, foreground: bool) -> (
    StartState,
    StartAction,
) {
    match (state, event) {
        (StartState::CheckRunning, StartEvent::Running(running)) => if running {
            (StartState::Ended, StartAction::Fail(StartFailure::AlreadyRunning))
        } else {
            (StartState::CheckBinary, StartAction::LookForBinary)
        },
        (StartState::CheckBinary, StartEvent::NoExecutableDir) => (
            StartState::Ended,
            StartAction::Fail(StartFailure::NoServiceBinary),
        ),
        (StartState::CheckBinary, StartEvent::BinaryFound(found)) => if !found {
            (StartState::Ended, StartAction::Fail(StartFailure::BinaryNotFound))
        } else if foreground {
            (StartState::Launch, StartAction::RunInForeground)
        } else {
            (StartState::Launch, StartAction::SpawnInBackground)
        },
        (StartState::Launch, StartEvent::Exited(success)) => if success {
            (StartState::Ended, StartAction::Succeed)
        } else {
            (StartState::Ended, StartAction::Fail(StartFailure::FailedToStart))
        },
        (StartState::Launch, StartEvent::Spawned) => (
            StartState::Waiting { polls: 0 },
            StartAction::SleepThenProbe(POLL_MS),
        ),
        (StartState::Waiting { polls }, StartEvent::Running(running)) => if running || polls + 1
            >= START_POLLS {
            (StartState::LastCheck, StartAction::Probe)
        } else {
            (
                StartState::Waiting { polls: (polls + 1) as u32 },
                StartAction::SleepThenProbe(POLL_MS),
            )
        },
        (StartState::LastCheck, StartEvent::Running(running)) => if running {
            (StartState::Ended, StartAction::Succeed)
        } else {
            (StartState::Ended, StartAction::Fail(StartFailure::FailedToStart))
        },
        _ => (StartState::Ended, StartAction::Fail(StartFailure::FailedToStart)),
    }
}

/// One step of starting the service. The first event is whether it runs already.
pub fn start_step(state: StartState, event: StartEvent, foreground: bool) -> (r: (
    StartState,
    StartAction,
))
    ensures
        r == next_start(state, event, foreground),
{
    match (state, event) {
        (StartState::CheckRunning, StartEvent::Running(running)) => {
            if running {
                (StartState::Ended, StartAction::Fail(StartFailure::AlreadyRunning))
            } else {
                (StartState::CheckBinary, StartAction::LookForBinary)
            }
        },
        (StartState::CheckBinary, StartEvent::NoExecutableDir) => (
            StartState::Ended,
            StartAction::Fail(StartFailure::NoServiceBinary),
        ),
        (StartState::CheckBinary, StartEvent::BinaryFound(found)) => {
            if !found {
                (StartState::Ended, StartAction::Fail(StartFailure::BinaryNotFound))
            } else if foreground {
                (StartState::Launch, StartAction::RunInForeground)
            } else {
                (StartState::Launch, StartAction::SpawnInBackground)
            }
        },
        (StartState::Launch, StartEvent::Exited(success)) => {
            if success {
                (StartState::Ended, StartAction::Succeed)
            } else {
                (StartState::Ended, StartAction::Fail(StartFailure::FailedToStart))
            }
        },
        (StartState::Launch, StartEvent::Spawned) => (
            StartState::Waiting { polls: 0 },
            StartAction::SleepThenProbe(POLL_MS),
        ),
        (StartState::Waiting { polls }, StartEvent::Running(running)) => {
            if running || polls >= START_POLLS - 1 {
                (StartState::LastCheck, StartAction::Probe)
            } else {
                (StartState::Waiting { polls: polls + 1 }, StartAction::SleepThenProbe(POLL_MS))
            }
        },
        (StartState::LastCheck, StartEvent::Running(running)) => {
            if running {
                (StartState::Ended, StartAction::Succeed)
            } else {
                (StartState::Ended, StartAction::Fail(StartFailure::FailedToStart))
            }
        },
        _ => (StartState::Ended, StartAction::Fail(StartFailure::FailedToStart)),
    }
}

/// How many steps starting can still take.
pub open spec fn start_steps_left(state: StartState) -> int {
    match state {
        StartState::CheckRunning => 25,
        StartState::CheckBinary => 24,
        StartState::Launch => 23,
        StartState::Waiting { polls } => if polls < START_POLLS {
            22 - polls
        } else {
            2
        },
        StartState::LastCheck => 1,
        StartState::Ended => 0,
    }
}

/// Starting comes to an end: every step leaves fewer to take. It succeeds only where the
/// service was seen to run, or ran in the foreground and ended well.
pub proof fn starting_ends(state: StartState, event: StartEvent, foreground: bool)
    requires
        state != StartState::Ended,
    ensures
        0 <= start_steps_left(next_start(state, event, foreground).0) < start_steps_left(state),
        next_start(state, event, foreground).1 == StartAction::Succeed ==> event
            == StartEvent::Running(true) || event == StartEvent::Exited(true),
        next_start(state, event, foreground).0 == StartState::Ended <==> (next_start(
            state,
            event,
            foreground,
        ).1 == StartAction::Succeed || next_start(state, event, foreground).1 is Fail),
{
}

// ------------------------------------------------------------------- stopping

#[derive(Clone, Copy, Debug, PartialEq, Eq, Structural)]
pub enum StopState {
    CheckAlive,
    Terminating,
    /// The signal was sent; so many polls found the process alive.
    Waiting { polls: u32 },
    Ended,
}

#[derive(Clone, Copy, Debug, PartialEq, Eq, Structural)]
pub enum StopEvent {
    Alive(bool),
    SignalSent,
}

#[derive(Clone, Copy, Debug, PartialEq, Eq, Structural)]
pub enum StopAction {
    SendSignal,
    SleepThenProbe(u64),
    /// Remove the pid file; the service was not running.
    DropPidAndFail,
    /// Remove the pid file and the port file; the service is stopped.
    CleanUpAndSucceed,
    Fail,
}

pub const STOP_POLLS: u32 = 50;

pub open spec fn next_stop(state: StopState, event: StopEvent) -> (StopState, StopAction) {
    match (state, event) {
        (StopState::CheckAlive, StopEvent::Alive(alive)) => if alive {
            (StopState::Terminating, StopAction::SendSignal)
        } else {
            (StopState::Ended, StopAction::DropPidAndFail)
        },
        (StopState::Terminating, StopEvent::SignalSent) => (
            StopState::Waiting { polls: 0 },
            StopAction::SleepThenProbe(POLL_MS),
        ),
        (StopState::Waiting { polls }, StopEvent::Alive(alive)) => if !alive || polls + 1
            >= STOP_POLLS {
            (StopState::Ended, StopAction::CleanUpAndSucceed)
        } else {
            (
                StopState::Waiting { polls: (polls + 1) as u32 },
                StopAction::SleepThenProbe(POLL_MS),
            )
        },
        _ => (StopState::Ended, StopAction::Fail),
    }
}

/// One step of stopping the service. The first event is whether its process exists.
pub fn stop_step(state: StopState, event: StopEvent) -> (r: (StopState, StopAction))
    ensures
        r == next_stop(state, event),
{
    match (state, event) {
        (StopState::CheckAlive, StopEvent::Alive(alive)) => {
            if alive {
                (StopState::Terminating, StopAction::SendSignal)
            } else {
                (StopState::Ended, StopAction::DropPidAndFail)
            }
        },
        (StopState::Terminating, StopEvent::SignalSent) => (
            StopState::Waiting { polls: 0 },
            StopAction::SleepThenProbe(POLL_MS),
        ),
        (StopState::Waiting { polls }, StopEvent::Alive(alive)) => {
            if !alive || polls >= STOP_POLLS - 1 {
                (StopState::Ended, StopAction::CleanUpAndSucceed)
            } else {
                (StopState::Waiting { polls: polls + 1 }, StopAction::SleepThenProbe(POLL_MS))
            }
        },
        _ => (StopState::Ended, StopAction::Fail),
    }
}

pub open spec fn stop_steps_left(state: StopState) -> int {
    match state {
        StopState::CheckAlive => 52,
        StopState::Terminating => 51,
        StopState::Waiting { polls } => if polls < STOP_POLLS {
            50 - polls
        } else {
            1
        },
        StopState::Ended => 0,
    }
}

/// Stopping comes to an end: every step leaves fewer to take.
pub proof fn stopping_ends(state: StopState, event: StopEvent)
    requires
        state != StopState::Ended,
    ensures
        0 <= stop_steps_left(next_stop(state, event).0) < stop_steps_left(state),
{
}

// ------------------------------------------------------------------- commands

/// What the user asks of the service.
#[derive(Clone, Copy, Debug, PartialEq, Eq, Structural)]
pub enum ServiceRequest {
    Start,
    Run,
    Stop,
    Restart,
    Status,
    Enable,
}

/// A command line that asks something of the service.
pub trait ServiceCommand {
    /// What is asked, if anything.
    spec fn request(&self) -> Option<ServiceRequest>;

    fn is_start(&self) -> (r: bool)
        ensures
            r == (self.request() == Some(ServiceRequest::Start)),
    ;

    fn is_run(&self) -> (r: bool)
        ensures
            r == (self.request() == Some(ServiceRequest::Run)),
    ;

    fn is_stop(&self) -> (r: bool)
        ensures
            r == (self.request() == Some(ServiceRequest::Stop)),
    ;

    fn is_restart(&self) -> (r: bool)
        ensures
            r == (self.request() == Some(ServiceRequest::Restart)),
    ;

    fn is_status(&self) -> (r: bool)
        ensures
            r == (self.request() == Some(ServiceRequest::Status)),
    ;

    fn is_enable(&self) -> (r: bool)
        ensures
            r == (self.request() == Some(ServiceRequest::Enable)),
    ;
}

impl ServiceCommand for ServiceRequest {
    open spec fn request(&self) -> Option<ServiceRequest> {
        Some(*self)
    }

    fn is_start(&self) -> (r: bool) {
        *self == ServiceRequest::Start
    }

    fn is_run(&self) -> (r: bool) {
        *self == ServiceRequest::Run
    }

    fn is_stop(&self) -> (r: bool) {
        *self == ServiceRequest::Stop
    }

    fn is_restart(&self) -> (r: bool) {
        *self == ServiceRequest::Restart
    }

    fn is_status(&self) -> (r: bool) {
        *self == ServiceRequest::Status
    }

    fn is_enable(&self) -> (r: bool) {
        *self == ServiceRequest::Enable
    }
}

/// What a command line asks of the service.
pub fn requested<T: ServiceCommand>(cmd: &T) -> (r: Option<ServiceRequest>)
    ensures
        r == cmd.request(),
{
    if cmd.is_start() {
        Some(ServiceRequest::Start)
    } else if cmd.is_run() {
        Some(ServiceRequest::Run)
    } else if cmd.is_stop() {
        Some(ServiceRequest::Stop)
    } else if cmd.is_restart() {
        Some(ServiceRequest::Restart)
    } else if cmd.is_status() {
        Some(ServiceRequest::Status)
    } else if cmd.is_enable() {
        Some(ServiceRequest::Enable)
    } else {
        assert(cmd.request() is Some ==> {
            let q = cmd.request()->0;
            q is Start || q is Run || q is Stop || q is Restart || q is Status || q is Enable
        });
        None
    }
}

// ---------------------------------------------------------------------- restarting

/// How the service is started anew.
#[derive(Clone, Copy, Debug, PartialEq, Eq, Structural)]
pub enum RestartPlan {
    /// Stop it, wait so many milliseconds, then start it.
    StopFirst(u64),
    /// There is nothing to stop.
    Start,
}

/// The milliseconds between the end of the service and its new start.
pub const RESTART_WAIT_MS: u64 = 200;

/// Decides how the service is started anew: only one that runs is stopped.
pub fn plan_restart(running: bool) -> (r: RestartPlan)
    ensures
        r == (if running {
            RestartPlan::StopFirst(RESTART_WAIT_MS)
        } else {
            RestartPlan::Start
        }),
{
    if running {
        RestartPlan::StopFirst(RESTART_WAIT_MS)
    } else {
        RestartPlan::Start
    }
}

// ------------------------------------------------------------------------- laws

/// Law: an absolute directory that is given wins. A relative one counts as none, and the
/// directory of the system takes its place: the one for applications, or one below the home
/// of the user.
pub proof fn given_directories_win(
    xdg: Seq<char>,
    home: Seq<char>,
    win_dir: Option<Seq<char>>,
    rel: Seq<char>,
)
    requires
        rel.len() > 0,
        rel[0] != '/',
    ensures
        xdg.len() > 0 && xdg[0] == '/' ==> base(Some(xdg), Some(home), win_dir, false, rel) == Some(
            xdg,
        ) && base(Some(xdg), None, win_dir, true, rel) == Some(xdg),
        xdg.len() == 0 || xdg[0] != '/' ==> base(Some(xdg), Some(home), win_dir, false, rel)
            == base(None, Some(home), win_dir, false, rel),
        home.len() > 0 && home.last() != '/' ==> base(None, Some(home), win_dir, false, rel)
            == Some(home + "/"@ + rel),
        base(None, None, win_dir, false, rel) is None,
        base(None, Some(home), win_dir, true, rel) == win_dir,
{
}

/// Law: a service that runs is not started again, and nothing is launched for it. One that
/// does not run is launched once its binary is found, in the foreground where that was asked
/// for; without the binary the start fails.
pub proof fn services_are_started_once(foreground: bool, running: bool, found: bool)
    ensures
        ({
            let (checked, look) = next_start(
                StartState::CheckRunning,
                StartEvent::Running(running),
                foreground,
            );
            let (launched, launch) = next_start(
                checked,
                StartEvent::BinaryFound(found),
                foreground,
            );
            &&& running ==> look == StartAction::Fail(StartFailure::AlreadyRunning)
            &&& !running ==> look == StartAction::LookForBinary
            &&& !running && !found ==> launch == StartAction::Fail(StartFailure::BinaryNotFound)
            &&& !running && found && foreground ==> launch == StartAction::RunInForeground
            &&& !running && found && !foreground ==> launch == StartAction::SpawnInBackground
            &&& !running ==> next_start(checked, StartEvent::NoExecutableDir, foreground).1
                == StartAction::Fail(StartFailure::NoServiceBinary)
        }),
{
}

/// Law: a service in the foreground is a success if and only if it ended as one. In the
/// background it is looked for every tenth of a second, at most twenty times, and the start is
/// a success if and only if it is found running in the end.
pub proof fn started_services_run(polls: u32, foreground: bool, running: bool, exited: bool)
    ensures
        next_start(StartState::Launch, StartEvent::Exited(exited), foreground).1 == (if exited {
            StartAction::Succeed
        } else {
            StartAction::Fail(StartFailure::FailedToStart)
        }),
        next_start(StartState::Launch, StartEvent::Spawned, foreground) == (
            StartState::Waiting { polls: 0 },
            StartAction::SleepThenProbe(100),
        ),
        polls < 19 ==> next_start(
            StartState::Waiting { polls },
            StartEvent::Running(false),
            foreground,
        ) == (StartState::Waiting { polls: (polls + 1) as u32 }, StartAction::SleepThenProbe(100)),
        polls >= 19 || running ==> ({
            let (last, probe) = next_start(
                StartState::Waiting { polls },
                StartEvent::Running(running),
                foreground,
            );
            &&& probe == StartAction::Probe
            &&& next_start(last, StartEvent::Running(true), foreground).1 == StartAction::Succeed
            &&& next_start(last, StartEvent::Running(false), foreground).1 == StartAction::Fail(
                StartFailure::FailedToStart,
            )
        }),
{
}

/// Law: a service that runs is sent the signal and given five seconds, in which it is looked at
/// every tenth of one; its files are removed as soon as it is gone. Of one that does not run
/// only the file with its process is removed.
pub proof fn stopped_services_are_cleaned_up(polls: u32, alive: bool)
    ensures
        next_stop(StopState::CheckAlive, StopEvent::Alive(alive)).1 == (if alive {
            StopAction::SendSignal
        } else {
            StopAction::DropPidAndFail
        }),
        next_stop(
            next_stop(StopState::CheckAlive, StopEvent::Alive(true)).0,
            StopEvent::SignalSent,
        ) == (StopState::Waiting { polls: 0 }, StopAction::SleepThenProbe(100)),
        next_stop(StopState::Waiting { polls }, StopEvent::Alive(false)).1
            == StopAction::CleanUpAndSucceed,
        polls < 49 ==> next_stop(StopState::Waiting { polls }, StopEvent::Alive(true)) == (
            StopState::Waiting { polls: (polls + 1) as u32 },
            StopAction::SleepThenProbe(100),
        ),
        polls >= 49 ==> next_stop(StopState::Waiting { polls }, StopEvent::Alive(true)).1
            == StopAction::CleanUpAndSucceed,
{
}

/// Law: a number is accepted if and only if it is one that fits. A text that has no digits is
/// refused, and so is one that starts with anything else.
pub proof fn numbers_are_accepted_where_they_fit(s: Seq<char>, n: nat, max: nat)
    ensures
        n <= max ==> number_problem(crate::text::decimal(n), max) is None,
        n > max ==> number_problem(crate::text::decimal(n), max) is Some,
        number_problem(s, max) is None ==> s.len() > 0 && exists|v: nat|
            v <= max && #[trigger] parsed_unsigned(s, max) == Some(v),
        number_problem(seq![], max) == Some(NumberProblem::Empty),
        s.len() > 0 && s[0] != '+' && !is_digit(s[0]) ==> number_problem(s, max) == Some(
            NumberProblem::InvalidDigit,
        ),
{
    let d = crate::text::decimal(n);
    crate::text::lemma_decimal_value(n);
    assert(is_digit(d[0]));
    if n <= max {
        written_pid_reads_back(n, max);
    } else {
        lemma_digits_problem(d, max);
    }
    if number_problem(s, max) is None {
        let body = if s[0] == '+' {
            s.drop_first()
        } else {
            s
        };
        lemma_digits_problem(body, max);
        assert(parsed_unsigned(s, max) == Some(digits_value(body)));
    }
    if s.len() > 0 && s[0] != '+' && !is_digit(s[0]) {
        let first = s.take(1);
        assert(first.drop_last() =~= Seq::<char>::empty());
        assert(digits_problem(first.drop_last(), max) is None);
        assert(first.last() == s[0]);
        lemma_problem_stays(s, 1, max);
    }
}

} // verus!
