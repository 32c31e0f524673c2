//! Taking a process down: SIGTERM, a grace period, SIGKILL, and an honest
//! account of how it ended.
//!
//! The caller performs one action at a time and hands back what came of it;
//! which action is next is decided here.

use vstd::prelude::*;

use crate::signal::Platform;

verus! {

/// Milliseconds a process has to react to SIGTERM.
pub const TERM_GRACE: u64 = 5000;

/// Milliseconds a process has to disappear after SIGKILL.
pub const KILL_GRACE: u64 = 1000;

/// Milliseconds between two looks at a process that is being waited for.
pub const PROBE_PAUSE: u64 = 50;

/// How a stop attempt ended.
#[derive(Clone, Copy, PartialEq, Eq, Structural, Debug)]
pub enum StopOutcome {
    /// SIGTERM alone took the target down.
    Terminated,
    /// SIGTERM was ignored; SIGKILL took the target down.
    Killed,
    /// Still alive after SIGKILL (or unsignalable): give up honestly.
    Stubborn,
    /// `taskkill /F /T` was asked to take the tree down; whether it did cannot
    /// be known there.
    TreeKilled,
}

/// Group for `stop` and for pids deemo started (their session is theirs
/// alone). A single pid for everyone else: signalling the group of a server
/// started in a terminal would also reach the shell.
#[derive(Clone, Copy, PartialEq, Eq, Structural, Debug)]
pub enum Target {
    /// The whole process group led by this pid.
    Group(u32),
    /// A single process.
    Pid(u32),
}

impl Target {
    /// The pid everything else is derived from.
    pub open spec fn pid_spec(self) -> u32 {
        match self {
            Target::Group(pid) => pid,
            Target::Pid(pid) => pid,
        }
    }

    /// The pid everything else is derived from.
    #[verifier::when_used_as_spec(pid_spec)]
    pub fn pid(self) -> (pid: u32)
        ensures
            pid == self.pid_spec(),
    {
        match self {
            Target::Group(pid) => pid,
            Target::Pid(pid) => pid,
        }
    }

    /// Does nothing respond to a probe any more?
    pub open spec fn gone_spec(self, answered: bool, zombie: bool) -> bool {
        match self {
            Target::Group(_) => !answered,
            Target::Pid(_) => !answered || zombie,
        }
    }

    /// Does nothing respond to a probe any more? `answered` says whether the
    /// null signal could be sent to the target, `zombie` whether the process
    /// of that pid has exited without having been reaped. A group is gone once
    /// no member is left; a single process also once it is a zombie.
    pub fn gone(self, answered: bool, zombie: bool) -> (gone: bool)
        ensures
            gone == self.gone_spec(answered, zombie),
            gone == match self {
                Target::Group(_) => !answered,
                Target::Pid(_) => !answered || zombie,
            },
    {
        match self {
            Target::Group(_) => !answered,
            Target::Pid(_) => !(answered && !zombie),
        }
    }
}

/// The two signals of a stop attempt.
#[derive(Clone, Copy, PartialEq, Eq, Structural, Debug)]
pub enum Blow {
    Term,
    Kill,
}

/// What is to be done next.
#[derive(Clone, Copy, PartialEq, Eq, Structural, Debug)]
pub enum Action {
    /// Send this signal to the target.
    Send(Blow),
    /// Find out whether the target is gone.
    Probe,
    /// Read a clock that never runs backwards, in milliseconds.
    ReadClock,
    /// Sleep for this many milliseconds.
    Sleep(u64),
    /// Run `taskkill /F /T` on the pid.
    KillTree,
    /// Nothing: this is how it ended.
    Finish(StopOutcome),
}

/// What came of an action.
#[derive(Clone, Copy, PartialEq, Eq, Structural, Debug)]
pub enum Event {
    /// The signal was delivered, or the kernel refused it.
    Sent(bool),
    /// The target is gone, or it is not.
    Probed(bool),
    /// The clock's reading.
    Clock(u64),
    /// The sleep is over.
    Slept,
    /// `taskkill` has returned.
    TreeKilled,
}

/// How far a stop attempt has come.
#[derive(Clone, Copy, PartialEq, Eq, Structural, Debug)]
pub enum Progress {
    /// Before the SIGTERM.
    Start,
    /// The SIGTERM was refused: is the target gone anyway?
    Refused,
    /// A wait is about to begin, after the SIGKILL or before it.
    Open { killed: bool },
    /// In a wait that began at `since`: is there time left?
    Check { since: u64, killed: bool },
    /// In a wait: is the target gone? `last` says that the time is up.
    Look { since: u64, killed: bool, last: bool },
    /// In a wait, between two looks.
    Pause { since: u64, killed: bool },
    /// Before the SIGKILL.
    Escalate,
    /// Before the tree kill.
    Tree,
    /// Over.
    Ended(StopOutcome),
}

/// The length of a wait.
pub open spec fn grace(killed: bool) -> u64 {
    if killed {
        KILL_GRACE
    } else {
        TERM_GRACE
    }
}

impl Progress {
    /// The first step on a platform.
    pub open spec fn begin_spec(platform: Platform) -> Progress {
        match platform {
            Platform::Unix => Progress::Start,
            Platform::Windows => Progress::Tree,
        }
    }

    /// The first step: SIGTERM where there are signals, `taskkill` where there
    /// are none.
    pub fn begin(platform: Platform) -> (p: Progress)
        ensures
            p == Progress::begin_spec(platform),
            p == (match platform {
                Platform::Unix => Progress::Start,
                Platform::Windows => Progress::Tree,
            }),
    {
        match platform {
            Platform::Unix => Progress::Start,
            Platform::Windows => Progress::Tree,
        }
    }

    /// What is to be done at this point.
    pub open spec fn action_spec(self) -> Action {
        match self {
            Progress::Start => Action::Send(Blow::Term),
            Progress::Refused => Action::Probe,
            Progress::Open { .. } => Action::ReadClock,
            Progress::Check { .. } => Action::ReadClock,
            Progress::Look { .. } => Action::Probe,
            Progress::Pause { .. } => Action::Sleep(PROBE_PAUSE),
            Progress::Escalate => Action::Send(Blow::Kill),
            Progress::Tree => Action::KillTree,
            Progress::Ended(outcome) => Action::Finish(outcome),
        }
    }

    /// What is to be done at this point.
    #[verifier::when_used_as_spec(action_spec)]
    pub fn action(self) -> (action: Action)
        ensures
            action == self.action_spec(),
    {
        match self {
            Progress::Start => Action::Send(Blow::Term),
            Progress::Refused => Action::Probe,
            Progress::Open { .. } => Action::ReadClock,
            Progress::Check { .. } => Action::ReadClock,
            Progress::Look { .. } => Action::Probe,
            Progress::Pause { .. } => Action::Sleep(PROBE_PAUSE),
            Progress::Escalate => Action::Send(Blow::Kill),
            Progress::Tree => Action::KillTree,
            Progress::Ended(outcome) => Action::Finish(outcome),
        }
    }

    /// Where the attempt stands after an event. An event that answers another
    /// action than the one asked for changes nothing.
    pub open spec fn after_spec(self, event: Event) -> Progress {
        match (self, event) {
            (Progress::Start, Event::Sent(true)) => Progress::Open { killed: false },
            (Progress::Start, Event::Sent(false)) => Progress::Refused,
            (Progress::Refused, Event::Probed(true)) => Progress::Open { killed: false },
            (Progress::Refused, Event::Probed(false)) => Progress::Ended(StopOutcome::Stubborn),
            (Progress::Open { killed }, Event::Clock(now)) => Progress::Check {
                since: now,
                killed,
            },
            (Progress::Check { since, killed }, Event::Clock(now)) => Progress::Look {
                since,
                killed,
                last: now >= since + grace(killed),
            },
            (Progress::Look { since, killed, last }, Event::Probed(true)) => Progress::Ended(
                if killed {
                    StopOutcome::Killed
                } else {
                    StopOutcome::Terminated
                },
            ),
            (Progress::Look { since, killed, last }, Event::Probed(false)) => if !last {
                Progress::Pause { since, killed }
            } else if killed {
                Progress::Ended(StopOutcome::Stubborn)
            } else {
                Progress::Escalate
            },
            (Progress::Pause { since, killed }, Event::Slept) => Progress::Check { since, killed },
            (Progress::Escalate, Event::Sent(_)) => Progress::Open { killed: true },
            (Progress::Tree, Event::TreeKilled) => Progress::Ended(StopOutcome::TreeKilled),
            _ => self,
        }
    }

    /// Where the attempt stands after an event.
    #[verifier::when_used_as_spec(after_spec)]
    pub fn after(self, event: Event) -> (next: Progress)
        ensures
            next == self.after_spec(event),
    {
        match (self, event) {
            (Progress::Start, Event::Sent(delivered)) => if delivered {
                Progress::Open { killed: false }
            } else {
                Progress::Refused
            },
            (Progress::Refused, Event::Probed(gone)) => if gone {
                Progress::Open { killed: false }
            } else {
                // e.g. not permitted; nothing more we can do
                Progress::Ended(StopOutcome::Stubborn)
            },
            (Progress::Open { killed }, Event::Clock(now)) => Progress::Check {
                since: now,
                killed,
            },
            (Progress::Check { since, killed }, Event::Clock(now)) => {
                let limit: u64 = if killed {
                    KILL_GRACE
                } else {
                    TERM_GRACE
                };
                let last = now >= since && now - since >= limit;
                Progress::Look { since, killed, last }
            },
            (Progress::Look { since, killed, last }, Event::Probed(gone)) => if gone {
                if killed {
                    Progress::Ended(StopOutcome::Killed)
                } else {
                    Progress::Ended(StopOutcome::Terminated)
                }
            } else if !last {
                Progress::Pause { since, killed }
            } else if killed {
                Progress::Ended(StopOutcome::Stubborn)
            } else {
                Progress::Escalate
            },
            (Progress::Pause { since, killed }, Event::Slept) => Progress::Check { since, killed },
            (Progress::Escalate, Event::Sent(_)) => Progress::Open { killed: true },
            (Progress::Tree, Event::TreeKilled) => Progress::Ended(StopOutcome::TreeKilled),
            _ => self,
        }
    }
}

// ---------------------------------------------------------------------------
// Whole attempts
// ---------------------------------------------------------------------------

/// Where a stop attempt on unix stands after these events.
pub open spec fn progress(events: Seq<Event>) -> Progress
    decreases events.len(),
{
    if events.len() == 0 {
        Progress::Start
    } else {
        progress(events.drop_last()).after(events.last())
    }
}

/// What was asked for before the event at `i` came.
#[verifier::opaque]
pub open spec fn asked(events: Seq<Event>, i: int) -> Action {
    progress(events.take(i)).action()
}

/// Is the event what came of that action?
pub open spec fn answers(event: Event, action: Action) -> bool {
    match action {
        Action::Send(_) => event is Sent,
        Action::Probe => event is Probed,
        Action::ReadClock => event is Clock,
        Action::Sleep(_) => event is Slept,
        Action::KillTree => event is TreeKilled,
        Action::Finish(_) => false,
    }
}

/// The events of an attempt on unix: each came of the action asked for.
pub open spec fn attempt(events: Seq<Event>) -> bool
    decreases events.len(),
{
    events.len() == 0 || (attempt(events.drop_last()) && answers(
        events.last(),
        progress(events.drop_last()).action(),
    ))
}

/// The signal was sent for the event at `i`.
pub open spec fn sent(events: Seq<Event>, blow: Blow, i: int) -> bool {
    0 <= i < events.len() && asked(events, i) == Action::Send(blow)
}

/// The SIGKILL was sent at some point.
pub open spec fn kill_sent(events: Seq<Event>) -> bool {
    exists|i: int| sent(events, Blow::Kill, i)
}

/// The clock was read at `from` and once more at `to`, at least `ms` later,
/// and the target was still there after that.
pub open spec fn outlasted(events: Seq<Event>, from: int, to: int, ms: u64) -> bool {
    &&& 0 <= from < to < events.len() - 1
    &&& events[from] is Clock
    &&& events[to] is Clock
    &&& events[to]->Clock_0 >= events[from]->Clock_0 + ms
    &&& events[to + 1] == Event::Probed(false)
}

/// The target had the whole grace period after SIGTERM and was still there.
pub open spec fn outlasted_term(events: Seq<Event>) -> bool {
    exists|from: int, to: int| #[trigger] outlasted(events, from, to, TERM_GRACE)
}

/// The clock was read as `since` before the last event.
spec fn began(events: Seq<Event>, since: u64, before: int) -> bool {
    exists|from: int| 0 <= from < before && #[trigger] events[from] == Event::Clock(since)
}

/// What has happened by each point of an attempt.
spec fn history(events: Seq<Event>) -> bool {
    let p = progress(events);
    let n = events.len() as int;
    &&& kill_sent(events) || p == Progress::Escalate ==> outlasted_term(events)
    &&& match p {
        Progress::Start => n == 0 && !kill_sent(events),
        Progress::Refused => n == 1 && events[0] == Event::Sent(false) && !kill_sent(events),
        Progress::Open { killed } => n > 0 && killed == kill_sent(events),
        Progress::Check { since, killed } => n > 0 && killed == kill_sent(events) && began(
            events,
            since,
            n,
        ),
        Progress::Pause { since, killed } => n > 0 && killed == kill_sent(events) && began(
            events,
            since,
            n,
        ),
        Progress::Look { since, killed, last } => {
            &&& n > 0
            &&& killed == kill_sent(events)
            &&& began(events, since, n - 1)
            &&& events[n - 1] is Clock
            &&& last ==> events[n - 1]->Clock_0 >= since + grace(killed)
        },
        Progress::Escalate => n > 0 && !kill_sent(events),
        Progress::Tree => false,
        Progress::Ended(outcome) => {
            &&& n > 0
            &&& match outcome {
                StopOutcome::Terminated => events[n - 1] == Event::Probed(true) && !kill_sent(events),
                StopOutcome::Killed => events[n - 1] == Event::Probed(true) && kill_sent(events),
                StopOutcome::Stubborn => events[n - 1] == Event::Probed(false) && (kill_sent(events)
                    || n == 2 && events[0] == Event::Sent(false)),
                StopOutcome::TreeKilled => false,
            }
        },
    }
}

proof fn shorter(events: Seq<Event>)
    requires
        events.len() > 0,
        attempt(events),
    ensures
        attempt(events.drop_last()),
        answers(events.last(), progress(events.drop_last()).action()),
        forall|blow: Blow, i: int| #[trigger]
            sent(events, blow, i) <==> (sent(events.drop_last(), blow, i) || (i == events.len() - 1
                && progress(events.drop_last()).action() == Action::Send(blow))),
        kill_sent(events) == (kill_sent(events.drop_last()) || progress(events.drop_last())
            == Progress::Escalate),
        outlasted_term(events.drop_last()) ==> outlasted_term(events),
{
    reveal(asked);
    let prev = events.drop_last();
    let n = events.len() as int;
    assert(events.take(n - 1) =~= prev);
    assert forall|blow: Blow, i: int| #[trigger] sent(events, blow, i) <==> (sent(prev, blow, i) || (
    i == n - 1 && progress(prev).action() == Action::Send(blow))) by {
        if 0 <= i < prev.len() {
            assert(prev.take(i) =~= events.take(i));
        }
    }
    if kill_sent(events) {
        let i = choose|i: int| sent(events, Blow::Kill, i);
        assert(sent(prev, Blow::Kill, i) || progress(prev) == Progress::Escalate);
    }
    if kill_sent(prev) {
        let i = choose|i: int| sent(prev, Blow::Kill, i);
        assert(sent(events, Blow::Kill, i));
    }
    if progress(prev) == Progress::Escalate {
        assert(sent(events, Blow::Kill, n - 1));
    }
    if outlasted_term(prev) {
        let (from, to) = choose|from: int, to: int| #[trigger]
            outlasted(prev, from, to, TERM_GRACE);
        assert(outlasted(events, from, to, TERM_GRACE));
    }
}

proof fn history_holds(events: Seq<Event>)
    requires
        attempt(events),
    ensures
        history(events),
    decreases events.len(),
{
    let n = events.len() as int;
    if n > 0 {
        let prev = events.drop_last();
        shorter(events);
        history_holds(prev);
        let last = events.last();
        match progress(prev) {
            Progress::Open { killed } => {
                assert(events[n - 1] == Event::Clock(last->Clock_0));
            },
            Progress::Check { since, killed } => {
                let from = choose|from: int|
                    0 <= from < n - 1 && #[trigger] prev[from] == Event::Clock(since);
                assert(events[from] == Event::Clock(since));
            },
            Progress::Pause { since, killed } => {
                let from = choose|from: int|
                    0 <= from < n - 1 && #[trigger] prev[from] == Event::Clock(since);
                assert(events[from] == Event::Clock(since));
            },
            Progress::Look { since, killed, last: over } => {
                let from = choose|from: int|
                    0 <= from < n - 2 && #[trigger] prev[from] == Event::Clock(since);
                assert(events[from] == Event::Clock(since));
                assert(events[n - 2] == prev[n - 2]);
                if over && !killed && last == Event::Probed(false) {
                    assert(outlasted(events, from, n - 2, TERM_GRACE));
                }
            },
            _ => {},
        }
    }
}

/// SIGTERM is what every attempt starts with.
pub proof fn term_comes_first(events: Seq<Event>)
    requires
        attempt(events),
        events.len() > 0,
    ensures
        sent(events, Blow::Term, 0),
{
    reveal(asked);
    assert(events.take(0) =~= Seq::empty());
}

/// Only a target that is still there after the whole grace period is sent a
/// SIGKILL.
pub proof fn no_kill_before_the_grace_is_over(events: Seq<Event>)
    requires
        attempt(events),
    ensures
        kill_sent(events) ==> outlasted_term(events),
{
    history_holds(events);
}

/// "Terminated" is said of a target that was seen to be gone without a
/// SIGKILL.
pub proof fn terminated_is_gone_without_kill(events: Seq<Event>)
    requires
        attempt(events),
        progress(events) == Progress::Ended(StopOutcome::Terminated),
    ensures
        events.len() > 0 && events.last() == Event::Probed(true),
        !kill_sent(events),
{
    history_holds(events);
}

/// "Killed" is said of a target that was seen to be gone after a SIGKILL.
pub proof fn killed_is_gone_after_kill(events: Seq<Event>)
    requires
        attempt(events),
        progress(events) == Progress::Ended(StopOutcome::Killed),
    ensures
        events.len() > 0 && events.last() == Event::Probed(true),
        kill_sent(events),
{
    history_holds(events);
}

/// "Stubborn" is said of a target that was seen to be there at the end, after
/// a SIGKILL or where not even the SIGTERM could be sent.
pub proof fn stubborn_is_still_there(events: Seq<Event>)
    requires
        attempt(events),
        progress(events) == Progress::Ended(StopOutcome::Stubborn),
    ensures
        events.len() > 0 && events.last() == Event::Probed(false),
        kill_sent(events) || events[0] == Event::Sent(false),
{
    history_holds(events);
}

proof fn at_most_once(events: Seq<Event>)
    requires
        attempt(events),
    ensures
        kill_sent(events) ==> progress(events) != Progress::Escalate,
        progress(events) == Progress::Start ==> events.len() == 0,
{
    history_holds(events);
}

/// Each of the two signals is sent at most once.
pub proof fn each_signal_is_sent_once(events: Seq<Event>, blow: Blow, i: int, j: int)
    requires
        attempt(events),
        sent(events, blow, i),
        sent(events, blow, j),
    ensures
        i == j,
    decreases events.len(),
{
    let prev = events.drop_last();
    shorter(events);
    at_most_once(prev);
    if i < events.len() - 1 && j < events.len() - 1 {
        each_signal_is_sent_once(prev, blow, i, j);
    } else if i != j {
        let k = if i < j { i } else { j };
        assert(sent(prev, blow, k));
        assert(progress(prev).action() == Action::Send(blow));
    }
}

} // verus!
