//! Passing a stream through to stdout and into the log, line by line.
//!
//! The caller performs one action at a time on the current line and hands back
//! what came of it; which action is next, and what is said, is decided here.

use vstd::prelude::*;

verus! {

/// Exit code of a stream that went through.
pub const EXIT_OK: i32 = 0;

/// Exit code of a failure of our own.
pub const EXIT_ERROR: i32 = 1;

/// Exit code after Ctrl+C: 128 + SIGINT, the unix convention.
pub const EXIT_INTERRUPTED: i32 = 130;

/// Where the stream comes from and who waits for it.
#[derive(Clone, Copy, PartialEq, Eq, Structural, Debug)]
pub enum Source {
    /// `cmd | deemo`: our stdin.
    Pipe,
    /// `cmd | deemo --background`: our stdin, in a session of our own that
    /// outlives the terminal.
    DetachedPipe,
    /// `deemo --foreground -- cmd`: both streams of a child.
    Child,
}

/// What is being done with the current line.
#[derive(Clone, Copy, PartialEq, Eq, Structural, Debug)]
pub enum Phase {
    Reading,
    Echoing,
    Logging,
    /// The stream is over; the child is waited for.
    Waiting,
    Over(i32),
}

/// What is to be done next.
#[derive(Clone, Copy, PartialEq, Eq, Structural, Debug)]
pub enum Action {
    /// Read the next line.
    Read,
    /// Write the line to stdout and flush it.
    Echo,
    /// Append the line to the log.
    Log,
    /// Wait for the child.
    Wait,
    /// Leave with this exit code.
    Exit(i32),
}

/// What came of an action.
#[derive(Debug)]
pub enum Event {
    /// A line was read, or what is left of one before the end.
    Line,
    /// Every writer is gone; was Ctrl+C pressed meanwhile?
    End { interrupted: bool },
    /// The line could not be read.
    ReadFailed(String),
    /// The line is on stdout.
    Echoed,
    /// The reader of our stdout is gone.
    EchoBroken,
    /// The line could not be written to stdout.
    EchoFailed(String),
    /// The line is in the log.
    Logged,
    /// The line could not be written to the log.
    LogFailed,
    /// The child has exited: its status as shown, and the exit code for it.
    Exited { status: String, code: i32 },
    /// The child could not be waited for.
    WaitFailed(String),
}

/// What goes with a step.
#[derive(Debug)]
pub struct Effects {
    /// The line to print on stderr.
    pub message: Option<String>,
    /// The child is to be killed.
    pub kill_child: bool,
    /// Say where the log is.
    pub report_log: bool,
}

/// A stream in the course of being passed through.
#[derive(Clone, Copy, PartialEq, Eq, Structural, Debug)]
pub struct Pump {
    pub source: Source,
    /// `--quiet`: log only.
    pub quiet: bool,
    /// Is there a log?
    pub logging: bool,
    /// Is stdout lost?
    pub mute: bool,
    pub phase: Phase,
}

/// A text, or none.
pub open spec fn text_of(message: Option<String>) -> Option<Seq<char>> {
    match message {
        Some(s) => Some(s@),
        None => None,
    }
}

impl Pump {
    /// Before the first line.
    pub open spec fn new_spec(source: Source, quiet: bool, logging: bool) -> Pump {
        Pump { source, quiet, logging, mute: false, phase: Phase::Reading }
    }

    /// Before the first line.
    pub fn new(source: Source, quiet: bool, logging: bool) -> (pump: Pump)
        ensures
            pump == Pump::new_spec(source, quiet, logging),
            pump == (Pump { source, quiet, logging, mute: false, phase: Phase::Reading }),
    {
        Pump { source, quiet, logging, mute: false, phase: Phase::Reading }
    }

    /// What is to be done now.
    pub open spec fn action_spec(self) -> Action {
        match self.phase {
            Phase::Reading => Action::Read,
            Phase::Echoing => Action::Echo,
            Phase::Logging => Action::Log,
            Phase::Waiting => Action::Wait,
            Phase::Over(code) => Action::Exit(code),
        }
    }

    /// What is to be done now.
    #[verifier::when_used_as_spec(action_spec)]
    pub fn action(self) -> (action: Action)
        ensures
            action == self.action_spec(),
    {
        match self.phase {
            Phase::Reading => Action::Read,
            Phase::Echoing => Action::Echo,
            Phase::Logging => Action::Log,
            Phase::Waiting => Action::Wait,
            Phase::Over(code) => Action::Exit(code),
        }
    }

    /// In another phase.
    pub open spec fn at(self, phase: Phase) -> Pump {
        Pump { phase, ..self }
    }

    /// With the line dealt with as far as stdout goes: the log is next, where
    /// there is one.
    pub open spec fn past_echo(self) -> Pump {
        if self.logging {
            self.at(Phase::Logging)
        } else {
            self.at(Phase::Reading)
        }
    }

    /// How it goes on after an event. An event that answers another action
    /// than the one asked for changes nothing.
    pub open spec fn after_spec(self, event: Event) -> Pump {
        match (self.phase, event) {
            (Phase::Reading, Event::Line) => if self.quiet || self.mute {
                self.past_echo()
            } else {
                self.at(Phase::Echoing)
            },
            (Phase::Reading, Event::End { interrupted }) => match self.source {
                Source::Child => self.at(Phase::Waiting),
                _ => self.at(
                    Phase::Over(
                        if interrupted {
                            EXIT_INTERRUPTED
                        } else {
                            EXIT_OK
                        },
                    ),
                ),
            },
            (Phase::Reading, Event::ReadFailed(_)) => self.at(Phase::Over(EXIT_ERROR)),
            (Phase::Echoing, Event::Echoed) => self.past_echo(),
            (Phase::Echoing, Event::EchoBroken) => match self.source {
                Source::DetachedPipe => (Pump { mute: true, ..self }).past_echo(),
                _ => self.at(Phase::Over(EXIT_OK)),
            },
            (Phase::Echoing, Event::EchoFailed(_)) => match self.source {
                Source::DetachedPipe => (Pump { mute: true, ..self }).past_echo(),
                _ => self.at(Phase::Over(EXIT_ERROR)),
            },
            (Phase::Logging, Event::Logged) => self.at(Phase::Reading),
            (Phase::Logging, Event::LogFailed) => (Pump {
                logging: false,
                phase: Phase::Reading,
                ..self
            }),
            (Phase::Waiting, Event::Exited { status, code }) => self.at(Phase::Over(code)),
            (Phase::Waiting, Event::WaitFailed(_)) => self.at(Phase::Over(EXIT_ERROR)),
            _ => self,
        }
    }

    /// What is said on an event.
    pub open spec fn says(self, event: Event) -> Option<Seq<char>> {
        match (self.phase, event) {
            (Phase::Reading, Event::ReadFailed(e)) => Some("deemo: error reading stdin: "@ + e@),
            (Phase::Echoing, Event::EchoBroken) => match self.source {
                Source::DetachedPipe => Some("deemo: terminal gone; switching to log-only"@),
                _ => None,
            },
            (Phase::Echoing, Event::EchoFailed(e)) => Some("deemo: error writing stdout: "@ + e@),
            (Phase::Logging, Event::LogFailed) => if self.mute {
                None
            } else {
                Some("deemo: warning: log write failed, continuing without logging"@)
            },
            (Phase::Waiting, Event::Exited { status, code }) => Some(
                "deemo: child exited ("@ + status@ + ")"@,
            ),
            (Phase::Waiting, Event::WaitFailed(e)) => Some(
                "deemo: error waiting for child: "@ + e@,
            ),
            _ => None,
        }
    }

    /// Is the child killed on an event? It is where stdout is lost: it would
    /// only die of the broken pipe anyway.
    pub open spec fn kills(self, event: Event) -> bool {
        self.phase == Phase::Echoing && (event is EchoBroken || event is EchoFailed) && self.source
            == Source::Child
    }

    /// Is it said where the log is? At the end of the stream, and where stdout
    /// fails for another reason than a reader that is gone.
    pub open spec fn reports_log(self, event: Event) -> bool {
        self.logging && match (self.phase, event) {
            (Phase::Reading, Event::End { interrupted }) => self.source != Source::Child,
            (Phase::Echoing, Event::EchoFailed(_)) => self.source != Source::DetachedPipe,
            (Phase::Waiting, Event::Exited { status, code }) => true,
            (Phase::Waiting, Event::WaitFailed(_)) => true,
            _ => false,
        }
    }

    fn to(self, phase: Phase) -> (pump: Pump)
        ensures
            pump == self.at(phase),
    {
        Pump { source: self.source, quiet: self.quiet, logging: self.logging, mute: self.mute, phase }
    }

    fn on_line(self) -> (pump: Pump)
        requires
            self.phase == Phase::Reading,
        ensures
            pump == self.after_spec(Event::Line),
    {
        if !self.quiet && !self.mute {
            self.to(Phase::Echoing)
        } else if self.logging {
            self.to(Phase::Logging)
        } else {
            self.to(Phase::Reading)
        }
    }

    /// Stdout is lost: in a session of our own we go on without it, and the
    /// line still goes into the log.
    fn on_loss(self, code: i32) -> (pump: Pump)
        ensures
            self.source == Source::DetachedPipe ==> pump == (Pump { mute: true, ..self }).past_echo(),
            self.source != Source::DetachedPipe ==> pump == self.at(Phase::Over(code)),
    {
        match self.source {
            Source::DetachedPipe => Pump {
                source: self.source,
                quiet: self.quiet,
                logging: self.logging,
                mute: true,
                phase: if self.logging {
                    Phase::Logging
                } else {
                    Phase::Reading
                },
            },
            _ => self.to(Phase::Over(code)),
        }
    }

    /// How it goes on after an event, and what goes with it.
    pub fn after(self, event: &Event) -> (next: (Pump, Effects))
        ensures
            next.0 == self.after_spec(*event),
            text_of(next.1.message) == self.says(*event),
            next.1.kill_child == self.kills(*event),
            next.1.report_log == self.reports_log(*event),
    {
        proof {
            reveal_strlit("");
        }
        let attached = match self.source {
            Source::DetachedPipe => false,
            _ => true,
        };
        let child = match self.source {
            Source::Child => true,
            _ => false,
        };
        match (self.phase, event) {
            (Phase::Reading, Event::Line) => (self.on_line(), silent()),
            (Phase::Reading, Event::End { interrupted }) => if child {
                (self.to(Phase::Waiting), silent())
            } else {
                let code: i32 = if *interrupted {
                    EXIT_INTERRUPTED
                } else {
                    EXIT_OK
                };
                (
                    self.to(Phase::Over(code)),
                    Effects { message: None, kill_child: false, report_log: self.logging },
                )
            },
            (Phase::Reading, Event::ReadFailed(e)) => (
                self.to(Phase::Over(EXIT_ERROR)),
                Effects {
                    message: Some(joined("deemo: error reading stdin: ", e.as_str(), "")),
                    kill_child: false,
                    report_log: false,
                },
            ),
            (Phase::Echoing, Event::Echoed) => (
                if self.logging {
                    self.to(Phase::Logging)
                } else {
                    self.to(Phase::Reading)
                },
                silent(),
            ),
            (Phase::Echoing, Event::EchoBroken) => (
                self.on_loss(EXIT_OK),
                Effects {
                    message: if attached {
                        None
                    } else {
                        Some("deemo: terminal gone; switching to log-only".to_string())
                    },
                    kill_child: child,
                    report_log: false,
                },
            ),
            (Phase::Echoing, Event::EchoFailed(e)) => (
                self.on_loss(EXIT_ERROR),
                Effects {
                    message: Some(joined("deemo: error writing stdout: ", e.as_str(), "")),
                    kill_child: child,
                    report_log: self.logging && attached,
                },
            ),
            (Phase::Logging, Event::Logged) => (self.to(Phase::Reading), silent()),
            (Phase::Logging, Event::LogFailed) => (
                // Degrade to pure passthrough; never kill the user's stream
                // because of a disk problem.
                Pump {
                    source: self.source,
                    quiet: self.quiet,
                    logging: false,
                    mute: self.mute,
                    phase: Phase::Reading,
                },
                Effects {
                    message: if self.mute {
                        None
                    } else {
                        Some(
                            "deemo: warning: log write failed, continuing without logging".to_string(),
                        )
                    },
                    kill_child: false,
                    report_log: false,
                },
            ),
            (Phase::Waiting, Event::Exited { status, code }) => (
                self.to(Phase::Over(*code)),
                Effects {
                    message: Some(joined("deemo: child exited (", status.as_str(), ")")),
                    kill_child: false,
                    report_log: self.logging,
                },
            ),
            (Phase::Waiting, Event::WaitFailed(e)) => (
                self.to(Phase::Over(EXIT_ERROR)),
                Effects {
                    message: Some(joined("deemo: error waiting for child: ", e.as_str(), "")),
                    kill_child: false,
                    report_log: self.logging,
                },
            ),
            _ => (self, silent()),
        }
    }
}

fn silent() -> (effects: Effects)
    ensures
        effects == (Effects { message: None, kill_child: false, report_log: false }),
{
    Effects { message: None, kill_child: false, report_log: false }
}

fn joined(front: &str, middle: &str, end: &str) -> (out: String)
    ensures
        out@ == front@ + middle@ + end@,
        end@.len() == 0 ==> out@ == front@ + middle@,
{
    let mut out = String::from_str(front);
    out.append(middle);
    out.append(end);
    proof {
        if end@.len() == 0 {
            assert(out@ =~= front@ + middle@);
        }
    }
    out
}

/// Where the log is, for the end of a run.
pub fn log_report(path: &str) -> (message: String)
    ensures
        message@ == "deemo: log saved to "@ + path@,
{
    let mut message = String::from_str("deemo: log saved to ");
    message.append(path);
    message
}

// ---------------------------------------------------------------------------
// Whole streams
// ---------------------------------------------------------------------------

/// Is the event what can come of that action?
pub open spec fn answers(event: Event, action: Action) -> bool {
    match action {
        Action::Read => event is Line || event is End || event is ReadFailed,
        Action::Echo => event is Echoed || event is EchoBroken || event is EchoFailed,
        Action::Log => event is Logged || event is LogFailed,
        Action::Wait => event is Exited || event is WaitFailed,
        Action::Exit(_) => false,
    }
}

/// Where a pump stands after these events.
pub open spec fn pumped(start: Pump, events: Seq<Event>) -> Pump
    decreases events.len(),
{
    if events.len() == 0 {
        start
    } else {
        pumped(start, events.drop_last()).after_spec(events.last())
    }
}

/// The events of a stream: each came of the action asked for.
pub open spec fn course(start: Pump, events: Seq<Event>) -> bool
    decreases events.len(),
{
    events.len() == 0 || (course(start, events.drop_last()) && answers(
        events.last(),
        pumped(start, events.drop_last()).action(),
    ))
}

/// How many lines were read.
pub open spec fn lines_read(events: Seq<Event>) -> nat
    decreases events.len(),
{
    if events.len() == 0 {
        0
    } else {
        lines_read(events.drop_last()) + if events.last() is Line {
            1nat
        } else {
            0
        }
    }
}

/// The lines that went to stdout, by their numbers.
pub open spec fn lines_echoed(events: Seq<Event>) -> Seq<nat>
    decreases events.len(),
{
    if events.len() == 0 {
        seq![]
    } else if events.last() is Echoed {
        lines_echoed(events.drop_last()).push(lines_read(events.drop_last()))
    } else {
        lines_echoed(events.drop_last())
    }
}

/// The lines that went into the log, by their numbers.
pub open spec fn lines_logged(events: Seq<Event>) -> Seq<nat>
    decreases events.len(),
{
    if events.len() == 0 {
        seq![]
    } else if events.last() is Logged {
        lines_logged(events.drop_last()).push(lines_read(events.drop_last()))
    } else {
        lines_logged(events.drop_last())
    }
}

/// The lines 1 to `n`, each once, in order.
pub open spec fn all_lines(n: nat) -> Seq<nat> {
    Seq::new(n, |i: int| (i + 1) as nat)
}

/// No line was lost on its way to stdout.
pub open spec fn stdout_held(events: Seq<Event>) -> bool
    decreases events.len(),
{
    events.len() == 0 || (stdout_held(events.drop_last()) && !(events.last() is EchoBroken) && !(
    events.last() is EchoFailed))
}

/// No line was lost on its way into the log.
pub open spec fn log_held(events: Seq<Event>) -> bool
    decreases events.len(),
{
    events.len() == 0 || (log_held(events.drop_last()) && !(events.last() is LogFailed))
}

proof fn settings_stay(start: Pump, events: Seq<Event>)
    requires
        course(start, events),
    ensures
        pumped(start, events).source == start.source,
        pumped(start, events).quiet == start.quiet,
        stdout_held(events) ==> pumped(start, events).mute == start.mute,
        log_held(events) ==> pumped(start, events).logging == start.logging,
        pumped(start, events).logging ==> start.logging,
    decreases events.len(),
{
    if events.len() > 0 {
        settings_stay(start, events.drop_last());
    }
}

/// With `--quiet`, nothing goes to stdout, nor is it asked for.
pub proof fn quiet_never_echoes(start: Pump, events: Seq<Event>)
    requires
        start.phase == Phase::Reading,
        start.quiet,
        course(start, events),
    ensures
        pumped(start, events).action() != Action::Echo,
        lines_echoed(events).len() == 0,
    decreases events.len(),
{
    if events.len() > 0 {
        quiet_never_echoes(start, events.drop_last());
        settings_stay(start, events.drop_last());
    }
}

/// Without a log, nothing is asked to be logged.
pub proof fn without_a_log_nothing_is_logged(start: Pump, events: Seq<Event>)
    requires
        start.phase == Phase::Reading,
        !start.logging,
        course(start, events),
    ensures
        pumped(start, events).action() != Action::Log,
        lines_logged(events).len() == 0,
    decreases events.len(),
{
    if events.len() > 0 {
        without_a_log_nothing_is_logged(start, events.drop_last());
        settings_stay(start, events.drop_last());
    }
}

proof fn echo_keeps_up(start: Pump, events: Seq<Event>)
    requires
        start.phase == Phase::Reading,
        !start.quiet,
        !start.mute,
        course(start, events),
        stdout_held(events),
    ensures
        pumped(start, events).phase == Phase::Echoing ==> lines_read(events) > 0 && lines_echoed(
            events,
        ) == all_lines((lines_read(events) - 1) as nat),
        pumped(start, events).phase != Phase::Echoing ==> lines_echoed(events) == all_lines(
            lines_read(events),
        ),
    decreases events.len(),
{
    if events.len() > 0 {
        let prev = events.drop_last();
        echo_keeps_up(start, prev);
        settings_stay(start, prev);
        if events.last() is Echoed {
            assert(all_lines(lines_read(prev)) =~= all_lines((lines_read(prev) - 1) as nat).push(
                lines_read(prev),
            ));
        }
    } else {
        assert(all_lines(0) =~= Seq::<nat>::empty());
    }
}

/// While stdout holds, every line that was read goes there, once and in order,
/// before the next one is read, whatever becomes of the log.
pub proof fn every_line_is_passed_through(start: Pump, events: Seq<Event>)
    requires
        start.phase == Phase::Reading,
        !start.quiet,
        !start.mute,
        course(start, events),
        stdout_held(events),
        pumped(start, events).phase != Phase::Echoing,
    ensures
        lines_echoed(events) == all_lines(lines_read(events)),
{
    echo_keeps_up(start, events);
}

proof fn log_keeps_up(start: Pump, events: Seq<Event>)
    requires
        start.phase == Phase::Reading,
        start.logging,
        course(start, events),
        stdout_held(events) || start.source == Source::DetachedPipe,
        log_held(events),
    ensures
        ({
            let phase = pumped(start, events).phase;
            if phase == Phase::Echoing || phase == Phase::Logging {
                lines_read(events) > 0 && lines_logged(events) == all_lines(
                    (lines_read(events) - 1) as nat,
                )
            } else {
                lines_logged(events) == all_lines(lines_read(events))
            }
        }),
    decreases events.len(),
{
    if events.len() > 0 {
        let prev = events.drop_last();
        log_keeps_up(start, prev);
        settings_stay(start, prev);
        if events.last() is Logged {
            assert(all_lines(lines_read(prev)) =~= all_lines((lines_read(prev) - 1) as nat).push(
                lines_read(prev),
            ));
        }
    } else {
        assert(all_lines(0) =~= Seq::<nat>::empty());
    }
}

/// While the log holds, and stdout too or the pump has a session of its own,
/// every line that was read is in the log, once and in order, when the next one
/// is read and at the end. A detached pump that loses its terminal loses no
/// line.
pub proof fn every_line_is_logged(start: Pump, events: Seq<Event>)
    requires
        start.phase == Phase::Reading,
        start.logging,
        course(start, events),
        stdout_held(events) || start.source == Source::DetachedPipe,
        log_held(events),
        pumped(start, events).phase != Phase::Echoing,
        pumped(start, events).phase != Phase::Logging,
    ensures
        lines_logged(events) == all_lines(lines_read(events)),
{
    log_keeps_up(start, events);
}

/// A log that cannot be written to never ends the stream.
pub proof fn a_broken_log_does_not_end_the_stream(pump: Pump)
    requires
        pump.action() == Action::Log,
    ensures
        pump.after_spec(Event::LogFailed).action() == Action::Read,
        !pump.after_spec(Event::LogFailed).logging,
{
}

/// A pump in a session of its own outlives its terminal: only the end of its
/// input ends it.
pub proof fn a_detached_pump_outlives_its_terminal(start: Pump, events: Seq<Event>, code: i32)
    requires
        start.source == Source::DetachedPipe,
        start.phase == Phase::Reading,
        course(start, events),
        pumped(start, events).action() == Action::Exit(code),
    ensures
        events.len() > 0,
        events.last() is End || events.last() is ReadFailed,
{
    if events.len() > 0 {
        let prev = events.drop_last();
        settings_stay(start, prev);
        no_waiting(start, prev);
    }
}

proof fn no_waiting(start: Pump, events: Seq<Event>)
    requires
        start.source != Source::Child,
        start.phase == Phase::Reading,
        course(start, events),
    ensures
        pumped(start, events).phase != Phase::Waiting,
    decreases events.len(),
{
    if events.len() > 0 {
        no_waiting(start, events.drop_last());
        settings_stay(start, events.drop_last());
    }
}

/// A reader of our stdout that goes away is no error: the exit code is 0, and
/// nothing is said.
pub proof fn a_broken_pipe_is_graceful(pump: Pump)
    requires
        pump.action() == Action::Echo,
        pump.source != Source::DetachedPipe,
    ensures
        pump.after_spec(Event::EchoBroken).action() == Action::Exit(EXIT_OK),
        pump.says(Event::EchoBroken) is None,
        !pump.reports_log(Event::EchoBroken),
{
}

} // verus!
