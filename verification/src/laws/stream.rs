//! How a stream goes on, how it ends, and what is said of it.

use vstd::prelude::*;

use crate::stream::{Action, Event, Phase, Pump, Source};

verus! {

/// The exit code of a child that was waited for is ours, whatever it is.
pub proof fn the_childs_exit_code_is_passed_on(pump: Pump, status: String, code: i32)
    requires
        pump.action() == Action::Wait,
    ensures
        pump.after_spec(Event::Exited { status, code }).action() == Action::Exit(code),
{
}

proof fn only_a_child_is_waited_for(start: Pump, events: Seq<Event>)
    requires
        start.phase == Phase::Reading,
        crate::stream::course(start, events),
    ensures
        crate::stream::pumped(start, events).source == start.source,
        crate::stream::pumped(start, events).phase == Phase::Waiting ==> start.source
            == Source::Child,
    decreases events.len(),
{
    if events.len() > 0 {
        only_a_child_is_waited_for(start, events.drop_last());
    }
}

/// What the exit code is, by what ended the stream. The end of a pipe gives 0,
/// or 130 after Ctrl+C; a child that has exited gives its own code; a reader
/// that is gone gives 0; every failure gives 1. Nothing else ends a stream: not
/// a line, not the log, and with a child not the end of its output.
pub proof fn what_ends_a_stream_gives_its_code(start: Pump, events: Seq<Event>, code: i32)
    requires
        start.phase == Phase::Reading,
        crate::stream::course(start, events),
        crate::stream::pumped(start, events).action() == Action::Exit(code),
    ensures
        events.len() > 0,
        match events.last() {
            Event::End { interrupted } => start.source != Source::Child && code == if interrupted {
                130i32
            } else {
                0
            },
            Event::Exited { status, code: childs } => start.source == Source::Child && code
                == childs,
            Event::EchoBroken => start.source != Source::DetachedPipe && code == 0,
            Event::EchoFailed(_) => start.source != Source::DetachedPipe && code == 1,
            Event::ReadFailed(_) => code == 1,
            Event::WaitFailed(_) => start.source == Source::Child && code == 1,
            Event::Line => false,
            Event::Echoed => false,
            Event::Logged => false,
            Event::LogFailed => false,
        },
{
    if events.len() > 0 {
        only_a_child_is_waited_for(start, events.drop_last());
    }
}

/// What does end a stream: the end of a pipe, a child that has exited or cannot
/// be waited for, input that cannot be read, and stdout that is lost, but for a
/// pump in a session of its own. The end of a child's output has it waited for.
pub proof fn a_stream_ends_where_it_must(pump: Pump, event: Event)
    requires
        crate::stream::answers(event, pump.action()),
    ensures
        pump.after_spec(event).action() is Exit <==> ((event is End && pump.source != Source::Child)
            || event is Exited || event is WaitFailed || event is ReadFailed || ((event is EchoBroken
            || event is EchoFailed) && pump.source != Source::DetachedPipe)),
        pump.after_spec(event).action() == Action::Wait <==> event is End && pump.source
            == Source::Child,
{
}

/// A line goes to stdout first, unless that is unwanted or lost, and into the
/// log second, where there is one; then the next is read.
pub proof fn a_line_takes_its_way(pump: Pump, event: Event)
    requires
        crate::stream::answers(event, pump.action()),
        !(pump.after_spec(event).action() is Exit),
    ensures
        event is Line ==> pump.after_spec(event).action() == if !pump.quiet && !pump.mute {
            Action::Echo
        } else if pump.logging {
            Action::Log
        } else {
            Action::Read
        },
        (event is Echoed || event is EchoBroken || event is EchoFailed) ==> pump.after_spec(
            event,
        ).action() == if pump.logging {
            Action::Log
        } else {
            Action::Read
        },
        (event is Logged || event is LogFailed) ==> pump.after_spec(event).action()
            == Action::Read,
{
}

/// Only losing stdout makes a pump mute, and only failing to log ends its
/// logging. Where it comes from and whether it is quiet never changes.
pub proof fn only_losses_change_a_pump(pump: Pump, event: Event)
    requires
        crate::stream::answers(event, pump.action()),
    ensures
        pump.after_spec(event).source == pump.source,
        pump.after_spec(event).quiet == pump.quiet,
        pump.after_spec(event).logging == (pump.logging && !(event is LogFailed)),
        !(pump.after_spec(event).action() is Exit) ==> pump.after_spec(event).mute == (pump.mute
            || event is EchoBroken || event is EchoFailed),
{
}

/// An event that answers another action than the one asked for changes nothing,
/// and nothing goes with it.
pub proof fn what_was_not_asked_for_changes_nothing(pump: Pump, event: Event)
    requires
        !crate::stream::answers(event, pump.action()),
    ensures
        pump.after_spec(event) == pump,
        pump.says(event) is None,
        !pump.kills(event),
        !pump.reports_log(event),
{
}

/// The child is killed exactly where stdout is lost.
pub proof fn the_child_is_killed_with_stdout(pump: Pump, event: Event)
    requires
        crate::stream::answers(event, pump.action()),
    ensures
        pump.kills(event) <==> pump.source == Source::Child && (event is EchoBroken
            || event is EchoFailed),
{
}

/// Where the log is, is said where there is one and the stream ends: but not
/// where the reader is gone or the input could not be read. It is never said
/// while the stream goes on.
pub proof fn the_log_is_reported_at_the_end(pump: Pump, event: Event)
    requires
        crate::stream::answers(event, pump.action()),
    ensures
        pump.reports_log(event) <==> pump.logging && pump.after_spec(event).action() is Exit
            && !(event is EchoBroken) && !(event is ReadFailed),
{
}

/// What is said ends with the reason: each failure carries its own, and a child
/// that has exited its status.
pub proof fn failures_are_said_with_their_reason(pump: Pump, event: Event)
    requires
        crate::stream::answers(event, pump.action()),
    ensures
        match event {
            Event::ReadFailed(e) => pump.says(event) == Some("deemo: error reading stdin: "@ + e@),
            Event::EchoFailed(e) => pump.says(event) == Some("deemo: error writing stdout: "@ + e@),
            Event::WaitFailed(e) => pump.says(event) == Some(
                "deemo: error waiting for child: "@ + e@,
            ),
            Event::Exited { status, code } => pump.says(event) == Some(
                "deemo: child exited ("@ + status@ + ")"@,
            ),
            Event::EchoBroken => pump.says(event) == if pump.source == Source::DetachedPipe {
                Some("deemo: terminal gone; switching to log-only"@)
            } else {
                None
            },
            Event::LogFailed => pump.says(event) == if pump.mute {
                None
            } else {
                Some("deemo: warning: log write failed, continuing without logging"@)
            },
            _ => pump.says(event) is None,
        },
{
}

/// A failure to log is said at most once: it ends the logging.
pub proof fn a_failure_to_log_is_said_once(start: Pump, events: Seq<Event>, a: int, b: int)
    requires
        crate::stream::course(start, events),
        0 <= a < b < events.len(),
        events[a] is LogFailed,
    ensures
        !(events[b] is LogFailed),
        !(events[b] is Logged),
    decreases events.len(),
{
    let prev = events.drop_last();
    if b < events.len() - 1 {
        a_failure_to_log_is_said_once(start, prev, a, b);
    } else {
        no_log_after_a_failure(start, prev, a);
    }
}

proof fn no_log_after_a_failure(start: Pump, events: Seq<Event>, a: int)
    requires
        crate::stream::course(start, events),
        0 <= a < events.len(),
        events[a] is LogFailed,
    ensures
        !crate::stream::pumped(start, events).logging,
        crate::stream::pumped(start, events).phase != Phase::Logging,
    decreases events.len(),
{
    if a < events.len() - 1 {
        no_log_after_a_failure(start, events.drop_last(), a);
    }
}

/// What is counted of a stream: each line that is read is one more, and what is
/// echoed or logged is the line that was read last.
pub proof fn lines_are_counted_as_they_come(events: Seq<Event>, event: Event)
    ensures
        crate::stream::lines_read(events.push(event)) == crate::stream::lines_read(events)
            + if event is Line {
            1nat
        } else {
            0
        },
        event is Echoed ==> crate::stream::lines_echoed(events.push(event))
            == crate::stream::lines_echoed(events).push(crate::stream::lines_read(events)),
        event is Logged ==> crate::stream::lines_logged(events.push(event))
            == crate::stream::lines_logged(events).push(crate::stream::lines_read(events)),
{
    assert(events.push(event).drop_last() =~= events);
}

/// A pump starts by reading, with what it was told and nothing lost.
pub proof fn a_pump_starts_by_reading(source: Source, quiet: bool, logging: bool)
    ensures
        Pump::new_spec(source, quiet, logging).action() == Action::Read,
        Pump::new_spec(source, quiet, logging).source == source,
        Pump::new_spec(source, quiet, logging).quiet == quiet,
        Pump::new_spec(source, quiet, logging).logging == logging,
        !Pump::new_spec(source, quiet, logging).mute,
{
}

/// Each point of a stream asks for one action, and for no other point's.
pub proof fn each_phase_has_its_action(a: Pump, b: Pump)
    ensures
        a.action() == b.action() <==> a.phase == b.phase,
{
}

/// A message is its text, and none is none.
pub proof fn a_message_is_its_text(s: String)
    ensures
        crate::stream::text_of(Some(s)) == Some(s@),
        crate::stream::text_of(None) is None,
{
}

} // verus!
