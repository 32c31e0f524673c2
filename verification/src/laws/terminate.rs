//! How a stop attempt goes on.

use vstd::prelude::*;

use crate::signal::Platform;
use crate::terminate::{Action, Blow, Event, Progress, StopOutcome, Target};

verus! {

/// A target is that of its pid, as a group or alone.
pub proof fn a_target_has_its_pid(pid: u32)
    ensures
        Target::Group(pid).pid() == pid,
        Target::Pid(pid).pid() == pid,
{
}

/// An attempt starts with SIGTERM. Where that was delivered, a wait begins at
/// once; where it was refused, the target is looked at, and only one that is
/// gone is waited for: one that is still there ends the attempt, without a
/// SIGKILL.
pub proof fn an_attempt_starts_with_term(now: u64)
    ensures
        Progress::Start.action() == Action::Send(Blow::Term),
        Progress::Start.after(Event::Sent(true)).action() == Action::ReadClock,
        Progress::Start.after(Event::Sent(true)).after(Event::Clock(now)) == (Progress::Check {
            since: now,
            killed: false,
        }),
        Progress::Start.after(Event::Sent(false)).action() == Action::Probe,
        Progress::Start.after(Event::Sent(false)).after(Event::Probed(true)).action()
            == Action::ReadClock,
        Progress::Start.after(Event::Sent(false)).after(Event::Probed(true)).after(
            Event::Clock(now),
        ) == (Progress::Check { since: now, killed: false }),
        Progress::Start.after(Event::Sent(false)).after(Event::Probed(false)).action()
            == Action::Finish(StopOutcome::Stubborn),
{
}

/// A wait looks at the target, also when the time is up, and one that is gone
/// ends it: after SIGTERM alone as terminated, after SIGKILL as killed. One that
/// is still there has 5000 milliseconds after SIGTERM and 1000 after SIGKILL,
/// with a look every 50; after that comes SIGKILL, with a wait of its own
/// whether it was delivered or not, and behind that nothing more.
pub proof fn a_wait_ends_when_the_target_is_gone_or_time_is_up(
    since: u64,
    killed: bool,
    now: u64,
    then_now: u64,
    delivered: bool,
)
    ensures
        ({
            let wait = Progress::Check { since, killed };
            let look = wait.after(Event::Clock(now));
            let up = now >= since + if killed {
                1000int
            } else {
                5000
            };
            let left = look.after(Event::Probed(false));
            &&& wait.action() == Action::ReadClock
            &&& look.action() == Action::Probe
            &&& look.after(Event::Probed(true)).action() == Action::Finish(
                if killed {
                    StopOutcome::Killed
                } else {
                    StopOutcome::Terminated
                },
            )
            &&& !up ==> left.action() == Action::Sleep(50) && left.after(Event::Slept) == wait
            &&& up && killed ==> left.action() == Action::Finish(StopOutcome::Stubborn)
            &&& up && !killed ==> left.action() == Action::Send(Blow::Kill) && left.after(
                Event::Sent(delivered),
            ).action() == Action::ReadClock && left.after(Event::Sent(delivered)).after(
                Event::Clock(then_now),
            ) == (Progress::Check { since: then_now, killed: true })
        }),
{
}

/// A group is gone where nothing answers any more, whatever has become of its
/// leader; a single process also where it is a zombie.
pub proof fn a_zombie_alone_is_gone(pid: u32, answered: bool, zombie: bool)
    ensures
        Target::Group(pid).gone_spec(answered, zombie) <==> !answered,
        Target::Pid(pid).gone_spec(answered, zombie) <==> !(answered && !zombie),
{
}

/// Where there are signals, the first thing is SIGTERM. Where there are none,
/// the tree is killed, once.
pub proof fn a_tree_is_killed_once()
    ensures
        Progress::begin_spec(Platform::Unix).action() == Action::Send(Blow::Term),
        Progress::begin_spec(Platform::Windows).action() == Action::KillTree,
        Progress::Tree.action() == Action::KillTree,
        Progress::Tree.after(Event::TreeKilled).action() == Action::Finish(StopOutcome::TreeKilled),
{
}

/// What does not answer the action asked for changes nothing; so what has ended
/// stays so.
pub proof fn what_was_not_asked_for_changes_nothing(p: Progress, event: Event)
    requires
        !crate::terminate::answers(event, p.action()),
    ensures
        p.after(event) == p,
{
}

/// What does answer it brings the attempt on: no point of it is its own next.
pub proof fn an_answer_brings_the_attempt_on(p: Progress, event: Event)
    requires
        crate::terminate::answers(event, p.action()),
    ensures
        p.after(event) != p,
{
}

} // verus!
