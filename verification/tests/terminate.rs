use deemo::signal::Platform;
use deemo::terminate::{Action, Blow, Event, Progress, StopOutcome, Target};

/// Runs an attempt on a process that dies of SIGTERM after `term_ms`, of
/// SIGKILL after `kill_ms`; returns what was sent, when, and the outcome.
fn attempt(term_ms: Option<u64>, kill_ms: Option<u64>) -> (Vec<(Blow, u64)>, StopOutcome, u64) {
    let mut now: u64 = 1_000_000;
    let mut sent = Vec::new();
    let mut dies_at: Option<u64> = None;
    let mut p = Progress::begin(Platform::Unix);
    loop {
        let event = match p.action() {
            Action::Send(blow) => {
                let after = match blow {
                    Blow::Term => term_ms,
                    Blow::Kill => kill_ms,
                };
                if dies_at.is_none() {
                    dies_at = after.map(|ms| now + ms);
                }
                sent.push((blow, now - 1_000_000));
                Event::Sent(true)
            }
            Action::Probe => Event::Probed(dies_at.is_some_and(|t| t <= now)),
            Action::ReadClock => Event::Clock(now),
            Action::Sleep(ms) => {
                now += ms;
                Event::Slept
            }
            Action::KillTree => unreachable!(),
            Action::Finish(outcome) => return (sent, outcome, now - 1_000_000),
        };
        p = p.after(event);
    }
}

#[test]
fn sigterm_alone_is_enough_for_the_cooperative() {
    let (sent, outcome, took) = attempt(Some(0), None);
    assert_eq!(sent, vec![(Blow::Term, 0)]);
    assert_eq!(outcome, StopOutcome::Terminated);
    assert_eq!(took, 0);

    let (sent, outcome, took) = attempt(Some(4_990), None);
    assert_eq!(sent.len(), 1);
    assert_eq!(outcome, StopOutcome::Terminated);
    assert_eq!(took, 5_000);
}

#[test]
fn stop_escalates_to_sigkill_when_sigterm_is_ignored() {
    let (sent, outcome, _) = attempt(None, Some(0));
    assert_eq!(sent, vec![(Blow::Term, 0), (Blow::Kill, 5_000)]);
    assert_eq!(outcome, StopOutcome::Killed);
    let list = deemo::registry::list(&vec![deemo::registry::RunFile {
        name: "stubborn.1.pid".to_string(),
        text: Some("pid=1\nlabel=stubborn\nlog=/l\n".to_string()),
    }]);
    let report = deemo::stop::stop_report(&list[0], deemo::stop::Ending::Attempted(outcome));
    assert!(report.message.contains("SIGKILL after grace period"));
    assert!(report.remove);
}

#[test]
fn a_survivor_is_called_stubborn() {
    let (sent, outcome, took) = attempt(None, None);
    assert_eq!(sent, vec![(Blow::Term, 0), (Blow::Kill, 5_000)]);
    assert_eq!(outcome, StopOutcome::Stubborn);
    assert_eq!(took, 6_000);
}

#[test]
fn a_refused_sigterm_ends_at_once_unless_the_target_is_gone() {
    let p = Progress::begin(Platform::Unix).after(Event::Sent(false));
    assert_eq!(p.action(), Action::Probe);
    assert_eq!(
        p.after(Event::Probed(false)),
        Progress::Ended(StopOutcome::Stubborn)
    );
    let gone = p
        .after(Event::Probed(true))
        .after(Event::Clock(7))
        .after(Event::Clock(7))
        .after(Event::Probed(true));
    assert_eq!(gone, Progress::Ended(StopOutcome::Terminated));
}

#[test]
fn an_event_out_of_turn_changes_nothing() {
    let p = Progress::begin(Platform::Unix);
    assert_eq!(p.after(Event::Slept), p);
    assert_eq!(p.after(Event::Probed(true)), p);
    let over = Progress::Ended(StopOutcome::Killed);
    assert_eq!(over.after(Event::Sent(true)), over);
}

#[test]
fn a_clock_at_its_end_does_not_overflow() {
    let p = Progress::Check {
        since: u64::MAX,
        killed: false,
    };
    assert_eq!(
        p.after(Event::Clock(u64::MAX)),
        Progress::Look {
            since: u64::MAX,
            killed: false,
            last: false
        }
    );
}

#[test]
fn windows_has_only_the_tree_kill() {
    let p = Progress::begin(Platform::Windows);
    assert_eq!(p.action(), Action::KillTree);
    assert_eq!(
        p.after(Event::TreeKilled).action(),
        Action::Finish(StopOutcome::TreeKilled)
    );
}

#[test]
fn a_group_is_gone_with_its_last_member_and_a_process_as_a_zombie() {
    assert!(!Target::Group(7).gone(true, false));
    assert!(
        !Target::Group(7).gone(true, true),
        "the leader can die first"
    );
    assert!(Target::Group(7).gone(false, false));
    assert!(!Target::Pid(7).gone(true, false));
    assert!(Target::Pid(7).gone(true, true));
    assert!(Target::Pid(7).gone(false, false));
    assert_eq!(Target::Group(7).pid(), 7);
    assert_eq!(Target::Pid(8).pid(), 8);
}
