//! Whom `deemo kill` deals with, how, and what is said.

use vstd::prelude::*;

use crate::kill::{Dealt, Lookup, Method};
use crate::registry::{Entry, Liveness, Output};
use crate::terminate::{StopOutcome, Target};

verus! {

// ---------------------------------------------------------------------------
// The signal
// ---------------------------------------------------------------------------

/// A dry run signals nobody, whatever signal is asked for. Otherwise the signal
/// that is asked for is the one that is sent, and without one the processes are
/// stopped.
pub proof fn a_dry_run_signals_nobody(signal: Option<i32>, sig: i32)
    ensures
        crate::kill::method_spec(signal, true) == Method::List,
        crate::kill::method_spec(signal, false) == Method::Once(sig) <==> signal == Some(sig),
        crate::kill::method_spec(signal, false) == Method::Terminate <==> signal is None,
{
}

/// A signal that cannot be read ends the run before anything is done, with exit
/// code 2 and the reason; one that can be read never does.
pub proof fn a_bad_signal_is_a_usage_error(
    read: Option<Result<i32, Seq<char>>>,
    dry_run: bool,
    begun: Result<Method, Output>,
    wanted: Result<Option<i32>, Output>,
)
    requires
        crate::kill::begins(read, dry_run, begun),
        crate::kill::signal_wanted(read, wanted),
    ensures
        begun is Err <==> read matches Some(Err(_)),
        wanted is Err <==> read matches Some(Err(_)),
        begun is Err ==> begun->Err_0.code == 2 && begun->Err_0.text@ == "deemo: "@
            + read->0->Err_0,
        wanted is Err ==> wanted->Err_0.code == 2 && wanted->Err_0.text@ == "deemo: "@
            + read->0->Err_0,
        begun is Ok && dry_run ==> begun->Ok_0 == Method::List,
        begun is Ok && !dry_run ==> begun->Ok_0 == (match read {
            Some(Ok(sig)) => Method::Once(sig),
            _ => Method::Terminate,
        }),
        wanted is Ok ==> wanted->Ok_0 == (match read {
            Some(Ok(sig)) => Some(sig),
            _ => None::<i32>,
        }),
{
}

// ---------------------------------------------------------------------------
// The plan
// ---------------------------------------------------------------------------

/// A process is dealt with exactly where it was found on one of the ports.
pub proof fn whoever_was_found_is_dealt_with(lookups: Seq<Lookup>, pid: u32)
    ensures
        (exists|k: int|
            0 <= k < crate::kill::kill_targets(lookups).len() && (
            #[trigger] crate::kill::kill_targets(lookups)[k]).1 == pid) <==> (exists|m: int|
            0 <= m < lookups.len() && ((#[trigger] lookups[m]).1 matches Ok(pids)
                && pids@.contains(pid))),
{
    let targets = crate::kill::kill_targets(lookups);
    if exists|k: int| 0 <= k < targets.len() && (#[trigger] targets[k]).1 == pid {
        let k = choose|k: int| 0 <= k < targets.len() && (#[trigger] targets[k]).1 == pid;
        crate::kill::a_pid_stands_under_its_first_port(lookups, k);
        let m = choose|m: int| #[trigger]
            crate::kill::first_found(lookups, m, pid) && lookups[m].0 == targets[k].0;
        assert(lookups[m].1 is Ok && lookups[m].1->Ok_0@.contains(pid));
    }
    if exists|m: int|
        0 <= m < lookups.len() && ((#[trigger] lookups[m]).1 matches Ok(pids) && pids@.contains(
            pid,
        )) {
        let m = choose|m: int|
            0 <= m < lookups.len() && ((#[trigger] lookups[m]).1 matches Ok(pids) && pids@.contains(
                pid,
            ));
        crate::kill::every_holder_is_dealt_with(lookups, m, pid);
    }
}

proof fn new_pids_ascend(
    targets: Seq<(u16, u32)>,
    port: u16,
    pids: Seq<u32>,
    n: int,
    a: int,
    b: int,
)
    requires
        0 <= n <= pids.len(),
        forall|i: int, j: int| 0 <= i < j < pids.len() ==> #[trigger] pids[i] < #[trigger] pids[j],
    ensures
        ({
            let all = crate::kill::with_pids(targets, port, pids, n);
            &&& targets.len() <= all.len()
            &&& all.take(targets.len() as int) == targets
            &&& targets.len() <= a < all.len() ==> all[a].0 == port && (n < pids.len()
                ==> all[a].1 < pids[n])
            &&& targets.len() <= a < b < all.len() ==> all[a].1 < all[b].1
        }),
    decreases n,
{
    if n > 0 {
        new_pids_ascend(targets, port, pids, n - 1, a, b);
        let before = crate::kill::with_pids(targets, port, pids, n - 1);
        let all = crate::kill::with_pids(targets, port, pids, n);
        assert(all.take(targets.len() as int) =~= before.take(targets.len() as int));
        if n < pids.len() {
            assert(pids[n - 1] < pids[n]);
        }
    } else {
        assert(targets.take(targets.len() as int) =~= targets);
    }
}

/// The ports are dealt with in their order, and the processes on one in
/// ascending order: one more port that was looked up changes nothing of what
/// comes before, and what it adds stands under it.
pub proof fn the_ports_are_dealt_with_in_order(
    lookups: Seq<Lookup>,
    port: u16,
    pids: Vec<u32>,
    a: int,
    b: int,
)
    requires
        crate::port::ascending(pids@),
    ensures
        ({
            let one: Lookup = (port, Ok(pids));
            let before = crate::kill::kill_targets(lookups);
            let after = crate::kill::kill_targets(lookups.push(one));
            &&& before.len() <= after.len()
            &&& after.take(before.len() as int) == before
            &&& before.len() <= a < after.len() ==> after[a].0 == port
            &&& before.len() <= a < b < after.len() ==> after[a].1 < after[b].1
        }),
{
    let one: Lookup = (port, Ok(pids));
    assert(lookups.push(one).drop_last() =~= lookups);
    new_pids_ascend(
        crate::kill::kill_targets(lookups),
        port,
        pids@,
        pids@.len() as int,
        a,
        b,
    );
}

/// A lookup that failed adds a message with its port and its reason, and
/// nothing else.
pub proof fn a_failed_lookup_adds_its_message(lookups: Seq<Lookup>, port: u16, e: String)
    ensures
        ({
            let one: Lookup = (port, Err(e));
            &&& crate::kill::kill_targets(lookups.push(one)) == crate::kill::kill_targets(lookups)
            &&& crate::kill::free_ports(lookups.push(one)) == crate::kill::free_ports(lookups)
            &&& crate::kill::lookup_messages(lookups.push(one)) == crate::kill::lookup_messages(
                lookups,
            ).push(
                "deemo: cannot list the processes on port "@ + crate::text::decimal_spec(
                    port as nat,
                ) + ": "@ + e@,
            )
        }),
{
    let one: Lookup = (port, Err(e));
    assert(lookups.push(one).drop_last() =~= lookups);
}

/// A lookup that came back says nothing of a failure; it adds its port to the
/// free ones exactly where nobody was found.
pub proof fn a_lookup_without_holders_is_free(lookups: Seq<Lookup>, port: u16, pids: Vec<u32>)
    ensures
        ({
            let one: Lookup = (port, Ok(pids));
            &&& crate::kill::lookup_messages(lookups.push(one)) == crate::kill::lookup_messages(
                lookups,
            )
            &&& pids@.len() > 0 ==> crate::kill::free_ports(lookups.push(one))
                == crate::kill::free_ports(lookups)
            &&& pids@.len() == 0 ==> crate::kill::free_ports(lookups.push(one))
                == crate::kill::free_ports(lookups).push(port)
        }),
{
    let one: Lookup = (port, Ok(pids));
    assert(lookups.push(one).drop_last() =~= lookups);
}

/// What a dry run prints has one line for each process, with its pid and
/// nothing else, in their order.
pub proof fn a_dry_run_lists_one_pid_a_line(targets: Seq<(u16, u32)>)
    ensures
        crate::text::lines_spec(crate::kill::pid_lines(targets)) == targets.map_values(
            |t: (u16, u32)| crate::text::decimal_spec(t.1 as nat),
        ),
        targets.len() > 0 ==> crate::kill::pid_lines(targets).last() == '\n',
    decreases targets.len(),
{
    reveal_strlit("\n");
    let f = |t: (u16, u32)| crate::text::decimal_spec(t.1 as nat);
    let text = crate::kill::pid_lines(targets);
    if targets.len() == 0 {
        assert(crate::text::lines_spec(text).len() == 0);
        assert(crate::text::lines_spec(text) =~= targets.map_values(f));
    } else {
        let shorter = targets.drop_last();
        a_dry_run_lists_one_pid_a_line(shorter);
        let front = crate::kill::pid_lines(shorter);
        let number = crate::text::decimal_spec(targets.last().1 as nat);
        crate::laws::text::a_decimal_has_no_leading_zero(targets.last().1 as nat);
        assert(text =~= front + (number + "\n"@));
        assert(text.last() == '\n');
        if shorter.len() == 0 {
            assert(front =~= Seq::<char>::empty());
        }
        crate::text::lines_of_parts(front, number + "\n"@);
        assert(number + "\n"@ =~= number + seq!['\n'] + seq![]);
        crate::laws::text::an_ended_line_is_read_without_its_ending(number, seq![]);
        assert(crate::text::lines_spec(Seq::<char>::empty()) =~= Seq::<Seq<char>>::empty());
        assert(crate::text::lines_spec(number + "\n"@) =~= seq![number]);
        assert(crate::text::lines_spec(text) =~= targets.map_values(f));
    }
}

// ---------------------------------------------------------------------------
// Whom to signal
// ---------------------------------------------------------------------------

/// The entry is that of this process, and it is not known to be dead.
pub open spec fn manages(entry: (Entry, Liveness), pid: u32) -> bool {
    entry.0.pid == pid && entry.1 != Liveness::Dead
}

/// A process is one of ours exactly where an entry that is not known to be dead
/// has its pid, and it goes by the label of the last such entry.
pub proof fn a_process_is_ours_by_a_living_entry(
    entries: Seq<(Entry, Liveness)>,
    pid: u32,
    label: Seq<char>,
)
    ensures
        crate::kill::managed_label(entries, pid) is Some <==> exists|i: int|
            0 <= i < entries.len() && manages(#[trigger] entries[i], pid),
        crate::kill::managed_label(entries, pid) == Some(label) <==> exists|i: int|
            0 <= i < entries.len() && manages(#[trigger] entries[i], pid) && entries[i].0.label@
                == label && forall|j: int|
                i < j < entries.len() ==> !manages(#[trigger] entries[j], pid),
    decreases entries.len(),
{
    let n = entries.len() - 1;
    if entries.len() > 0 {
        let front = entries.drop_last();
        a_process_is_ours_by_a_living_entry(front, pid, label);
        if manages(entries[n], pid) {
        } else {
            assert forall|i: int| 0 <= i < n implies #[trigger] entries[i] == front[i] by {}
            if crate::kill::managed_label(front, pid) is Some {
                let i = choose|i: int| 0 <= i < front.len() && manages(#[trigger] front[i], pid);
                assert(manages(entries[i], pid));
            }
            if exists|i: int| 0 <= i < entries.len() && manages(#[trigger] entries[i], pid) {
                let i = choose|i: int|
                    0 <= i < entries.len() && manages(#[trigger] entries[i], pid);
                assert(manages(front[i], pid));
            }
            if crate::kill::managed_label(front, pid) == Some(label) {
                let i = choose|i: int|
                    0 <= i < front.len() && manages(#[trigger] front[i], pid)
                        && front[i].0.label@ == label && forall|j: int|
                        i < j < front.len() ==> !manages(#[trigger] front[j], pid);
                assert(manages(entries[i], pid));
                assert forall|j: int| i < j < entries.len() implies !manages(
                    #[trigger] entries[j],
                    pid,
                ) by {
                    if j < n {
                        assert(!manages(front[j], pid));
                    }
                }
            }
            if exists|i: int|
                0 <= i < entries.len() && manages(#[trigger] entries[i], pid)
                    && entries[i].0.label@ == label && forall|j: int|
                    i < j < entries.len() ==> !manages(#[trigger] entries[j], pid) {
                let i = choose|i: int|
                    0 <= i < entries.len() && manages(#[trigger] entries[i], pid)
                        && entries[i].0.label@ == label && forall|j: int|
                        i < j < entries.len() ==> !manages(#[trigger] entries[j], pid);
                assert(manages(front[i], pid));
                assert forall|j: int| i < j < front.len() implies !manages(
                    #[trigger] front[j],
                    pid,
                ) by {
                    assert(!manages(entries[j], pid));
                }
            }
        }
    }
}

// ---------------------------------------------------------------------------
// Reports
// ---------------------------------------------------------------------------

/// A target is named by its pid, and by its label where it has one.
pub proof fn a_target_is_named_by_its_pid(label: Seq<char>, pid: u32)
    ensures
        crate::kill::subject_spec(None, pid) == "pid "@ + crate::text::decimal_spec(pid as nat),
        crate::kill::subject_spec(Some(label), pid) == label + " (pid "@
            + crate::text::decimal_spec(pid as nat) + ")"@,
{
}

/// What is said of a signal names the port and the target, and either the
/// signal as it is shown or why it could not be sent.
pub proof fn a_signal_is_reported_with_its_port(
    port: u16,
    subject: Seq<char>,
    shown: Seq<char>,
    e: Seq<char>,
)
    ensures
        crate::kill::signal_message(port, subject, shown, Ok(())) == "deemo: port "@
            + crate::text::decimal_spec(port as nat) + ": "@ + "sent "@ + shown + " to "@ + subject,
        crate::kill::signal_message(port, subject, shown, Err(e)) == "deemo: port "@
            + crate::text::decimal_spec(port as nat) + ": "@ + "cannot signal "@ + subject + ": "@
            + e,
{
}

/// What is said of a stop attempt names the port and the target. It says
/// `stopped` exactly where the target is down, and SIGKILL where it took that;
/// otherwise it says whom SIGTERM went to.
pub proof fn a_stop_is_reported_with_its_port(
    port: u16,
    subject: Seq<char>,
    pid: u32,
    outcome: StopOutcome,
)
    ensures
        ({
            let front = "deemo: port "@ + crate::text::decimal_spec(port as nat) + ": "@;
            let group = crate::kill::kill_message(port, subject, Target::Group(pid), outcome);
            let alone = crate::kill::kill_message(port, subject, Target::Pid(pid), outcome);
            match outcome {
                StopOutcome::Killed => group == alone && alone == front + "stopped "@ + subject
                    + " (SIGKILL after grace period)"@,
                StopOutcome::Stubborn => group == alone && alone == front + subject
                    + " survived SIGTERM and SIGKILL"@,
                _ => group == front + "stopped "@ + subject + " ("@ + "SIGTERM to process group"@
                    + ")"@ && alone == front + "stopped "@ + subject + " ("@ + "SIGTERM"@ + ")"@,
            }
        }),
{
}

/// Only a signal that could not be delivered and a target that survived fall
/// short, and a port has nothing on it where nobody was found or the lookup
/// failed.
pub proof fn what_falls_short(delivered: bool, outcome: StopOutcome, lookup: Lookup)
    ensures
        crate::kill::fell_short(Dealt::Sent(delivered)) <==> !delivered,
        crate::kill::fell_short(Dealt::Attempted(outcome)) <==> outcome == StopOutcome::Stubborn,
        crate::kill::nothing_found(lookup) <==> !(lookup.1 is Ok && lookup.1->Ok_0@.len() > 0),
{
}

/// `deemo kill` exits with 0 exactly where somebody was found on every port and
/// nothing fell short, and with 1 otherwise.
pub proof fn success_means_every_port_is_dealt_with(lookups: Seq<Lookup>, dealt: Seq<Dealt>)
    ensures
        crate::kill::kill_exit_spec(lookups, dealt) == 0 || crate::kill::kill_exit_spec(
            lookups,
            dealt,
        ) == 1,
        crate::kill::kill_exit_spec(lookups, dealt) == 0 <==> (forall|m: int|
            0 <= m < lookups.len() ==> ((#[trigger] lookups[m]).1 matches Ok(pids) && pids@.len()
                > 0)) && (forall|k: int|
            0 <= k < dealt.len() ==> #[trigger] dealt[k] != Dealt::Sent(false) && dealt[k]
                != Dealt::Attempted(StopOutcome::Stubborn)),
{
    if crate::kill::kill_exit_spec(lookups, dealt) == 0 {
        assert forall|m: int| 0 <= m < lookups.len() implies ((#[trigger] lookups[m]).1 matches Ok(
            pids,
        ) && pids@.len() > 0) by {
            assert(!crate::kill::nothing_found(lookups[m]));
        }
        assert forall|k: int| 0 <= k < dealt.len() implies #[trigger] dealt[k] != Dealt::Sent(false)
            && dealt[k] != Dealt::Attempted(StopOutcome::Stubborn) by {
            assert(!crate::kill::fell_short(dealt[k]));
        }
    }
}

/// A process group is signalled exactly where the process is one of ours; any
/// other process is signalled alone. Either way it is the process that was
/// found.
pub proof fn only_our_own_are_signalled_as_a_group(entries: Seq<(Entry, Liveness)>, pid: u32)
    ensures
        crate::kill::target_spec(entries, pid).pid() == pid,
        crate::kill::target_spec(entries, pid) is Group <==> exists|i: int|
            0 <= i < entries.len() && manages(#[trigger] entries[i], pid),
{
    a_process_is_ours_by_a_living_entry(entries, pid, seq![]);
}

/// What is said of a free port names it.
pub proof fn a_free_port_is_named(port: u16)
    ensures
        crate::kill::free_message(port) == "deemo: nothing is using port "@
            + crate::text::decimal_spec(port as nat),
{
}

} // verus!
