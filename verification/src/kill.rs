//! `deemo kill <PORT>...`: stop whatever is bound to the port(s).
//!
//! The default policy is that of `stop`. `-s` switches to POSIX `kill -s`
//! semantics (exactly that signal, no escalation: `-s HUP` reloads), and
//! `--dry-run` only lists the pids, like `lsof -t`.

use vstd::prelude::*;

use crate::registry::{Entry, Liveness, Output};
use crate::signal::{display_on, parse_on, Platform};
use crate::terminate::{StopOutcome, Target};
use crate::text::push_decimal;

verus! {

/// The exit code of a usage error.
pub const USAGE_ERROR: i32 = 2;

// ---------------------------------------------------------------------------
// The signal
// ---------------------------------------------------------------------------

/// What `-s` asks for, given what its argument was read as: nothing without
/// one, a usage error where it could not be read.
pub open spec fn signal_wanted(
    read: Option<Result<i32, Seq<char>>>,
    wanted: Result<Option<i32>, Output>,
) -> bool {
    match read {
        None => wanted == Ok::<Option<i32>, Output>(None),
        Some(Ok(sig)) => wanted == Ok::<Option<i32>, Output>(Some(sig)),
        Some(Err(e)) => wanted is Err && wanted->Err_0.text@ == "deemo: "@ + e
            && wanted->Err_0.code == USAGE_ERROR,
    }
}

/// The signal that `-s` asks for. A bad one is a usage error.
pub fn kill_signal(platform: Platform, signal: Option<&str>) -> (wanted: Result<Option<i32>, Output>)
    ensures
        signal is None ==> signal_wanted(None, wanted),
        signal is Some && platform == Platform::Unix ==> exists|n: Seq<i32>| #[trigger]
            crate::signal::unix_numbers(n) && signal_wanted(
                Some(crate::signal::parse_spec(n, signal->0@)),
                wanted,
            ),
        signal is Some && platform == Platform::Windows ==> signal_wanted(
            Some(Err("sending an explicit signal needs a unix platform (drop -s)"@)),
            wanted,
        ),
{
    match signal {
        None => Ok(None),
        Some(text) => {
            let read = parse_on(platform, text);
            let ghost outcome = crate::signal::outcome(read);
            let wanted = signal_or_refusal(read);
            proof {
                assert(signal_wanted(Some(outcome), wanted));
            }
            wanted
        },
    }
}

/// What `-s` asks for, given what its argument was read as.
pub fn signal_or_refusal(read: Result<i32, String>) -> (wanted: Result<Option<i32>, Output>)
    ensures
        signal_wanted(Some(crate::signal::outcome(read)), wanted),
{
    match read {
        Ok(sig) => Ok(Some(sig)),
        Err(e) => {
            let mut text = String::from_str("deemo: ");
            text.append(e.as_str());
            Err(Output { text, code: USAGE_ERROR })
        },
    }
}

/// What is done with the pids that hold the ports.
#[derive(Clone, Copy, PartialEq, Eq, Structural, Debug)]
pub enum Method {
    /// Print them and signal nothing.
    List,
    /// Send each this signal, once, and leave it at that.
    Once(i32),
    /// Stop each the way `deemo stop` does.
    Terminate,
}

/// How to proceed: `--dry-run` kills nothing, and an explicit signal is never
/// followed by another.
pub fn method(signal: Option<i32>, dry_run: bool) -> (m: Method)
    ensures
        m == method_spec(signal, dry_run),
{
    if dry_run {
        Method::List
    } else {
        match signal {
            Some(sig) => Method::Once(sig),
            None => Method::Terminate,
        }
    }
}

/// What is done for a signal that `-s` asks for, or for none.
pub open spec fn method_spec(signal: Option<i32>, dry_run: bool) -> Method {
    if dry_run {
        Method::List
    } else {
        match signal {
            Some(sig) => Method::Once(sig),
            None => Method::Terminate,
        }
    }
}

/// What a run of `deemo kill` starts with, given what the argument of `-s` was
/// read as.
pub open spec fn begins(
    read: Option<Result<i32, Seq<char>>>,
    dry_run: bool,
    begun: Result<Method, Output>,
) -> bool {
    match read {
        None => begun == Ok::<Method, Output>(method_spec(None, dry_run)),
        Some(Ok(sig)) => begun == Ok::<Method, Output>(method_spec(Some(sig), dry_run)),
        Some(Err(e)) => begun is Err && begun->Err_0.text@ == "deemo: "@ + e && begun->Err_0.code
            == USAGE_ERROR,
    }
}

/// How a run of `deemo kill` proceeds. A bad `-s` is a usage error, before any
/// port is looked at.
pub fn begin(platform: Platform, signal: Option<&str>, dry_run: bool) -> (begun: Result<
    Method,
    Output,
>)
    ensures
        signal is None ==> begins(None, dry_run, begun),
        signal is Some && platform == Platform::Unix ==> exists|n: Seq<i32>| #[trigger]
            crate::signal::unix_numbers(n) && begins(
                Some(crate::signal::parse_spec(n, signal->0@)),
                dry_run,
                begun,
            ),
        signal is Some && platform == Platform::Windows ==> begins(
            Some(Err("sending an explicit signal needs a unix platform (drop -s)"@)),
            dry_run,
            begun,
        ),
{
    match kill_signal(platform, signal) {
        Ok(wanted) => Ok(method(wanted, dry_run)),
        Err(out) => Err(out),
    }
}

// ---------------------------------------------------------------------------
// The plan
// ---------------------------------------------------------------------------

/// A port with the pids found on it, or why they could not be found.
pub type Lookup = (u16, Result<Vec<u32>, String>);

/// Is the pid among the targets?
pub open spec fn targeted(targets: Seq<(u16, u32)>, pid: u32) -> bool {
    exists|k: int| 0 <= k < targets.len() && (#[trigger] targets[k]).1 == pid
}

/// The targets, and behind them those of the first `n` pids of a port that are
/// not among them yet.
pub open spec fn with_pids(targets: Seq<(u16, u32)>, port: u16, pids: Seq<u32>, n: int) -> Seq<
    (u16, u32),
>
    decreases n,
{
    if n <= 0 {
        targets
    } else {
        let so_far = with_pids(targets, port, pids, n - 1);
        if targeted(so_far, pids[n - 1]) {
            so_far
        } else {
            so_far.push((port, pids[n - 1]))
        }
    }
}

/// The pids to deal with, each once, with the first port it was found on.
pub open spec fn kill_targets(lookups: Seq<Lookup>) -> Seq<(u16, u32)>
    decreases lookups.len(),
{
    if lookups.len() == 0 {
        seq![]
    } else {
        let so_far = kill_targets(lookups.drop_last());
        match lookups.last().1 {
            Ok(pids) => with_pids(so_far, lookups.last().0, pids@, pids@.len() as int),
            Err(_) => so_far,
        }
    }
}

/// The ports that nothing uses.
pub open spec fn free_ports(lookups: Seq<Lookup>) -> Seq<u16>
    decreases lookups.len(),
{
    if lookups.len() == 0 {
        seq![]
    } else {
        let so_far = free_ports(lookups.drop_last());
        match lookups.last().1 {
            Ok(pids) => if pids@.len() == 0 {
                so_far.push(lookups.last().0)
            } else {
                so_far
            },
            Err(_) => so_far,
        }
    }
}

/// The line for a port whose pids could not be found.
pub open spec fn lookup_message(port: u16, e: Seq<char>) -> Seq<char> {
    "deemo: cannot list the processes on port "@ + crate::text::decimal_spec(port as nat) + ": "@ + e
}

/// The lines for the ports whose pids could not be found.
pub open spec fn lookup_messages(lookups: Seq<Lookup>) -> Seq<Seq<char>>
    decreases lookups.len(),
{
    if lookups.len() == 0 {
        seq![]
    } else {
        let so_far = lookup_messages(lookups.drop_last());
        match lookups.last().1 {
            Ok(_) => so_far,
            Err(e) => so_far.push(lookup_message(lookups.last().0, e@)),
        }
    }
}

/// What `deemo kill` has to deal with.
#[derive(Debug)]
pub struct KillPlan {
    /// The pids, each once, with the first port it was found on.
    pub targets: Vec<(u16, u32)>,
    /// The ports that nothing uses.
    pub free: Vec<u16>,
    /// What to say of the ports that could not be looked up.
    pub errors: Vec<String>,
}

fn is_targeted(targets: &Vec<(u16, u32)>, pid: u32) -> (yes: bool)
    ensures
        yes == targeted(targets@, pid),
{
    let mut i: usize = 0;
    while i < targets.len()
        invariant
            i <= targets.len(),
            forall|k: int| 0 <= k < i ==> (#[trigger] targets@[k]).1 != pid,
        decreases targets.len() - i,
    {
        if targets[i].1 == pid {
            return true;
        }
        i += 1;
    }
    false
}

fn lookup_report(port: u16, e: &str) -> (message: String)
    ensures
        message@ == lookup_message(port, e@),
{
    let mut message = String::from_str("deemo: cannot list the processes on port ");
    push_decimal(&mut message, port as u64);
    message.append(": ");
    message.append(e);
    message
}

/// What there is to deal with on the ports that were looked up, in the order
/// in which they were given.
pub fn kill(lookups: &Vec<Lookup>) -> (plan: KillPlan)
    ensures
        plan.targets@ == kill_targets(lookups@),
        plan.free@ == free_ports(lookups@),
        crate::text::texts(plan.errors@) == lookup_messages(lookups@),
{
    let mut targets: Vec<(u16, u32)> = Vec::new();
    let mut free: Vec<u16> = Vec::new();
    let mut errors: Vec<String> = Vec::new();
    let mut i: usize = 0;
    proof {
        assert(crate::text::texts(errors@) =~= lookup_messages(lookups@.take(0)));
    }
    while i < lookups.len()
        invariant
            i <= lookups.len(),
            targets@ == kill_targets(lookups@.take(i as int)),
            free@ == free_ports(lookups@.take(i as int)),
            crate::text::texts(errors@) == lookup_messages(lookups@.take(i as int)),
        decreases lookups.len() - i,
    {
        let port = lookups[i].0;
        proof {
            assert(lookups@.take(i + 1).drop_last() =~= lookups@.take(i as int));
            assert(lookups@.take(i + 1).last() == lookups@[i as int]);
        }
        match &lookups[i].1 {
            Ok(pids) => {
                if pids.len() == 0 {
                    free.push(port);
                }
                let ghost before = targets@;
                let mut j: usize = 0;
                while j < pids.len()
                    invariant
                        j <= pids.len(),
                        targets@ == with_pids(before, port, pids@, j as int),
                    decreases pids.len() - j,
                {
                    if !is_targeted(&targets, pids[j]) {
                        targets.push((port, pids[j]));
                    }
                    j += 1;
                }
            },
            Err(e) => {
                let message = lookup_report(port, e.as_str());
                proof {
                    crate::text::texts_push(errors@, message);
                }
                errors.push(message);
            },
        }
        i += 1;
    }
    proof {
        assert(lookups@.take(lookups@.len() as int) =~= lookups@);
    }
    KillPlan { targets, free, errors }
}

/// The pids, one per line.
pub open spec fn pid_lines(targets: Seq<(u16, u32)>) -> Seq<char>
    decreases targets.len(),
{
    if targets.len() == 0 {
        seq![]
    } else {
        pid_lines(targets.drop_last()) + crate::text::decimal_spec(targets.last().1 as nat) + "\n"@
    }
}

/// What `--dry-run` prints: the pids, one per line.
pub fn dry_run_listing(targets: &Vec<(u16, u32)>) -> (text: String)
    ensures
        text@ == pid_lines(targets@),
{
    let mut text = String::new();
    let mut i: usize = 0;
    while i < targets.len()
        invariant
            i <= targets.len(),
            text@ == pid_lines(targets@.take(i as int)),
        decreases targets.len() - i,
    {
        let ghost before = text@;
        push_decimal(&mut text, targets[i].1 as u64);
        text.append("\n");
        proof {
            assert(targets@.take(i + 1).drop_last() =~= targets@.take(i as int));
        }
        i += 1;
    }
    proof {
        assert(targets@.take(targets@.len() as int) =~= targets@);
    }
    text
}

// ---------------------------------------------------------------------------
// Whom to signal
// ---------------------------------------------------------------------------

/// The label under which deemo itself started this pid: that of the last
/// entry with it whose process is not known to be dead.
pub open spec fn managed_label(entries: Seq<(Entry, Liveness)>, pid: u32) -> Option<Seq<char>>
    decreases entries.len(),
{
    if entries.len() == 0 {
        None
    } else if entries.last().0.pid == pid && entries.last().1 != Liveness::Dead {
        Some(entries.last().0.label@)
    } else {
        managed_label(entries.drop_last(), pid)
    }
}

/// How the messages name a target.
pub open spec fn subject_spec(label: Option<Seq<char>>, pid: u32) -> Seq<char> {
    let number = crate::text::decimal_spec(pid as nat);
    match label {
        Some(label) => label + " (pid "@ + number + ")"@,
        None => "pid "@ + number,
    }
}

/// Whom to signal for a pid, and how to speak of it.
#[derive(Debug)]
pub struct Aim {
    pub target: Target,
    pub subject: String,
}

/// Whom to signal for a pid: the group of what deemo started, the process alone
/// of anything else.
pub open spec fn target_spec(entries: Seq<(Entry, Liveness)>, pid: u32) -> Target {
    match managed_label(entries, pid) {
        Some(_) => Target::Group(pid),
        None => Target::Pid(pid),
    }
}

/// Whom to signal for a pid that holds a port. What deemo started leads a
/// process group of its own, and the group is signalled, which also takes the
/// launcher's tree down; every other pid is signalled alone.
pub fn aim(entries: &Vec<(Entry, Liveness)>, pid: u32) -> (aim: Aim)
    ensures
        aim.target == target_spec(entries@, pid),
        aim.target == (match managed_label(entries@, pid) {
            Some(_) => Target::Group(pid),
            None => Target::Pid(pid),
        }),
        aim.subject@ == subject_spec(managed_label(entries@, pid), pid),
{
    let mut i: usize = entries.len();
    proof {
        assert(entries@.take(entries@.len() as int) =~= entries@);
    }
    while i > 0
        invariant
            i <= entries.len(),
            managed_label(entries@, pid) == managed_label(entries@.take(i as int), pid),
        decreases i,
    {
        proof {
            assert(entries@.take(i as int).drop_last() =~= entries@.take(i - 1));
        }
        let entry = &entries[i - 1].0;
        if entry.pid == pid && entries[i - 1].1 != Liveness::Dead {
            let mut subject = String::from_str(entry.label.as_str());
            subject.append(" (pid ");
            push_decimal(&mut subject, pid as u64);
            subject.append(")");
            return Aim { target: Target::Group(pid), subject };
        }
        i -= 1;
    }
    let mut subject = String::from_str("pid ");
    push_decimal(&mut subject, pid as u64);
    Aim { target: Target::Pid(pid), subject }
}

// ---------------------------------------------------------------------------
// Reports
// ---------------------------------------------------------------------------

/// `deemo: port <PORT>: `
pub open spec fn port_prefix(port: u16) -> Seq<char> {
    "deemo: port "@ + crate::text::decimal_spec(port as nat) + ": "@
}

fn start_report(port: u16) -> (message: String)
    ensures
        message@ == port_prefix(port),
{
    let mut message = String::from_str("deemo: port ");
    push_decimal(&mut message, port as u64);
    message.append(": ");
    message
}

/// The line for a signal that was sent, or could not be; `shown` is how the
/// signal is shown.
pub open spec fn signal_message(
    port: u16,
    subject: Seq<char>,
    shown: Seq<char>,
    sent: Result<(), Seq<char>>,
) -> Seq<char> {
    match sent {
        Ok(_) => port_prefix(port) + "sent "@ + shown + " to "@ + subject,
        Err(e) => port_prefix(port) + "cannot signal "@ + subject + ": "@ + e,
    }
}

/// What is said of a signal that was sent, or refused, given how the signal is
/// shown.
pub fn signal_report_as(port: u16, subject: &str, shown: &str, sent: &Result<(), String>) -> (message:
    String)
    ensures
        message@ == signal_message(
            port,
            subject@,
            shown@,
            match *sent {
                Ok(_) => Ok(()),
                Err(e) => Err(e@),
            },
        ),
{
    let mut message = start_report(port);
    match sent {
        Ok(_) => {
            message.append("sent ");
            message.append(shown);
            message.append(" to ");
            message.append(subject);
            message
        },
        Err(e) => {
            message.append("cannot signal ");
            message.append(subject);
            message.append(": ");
            message.append(e.as_str());
            message
        },
    }
}

/// What is said of a signal that was sent, or refused.
pub fn signal_report(
    platform: Platform,
    port: u16,
    subject: &str,
    sig: i32,
    sent: &Result<(), String>,
) -> (message: String)
    ensures
        platform == Platform::Unix ==> exists|n: Seq<i32>| #[trigger]
            crate::signal::unix_numbers(n) && message@ == signal_message(
                port,
                subject@,
                crate::signal::display_spec(n, sig),
                match *sent {
                    Ok(_) => Ok(()),
                    Err(e) => Err(e@),
                },
            ),
        platform == Platform::Windows ==> message@ == signal_message(
            port,
            subject@,
            crate::signal::unnamed(sig),
            match *sent {
                Ok(_) => Ok(()),
                Err(e) => Err(e@),
            },
        ),
{
    let shown = display_on(platform, sig);
    signal_report_as(port, subject, shown.as_str(), sent)
}

/// Why a signal is not sent where there are none.
pub fn signal_unsupported(sig: i32) -> (e: String)
    ensures
        e@ == crate::signal::unnamed(sig)
            + " cannot be sent on Windows; drop -s to use taskkill"@,
{
    let mut e = display_on(Platform::Windows, sig);
    e.append(" cannot be sent on Windows; drop -s to use taskkill");
    e
}

/// What SIGTERM was sent to.
pub open spec fn unit_spec(target: Target) -> Seq<char> {
    match target {
        Target::Group(_) => "SIGTERM to process group"@,
        Target::Pid(_) => "SIGTERM"@,
    }
}

/// The line for a stop attempt.
pub open spec fn kill_message(
    port: u16,
    subject: Seq<char>,
    target: Target,
    outcome: StopOutcome,
) -> Seq<char> {
    match outcome {
        StopOutcome::Killed => port_prefix(port) + "stopped "@ + subject
            + " (SIGKILL after grace period)"@,
        StopOutcome::Stubborn => port_prefix(port) + subject + " survived SIGTERM and SIGKILL"@,
        _ => port_prefix(port) + "stopped "@ + subject + " ("@ + unit_spec(target) + ")"@,
    }
}

/// What is said of a stop attempt on the holder of a port.
pub fn kill_report(port: u16, aim: &Aim, outcome: StopOutcome) -> (message: String)
    ensures
        message@ == kill_message(port, aim.subject@, aim.target, outcome),
{
    let mut message = start_report(port);
    match outcome {
        StopOutcome::Killed => {
            message.append("stopped ");
            message.append(aim.subject.as_str());
            message.append(" (SIGKILL after grace period)");
            message
        },
        StopOutcome::Stubborn => {
            message.append(aim.subject.as_str());
            message.append(" survived SIGTERM and SIGKILL");
            message
        },
        _ => {
            message.append("stopped ");
            message.append(aim.subject.as_str());
            message.append(" (");
            message.append(
                match aim.target {
                    Target::Group(_) => "SIGTERM to process group",
                    Target::Pid(_) => "SIGTERM",
                },
            );
            message.append(")");
            message
        },
    }
}

/// The line for a port that nothing uses.
pub open spec fn free_message(port: u16) -> Seq<char> {
    "deemo: nothing is using port "@ + crate::text::decimal_spec(port as nat)
}

/// What is said of a port that nothing uses.
pub fn free_report(port: u16) -> (message: String)
    ensures
        message@ == free_message(port),
        message@ == "deemo: nothing is using port "@ + crate::text::decimal_spec(
            port as nat,
        ),
{
    let mut message = String::from_str("deemo: nothing is using port ");
    push_decimal(&mut message, port as u64);
    message
}

// ---------------------------------------------------------------------------
// The exit code
// ---------------------------------------------------------------------------

/// What came of dealing with one target.
#[derive(Clone, Copy, PartialEq, Eq, Structural, Debug)]
pub enum Dealt {
    /// The one signal was delivered, or it could not be.
    Sent(bool),
    /// A stop attempt was made.
    Attempted(StopOutcome),
}

/// Did it not do what was asked?
pub open spec fn fell_short(dealt: Dealt) -> bool {
    dealt == Dealt::Sent(false) || dealt == Dealt::Attempted(StopOutcome::Stubborn)
}

/// A port that nothing uses, or that could not be looked up.
pub open spec fn nothing_found(lookup: Lookup) -> bool {
    match lookup.1 {
        Ok(pids) => pids@.len() == 0,
        Err(_) => true,
    }
}

/// The exit code of `deemo kill`.
pub open spec fn kill_exit_spec(lookups: Seq<Lookup>, dealt: Seq<Dealt>) -> i32 {
    if (exists|m: int| 0 <= m < lookups.len() && nothing_found(#[trigger] lookups[m])) || (exists|
        k: int,
    | 0 <= k < dealt.len() && fell_short(#[trigger] dealt[k])) {
        1
    } else {
        0
    }
}

/// The exit code of `deemo kill`, given what was found on the ports and what
/// came of it: 1 where a port is free, a lookup failed, a signal could not be
/// sent or a target survived.
pub fn kill_exit_code(lookups: &Vec<Lookup>, dealt: &Vec<Dealt>) -> (code: i32)
    ensures
        code == kill_exit_spec(lookups@, dealt@),
        code == if (exists|m: int|
            0 <= m < lookups@.len() && nothing_found(#[trigger] lookups@[m])) || (exists|k: int|
            0 <= k < dealt@.len() && fell_short(#[trigger] dealt@[k])) {
            1i32
        } else {
            0
        },
{
    let mut m: usize = 0;
    while m < lookups.len()
        invariant
            m <= lookups.len(),
            forall|j: int| 0 <= j < m ==> !nothing_found(#[trigger] lookups@[j]),
        decreases lookups.len() - m,
    {
        let nothing = match &lookups[m].1 {
            Ok(pids) => pids.len() == 0,
            Err(_) => true,
        };
        if nothing {
            proof {
                assert(nothing_found(lookups@[m as int]));
            }
            return 1;
        }
        m += 1;
    }
    let mut k: usize = 0;
    while k < dealt.len()
        invariant
            k <= dealt.len(),
            forall|j: int| 0 <= j < k ==> !fell_short(#[trigger] dealt@[j]),
        decreases dealt.len() - k,
    {
        let short = match dealt[k] {
            Dealt::Sent(delivered) => !delivered,
            Dealt::Attempted(StopOutcome::Stubborn) => true,
            Dealt::Attempted(_) => false,
        };
        if short {
            proof {
                assert(fell_short(dealt@[k as int]));
            }
            return 1;
        }
        k += 1;
    }
    0
}

// ---------------------------------------------------------------------------
// Laws
// ---------------------------------------------------------------------------

/// Was the pid found on the port that was looked up?
pub open spec fn found(lookup: Lookup, pid: u32) -> bool {
    match lookup.1 {
        Ok(pids) => pids@.contains(pid),
        Err(_) => false,
    }
}

/// The lookup at `m` is the first that found the pid.
pub open spec fn first_found(lookups: Seq<Lookup>, m: int, pid: u32) -> bool {
    &&& 0 <= m < lookups.len()
    &&& found(lookups[m], pid)
    &&& forall|j: int| 0 <= j < m ==> !found(#[trigger] lookups[j], pid)
}

/// The target stands under the first port that its pid was found on.
pub open spec fn under_first_port(lookups: Seq<Lookup>, target: (u16, u32)) -> bool {
    exists|m: int| #[trigger] first_found(lookups, m, target.1) && lookups[m].0 == target.0
}

spec fn no_pid_twice(targets: Seq<(u16, u32)>) -> bool {
    forall|a: int, b: int|
        0 <= a < b < targets.len() ==> (#[trigger] targets[a]).1 != (#[trigger] targets[b]).1
}

proof fn pids_extend(targets: Seq<(u16, u32)>, port: u16, pids: Seq<u32>, n: int)
    requires
        0 <= n <= pids.len(),
        no_pid_twice(targets),
    ensures
        no_pid_twice(with_pids(targets, port, pids, n)),
        targets.len() <= with_pids(targets, port, pids, n).len(),
        forall|k: int|
            0 <= k < targets.len() ==> #[trigger] with_pids(targets, port, pids, n)[k]
                == targets[k],
        forall|k: int|
            targets.len() <= k < with_pids(targets, port, pids, n).len() ==> (
            #[trigger] with_pids(targets, port, pids, n)[k]).0 == port && pids.contains(
                with_pids(targets, port, pids, n)[k].1,
            ) && !targeted(targets, with_pids(targets, port, pids, n)[k].1),
        forall|j: int| 0 <= j < n ==> targeted(with_pids(targets, port, pids, n), #[trigger] pids[j]),
    decreases n,
{
    if n > 0 {
        pids_extend(targets, port, pids, n - 1);
        let before = with_pids(targets, port, pids, n - 1);
        let after = with_pids(targets, port, pids, n);
        let pid = pids[n - 1];
        if !targeted(before, pid) {
            assert(after == before.push((port, pid)));
            assert(after[before.len() as int].1 == pid);
            if targeted(targets, pid) {
                let k = choose|k: int| 0 <= k < targets.len() && (#[trigger] targets[k]).1 == pid;
                assert(before[k].1 == pid);
            }
            assert forall|j: int| 0 <= j < n implies targeted(after, #[trigger] pids[j]) by {
                if j < n - 1 {
                    let k = choose|k: int|
                        0 <= k < before.len() && (#[trigger] before[k]).1 == pids[j];
                    assert(after[k] == before[k]);
                }
            }
            assert forall|k: int| 0 <= k < targets.len() implies #[trigger] after[k]
                == targets[k] by {
                assert(after[k] == before[k]);
            }
            assert forall|k: int| targets.len() <= k < after.len() implies (
            #[trigger] after[k]).0 == port && pids.contains(after[k].1) && !targeted(
                targets,
                after[k].1,
            ) by {
                if k < before.len() {
                    assert(after[k] == before[k]);
                }
            }
        }
    }
}

proof fn targets_are_sound(lookups: Seq<Lookup>)
    ensures
        no_pid_twice(kill_targets(lookups)),
        forall|k: int|
            0 <= k < kill_targets(lookups).len() ==> under_first_port(
                lookups,
                #[trigger] kill_targets(lookups)[k],
            ),
        forall|m: int, pid: u32|
            0 <= m < lookups.len() && #[trigger] found(lookups[m], pid) ==> targeted(
                kill_targets(lookups),
                pid,
            ),
    decreases lookups.len(),
{
    if lookups.len() > 0 {
        let shorter = lookups.drop_last();
        targets_are_sound(shorter);
        let before = kill_targets(shorter);
        let after = kill_targets(lookups);
        let n = lookups.len() - 1;
        match lookups.last().1 {
            Ok(pids) => {
                pids_extend(before, lookups.last().0, pids@, pids@.len() as int);
            },
            Err(_) => {},
        }
        assert forall|k: int| 0 <= k < after.len() implies under_first_port(
            lookups,
            #[trigger] after[k],
        ) by {
            let pid = after[k].1;
            if k < before.len() {
                assert(after[k] == before[k]);
                let m = choose|m: int| #[trigger]
                    first_found(shorter, m, pid) && shorter[m].0 == before[k].0;
                assert(shorter[m] == lookups[m]);
                assert forall|j: int| 0 <= j < m implies !found(#[trigger] lookups[j], pid) by {
                    assert(shorter[j] == lookups[j]);
                }
                assert(first_found(lookups, m, pid));
            } else {
                assert forall|j: int| 0 <= j < n implies !found(#[trigger] lookups[j], pid) by {
                    assert(shorter[j] == lookups[j]);
                }
                assert(first_found(lookups, n, pid));
            }
        }
        assert forall|m: int, pid: u32|
            0 <= m < lookups.len() && #[trigger] found(lookups[m], pid) implies targeted(
            after,
            pid,
        ) by {
            if m < n {
                assert(shorter[m] == lookups[m]);
                assert(found(shorter[m], pid));
                let k = choose|k: int| 0 <= k < before.len() && (#[trigger] before[k]).1 == pid;
                assert(after[k] == before[k]);
            }
        }
    }
}

/// However many of the ports a process holds, it is dealt with once.
pub proof fn a_pid_is_dealt_with_once(lookups: Seq<Lookup>, a: int, b: int)
    requires
        0 <= a < kill_targets(lookups).len(),
        0 <= b < kill_targets(lookups).len(),
        kill_targets(lookups)[a].1 == kill_targets(lookups)[b].1,
    ensures
        a == b,
{
    targets_are_sound(lookups);
}

/// A pid stands under the first of the ports that it was found on.
pub proof fn a_pid_stands_under_its_first_port(lookups: Seq<Lookup>, k: int)
    requires
        0 <= k < kill_targets(lookups).len(),
    ensures
        under_first_port(lookups, kill_targets(lookups)[k]),
{
    targets_are_sound(lookups);
}

/// Every pid that was found is dealt with, whatever becomes of the other
/// ports.
pub proof fn every_holder_is_dealt_with(lookups: Seq<Lookup>, m: int, pid: u32)
    requires
        0 <= m < lookups.len(),
        found(lookups[m], pid),
    ensures
        targeted(kill_targets(lookups), pid),
{
    targets_are_sound(lookups);
}

/// A port is reported as free where, and only where, it was looked up and
/// nothing was found.
pub proof fn free_ports_are_reported(lookups: Seq<Lookup>, port: u16)
    ensures
        free_ports(lookups).contains(port) <==> exists|m: int|
            0 <= m < lookups.len() && (#[trigger] lookups[m]).0 == port && lookups[m].1 is Ok
                && lookups[m].1->Ok_0@.len() == 0,
    decreases lookups.len(),
{
    if lookups.len() > 0 {
        let shorter = lookups.drop_last();
        let n = lookups.len() - 1;
        free_ports_are_reported(shorter, port);
        let before = free_ports(shorter);
        let after = free_ports(lookups);
        if after.contains(port) {
            if before.contains(port) {
                let m = choose|m: int|
                    0 <= m < shorter.len() && (#[trigger] shorter[m]).0 == port && shorter[m].1 is Ok
                        && shorter[m].1->Ok_0@.len() == 0;
                assert(lookups[m] == shorter[m]);
            } else {
                assert(lookups[n].0 == port);
            }
        }
        if exists|m: int|
            0 <= m < lookups.len() && (#[trigger] lookups[m]).0 == port && lookups[m].1 is Ok
                && lookups[m].1->Ok_0@.len() == 0 {
            let m = choose|m: int|
                0 <= m < lookups.len() && (#[trigger] lookups[m]).0 == port && lookups[m].1 is Ok
                    && lookups[m].1->Ok_0@.len() == 0;
            if m < n {
                assert(shorter[m] == lookups[m]);
                let k = choose|k: int| 0 <= k < before.len() && before[k] == port;
                assert(after[k] == port);
            } else {
                assert(after[before.len() as int] == port);
            }
        }
    }
}

/// A lookup that failed is reported, with why.
pub proof fn failed_lookups_are_reported(lookups: Seq<Lookup>, m: int)
    requires
        0 <= m < lookups.len(),
        lookups[m].1 is Err,
    ensures
        lookup_messages(lookups).contains(lookup_message(lookups[m].0, lookups[m].1->Err_0@)),
    decreases lookups.len(),
{
    let shorter = lookups.drop_last();
    let before = lookup_messages(shorter);
    let after = lookup_messages(lookups);
    let wanted = lookup_message(lookups[m].0, lookups[m].1->Err_0@);
    if m < shorter.len() {
        assert(shorter[m] == lookups[m]);
        failed_lookups_are_reported(shorter, m);
        let k = choose|k: int| 0 <= k < before.len() && before[k] == wanted;
        assert(after[k] == wanted);
    } else {
        assert(after[before.len() as int] == wanted);
    }
}

} // verus!
