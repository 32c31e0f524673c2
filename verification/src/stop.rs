//! `deemo stop`: which registered processes the arguments select, and what is
//! said of each.

use vstd::prelude::*;

use crate::registry::{Entry, Liveness};
use crate::terminate::StopOutcome;
use crate::text::{chars, parse_number, push_decimal, same_text};

verus! {

// ---------------------------------------------------------------------------
// Selecting
// ---------------------------------------------------------------------------

/// One `deemo stop` argument. A number is a pid, anything else a label.
#[derive(Debug)]
pub enum Selector {
    Label(String),
    Pid(u32),
    /// Digits that write a number which no pid can be.
    NoPid(String),
}

/// The pid that an argument names, where it is a number that can be one.
pub open spec fn named_pid(raw: Seq<char>) -> Option<int> {
    crate::text::numeral_upto(raw, false, u32::MAX as int)
}

/// Digits, and nothing else.
pub open spec fn all_digits(raw: Seq<char>) -> bool {
    raw.len() > 0 && forall|i: int| 0 <= i < raw.len() ==> '0' <= #[trigger] raw[i] <= '9'
}

/// Is the argument a number, and so no label?
pub open spec fn is_number(raw: Seq<char>) -> bool {
    named_pid(raw) is Some || all_digits(raw)
}

/// Does an argument select a registration?
pub open spec fn selects(raw: Seq<char>, r: crate::registry::Record) -> bool {
    if is_number(raw) {
        named_pid(raw) == Some(r.pid as int)
    } else {
        r.label == raw
    }
}

/// Phrase for an argument that matched nothing.
pub open spec fn describe_spec(raw: Seq<char>) -> Seq<char> {
    match named_pid(raw) {
        Some(pid) => "pid "@ + crate::text::decimal_spec(pid as nat),
        None => if all_digits(raw) {
            "pid "@ + raw
        } else {
            "label '"@ + raw + "'"@
        },
    }
}

fn has_only_digits(s: &Vec<char>) -> (yes: bool)
    ensures
        yes == all_digits(s@),
{
    let mut i: usize = 0;
    while i < s.len()
        invariant
            i <= s.len(),
            forall|k: int| 0 <= k < i ==> '0' <= #[trigger] s@[k] <= '9',
        decreases s.len() - i,
    {
        let c = s[i];
        if !('0' <= c && c <= '9') {
            return false;
        }
        i += 1;
    }
    s.len() > 0
}

/// Is the argument a number, and so no label?
pub fn reads_as_number(raw: &str) -> (yes: bool)
    ensures
        yes == is_number(raw@),
{
    match Selector::parse(raw) {
        Selector::Label(_) => false,
        _ => true,
    }
}

impl Selector {
    /// Does this selector stand for the argument?
    pub open spec fn reads(self, raw: Seq<char>) -> bool {
        match self {
            Selector::Label(label) => !is_number(raw) && label@ == raw,
            Selector::Pid(pid) => named_pid(raw) == Some(pid as int),
            Selector::NoPid(digits) => named_pid(raw) is None && all_digits(raw) && digits@ == raw,
        }
    }

    /// Reads an argument: a number is a pid, anything else a label.
    pub fn parse(raw: &str) -> (selector: Selector)
        ensures
            selector.reads(raw@),
            all_digits(raw@) ==> !(selector is Label),
            (exists|i: int|
                0 <= i < raw@.len() && !('0' <= #[trigger] raw@[i] <= '9') && (raw@[i] == '+' ==> i
                    > 0)) ==> (selector matches Selector::Label(label) && label@ == raw@),
    {
        let text = chars(raw);
        proof {
            crate::laws::text::a_number_is_made_of_digits(raw@);
        }
        match parse_number(&text, false, u32::MAX as u64) {
            Some(pid) => Selector::Pid(pid as u32),
            None => if has_only_digits(&text) {
                Selector::NoPid(String::from_str(raw))
            } else {
                Selector::Label(String::from_str(raw))
            },
        }
    }

    /// Does it select this entry?
    pub fn matches(&self, entry: &Entry) -> (yes: bool)
        ensures
            yes == (match *self {
                Selector::Label(label) => entry.label@ == label@,
                Selector::Pid(pid) => entry.pid == pid,
                Selector::NoPid(_) => false,
            }),
            forall|raw: Seq<char>| #[trigger]
                self.reads(raw) ==> yes == selects(raw, entry.record()),
    {
        match self {
            Selector::Label(label) => same_text(entry.label.as_str(), label.as_str()),
            Selector::Pid(pid) => entry.pid == *pid,
            Selector::NoPid(_) => false,
        }
    }

    /// Phrase for the "matched nothing" message.
    pub fn describe(&self) -> (phrase: String)
        ensures
            phrase@ == (match *self {
                Selector::Label(label) => "label '"@ + label@ + "'"@,
                Selector::Pid(pid) => "pid "@ + crate::text::decimal_spec(pid as nat),
                Selector::NoPid(digits) => "pid "@ + digits@,
            }),
            forall|raw: Seq<char>| #[trigger] self.reads(raw) ==> phrase@ == describe_spec(raw),
    {
        match self {
            Selector::Label(label) => {
                let mut phrase = String::from_str("label '");
                phrase.append(label.as_str());
                phrase.append("'");
                phrase
            },
            Selector::Pid(pid) => {
                let mut phrase = String::from_str("pid ");
                push_decimal(&mut phrase, *pid as u64);
                phrase
            },
            Selector::NoPid(digits) => {
                let mut phrase = String::from_str("pid ");
                phrase.append(digits.as_str());
                phrase
            },
        }
    }
}

// ---------------------------------------------------------------------------
// Reports
// ---------------------------------------------------------------------------

/// What is said of a selected process, and what becomes of its pid file.
#[derive(Debug)]
pub struct Report {
    /// The line to print.
    pub message: String,
    /// The pid file is to be removed.
    pub remove: bool,
}

/// How the handling of one selected process ended.
#[derive(Clone, Copy, PartialEq, Eq, Structural, Debug)]
pub enum Ending {
    /// There was nothing to stop.
    NotRunning,
    /// A stop attempt was made.
    Attempted(StopOutcome),
}

/// Is a stop attempt to be made?
pub open spec fn worth_stopping_spec(state: Liveness) -> bool {
    state != Liveness::Dead
}

/// Is a stop attempt to be made? Not on what is known to be dead; where
/// liveness cannot be known, it is made.
pub fn worth_stopping(state: Liveness) -> (yes: bool)
    ensures
        yes == worth_stopping_spec(state),
        yes == (state != Liveness::Dead),
{
    match state {
        Liveness::Dead => false,
        _ => true,
    }
}

/// The line for a selected process.
pub open spec fn stop_message(label: Seq<char>, pid: u32, ending: Ending) -> Seq<char> {
    let number = crate::text::decimal_spec(pid as nat);
    match ending {
        Ending::NotRunning => "deemo: "@ + label + " (pid "@ + number + ") is not running"@,
        Ending::Attempted(StopOutcome::Terminated) => "deemo: stopped "@ + label + " (pid "@ + number
            + ", SIGTERM to process group)"@,
        Ending::Attempted(StopOutcome::Killed) => "deemo: stopped "@ + label + " (pid "@ + number
            + ", SIGKILL after grace period)"@,
        Ending::Attempted(StopOutcome::TreeKilled) => "deemo: stopped "@ + label + " (pid "@ + number
            + ", taskkill /F /T)"@,
        Ending::Attempted(StopOutcome::Stubborn) => "deemo: "@ + label + " (pid "@ + number
            + ") survived SIGTERM and SIGKILL; keeping its pid file"@,
    }
}

/// Is the pid file removed?
pub open spec fn removes(ending: Ending) -> bool {
    ending != Ending::Attempted(StopOutcome::Stubborn)
}

/// What is said of a selected process, and what becomes of its pid file: it
/// is kept where the process survived, so that a retry still has a target.
pub fn stop_report(entry: &Entry, ending: Ending) -> (report: Report)
    ensures
        report.message@ == stop_message(entry.label@, entry.pid, ending),
        report.remove == removes(ending),
        report.remove == (ending != Ending::Attempted(StopOutcome::Stubborn)),
{
    let stubborn = match ending {
        Ending::Attempted(StopOutcome::Stubborn) => true,
        _ => false,
    };
    let still = match ending {
        Ending::NotRunning => true,
        _ => stubborn,
    };
    let mut message = String::from_str(if still { "deemo: " } else { "deemo: stopped " });
    message.append(entry.label.as_str());
    message.append(" (pid ");
    push_decimal(&mut message, entry.pid as u64);
    message.append(
        match ending {
            Ending::NotRunning => ") is not running",
            Ending::Attempted(StopOutcome::Terminated) => ", SIGTERM to process group)",
            Ending::Attempted(StopOutcome::Killed) => ", SIGKILL after grace period)",
            Ending::Attempted(StopOutcome::TreeKilled) => ", taskkill /F /T)",
            Ending::Attempted(
                StopOutcome::Stubborn,
            ) => ") survived SIGTERM and SIGKILL; keeping its pid file",
        },
    );
    Report { message, remove: !stubborn }
}

/// What is said of an argument that selects nothing.
pub open spec fn missing_message(raw: Seq<char>) -> Seq<char> {
    "deemo: no process with "@ + describe_spec(raw)
}

// ---------------------------------------------------------------------------
// The plan
// ---------------------------------------------------------------------------

/// One thing to do for `deemo stop`.
#[derive(Debug)]
pub enum StopStep {
    /// An argument selected nothing: say this.
    Missing(String),
    /// Stop the entry at this place of the list.
    Stop(usize),
}

/// One thing to do, by what is said or by the entry's place.
pub ghost enum Step {
    Missing(Seq<char>),
    Stop(int),
}

/// The step in terms of the model.
pub open spec fn step_of(step: StopStep) -> Step {
    match step {
        StopStep::Missing(message) => Step::Missing(message@),
        StopStep::Stop(i) => Step::Stop(i as int),
    }
}

/// The steps in terms of the model.
pub open spec fn steps_of(steps: Seq<StopStep>) -> Seq<Step> {
    steps.map_values(|s: StopStep| step_of(s))
}

/// Does the step stop the process with this pid?
pub open spec fn step_stops(step: Step, entries: Seq<Entry>, pid: u32) -> bool {
    match step {
        Step::Missing(_) => false,
        Step::Stop(i) => 0 <= i < entries.len() && entries[i].pid == pid,
    }
}

/// Does the plan stop the process with this pid?
pub open spec fn stops(plan: Seq<Step>, entries: Seq<Entry>, pid: u32) -> bool {
    exists|k: int| 0 <= k < plan.len() && step_stops(#[trigger] plan[k], entries, pid)
}

/// Does the argument select any of the entries?
pub open spec fn selects_any(raw: Seq<char>, entries: Seq<Entry>) -> bool {
    exists|i: int| 0 <= i < entries.len() && selects(raw, (#[trigger] entries[i]).record())
}

/// The plan, and behind it the first `n` entries that the argument selects,
/// in the order of the list, but for those whose pid is already dealt with.
pub open spec fn with_hits(plan: Seq<Step>, entries: Seq<Entry>, raw: Seq<char>, n: int) -> Seq<Step>
    decreases n,
{
    if n <= 0 {
        plan
    } else {
        let so_far = with_hits(plan, entries, raw, n - 1);
        let e = entries[n - 1];
        if selects(raw, e.record()) && !stops(so_far, entries, e.pid) {
            so_far.push(Step::Stop(n - 1))
        } else {
            so_far
        }
    }
}

/// What `deemo stop` does, argument by argument.
pub open spec fn stop_plan(entries: Seq<Entry>, targets: Seq<Seq<char>>) -> Seq<Step>
    decreases targets.len(),
{
    if targets.len() == 0 {
        seq![]
    } else {
        let so_far = stop_plan(entries, targets.drop_last());
        let raw = targets.last();
        if selects_any(raw, entries) {
            with_hits(so_far, entries, raw, entries.len() as int)
        } else {
            so_far.push(Step::Missing(missing_message(raw)))
        }
    }
}

fn is_among(pids: &Vec<u32>, pid: u32) -> (yes: bool)
    ensures
        yes == pids@.contains(pid),
{
    let mut i: usize = 0;
    while i < pids.len()
        invariant
            i <= pids.len(),
            forall|k: int| 0 <= k < i ==> pids@[k] != pid,
        decreases pids.len() - i,
    {
        if pids[i] == pid {
            return true;
        }
        i += 1;
    }
    false
}

/// What to do to stop the processes that the arguments select: a label stops
/// every registration under it, a pid exactly one. A process that is selected
/// twice is stopped once.
pub fn stop(entries: &Vec<Entry>, targets: &Vec<String>) -> (steps: Vec<StopStep>)
    ensures
        steps_of(steps@) == stop_plan(entries@, crate::text::texts(targets@)),
        forall|k: int|
            0 <= k < steps@.len() ==> (match #[trigger] steps@[k] {
                StopStep::Missing(_) => true,
                StopStep::Stop(i) => i < entries.len(),
            }),
{
    let mut steps: Vec<StopStep> = Vec::new();
    let mut handled: Vec<u32> = Vec::new();
    let ghost args = crate::text::texts(targets@);
    let mut t: usize = 0;
    proof {
        assert(steps_of(steps@) =~= stop_plan(entries@, args.take(0)));
    }
    while t < targets.len()
        invariant
            t <= targets.len(),
            args == crate::text::texts(targets@),
            steps_of(steps@) == stop_plan(entries@, args.take(t as int)),
            forall|pid: u32|
                handled@.contains(pid) <==> #[trigger] stops(steps_of(steps@), entries@, pid),
            forall|k: int|
                0 <= k < steps@.len() ==> (match #[trigger] steps@[k] {
                    StopStep::Missing(_) => true,
                    StopStep::Stop(i) => i < entries.len(),
                }),
        decreases targets.len() - t,
    {
        let selector = Selector::parse(targets[t].as_str());
        let ghost raw = targets@[t as int]@;
        let ghost before = steps_of(steps@);
        let mut hit = false;
        let mut i: usize = 0;
        proof {
            assert(args.take(t + 1).last() == raw);
            assert(args.take(t + 1).drop_last() =~= args.take(t as int));
        }
        while i < entries.len()
            invariant
                i <= entries.len(),
                selector.reads(raw),
                hit == exists|k: int|
                    0 <= k < i && selects(raw, (#[trigger] entries@[k]).record()),
                steps_of(steps@) == with_hits(before, entries@, raw, i as int),
                forall|pid: u32|
                    handled@.contains(pid) <==> #[trigger] stops(steps_of(steps@), entries@, pid),
                forall|k: int|
                    0 <= k < steps@.len() ==> (match #[trigger] steps@[k] {
                        StopStep::Missing(_) => true,
                        StopStep::Stop(i) => i < entries.len(),
                    }),
            decreases entries.len() - i,
        {
            if selector.matches(&entries[i]) {
                hit = true;
                if !is_among(&handled, entries[i].pid) {
                    let ghost old_steps = steps@;
                    let ghost old_handled = handled@;
                    handled.push(entries[i].pid);
                    steps.push(StopStep::Stop(i));
                    proof {
                        step_added(old_steps, steps@[steps@.len() - 1], entries@);
                        assert forall|pid: u32| handled@.contains(pid) <==> #[trigger] stops(
                            steps_of(steps@),
                            entries@,
                            pid,
                        ) by {
                            pushed(old_handled, entries@[i as int].pid, pid);
                        }
                    }
                }
            }
            i += 1;
        }
        if !hit {
            let mut message = String::from_str("deemo: no process with ");
            message.append(selector.describe().as_str());
            let ghost old_steps = steps@;
            proof {
                no_hits(before, entries@, raw, entries@.len() as int);
            }
            steps.push(StopStep::Missing(message));
            proof {
                step_added(old_steps, steps@[steps@.len() - 1], entries@);
                assert(steps_of(steps@) =~= before.push(Step::Missing(missing_message(raw))));
            }
        }
        t += 1;
    }
    proof {
        assert(args.take(args.len() as int) =~= args);
    }
    steps
}

proof fn pushed(s: Seq<u32>, x: u32, y: u32)
    ensures
        s.push(x).contains(y) <==> s.contains(y) || x == y,
{
    if s.contains(y) {
        let k = choose|k: int| 0 <= k < s.len() && s[k] == y;
        assert(s.push(x)[k] == y);
    }
    if x == y {
        assert(s.push(x)[s.len() as int] == y);
    }
}

proof fn step_added(steps: Seq<StopStep>, step: StopStep, entries: Seq<Entry>)
    ensures
        steps_of(steps.push(step)) == steps_of(steps).push(step_of(step)),
        forall|pid: u32| #[trigger]
            stops(steps_of(steps.push(step)), entries, pid) <==> (stops(
                steps_of(steps),
                entries,
                pid,
            ) || step_stops(step_of(step), entries, pid)),
{
    assert(steps_of(steps.push(step)) =~= steps_of(steps).push(step_of(step)));
    assert forall|pid: u32| #[trigger]
        stops(steps_of(steps.push(step)), entries, pid) <==> (stops(steps_of(steps), entries, pid)
            || step_stops(step_of(step), entries, pid)) by {
        plan_grows(steps_of(steps), step_of(step), entries, pid);
    }
}

proof fn plan_grows(plan: Seq<Step>, step: Step, entries: Seq<Entry>, pid: u32)
    ensures
        stops(plan.push(step), entries, pid) <==> (stops(plan, entries, pid) || step_stops(
            step,
            entries,
            pid,
        )),
{
    if stops(plan, entries, pid) {
        let k = choose|k: int| 0 <= k < plan.len() && step_stops(#[trigger] plan[k], entries, pid);
        assert(plan.push(step)[k] == plan[k]);
    }
    if step_stops(step, entries, pid) {
        assert(plan.push(step)[plan.len() as int] == step);
    }
    if stops(plan.push(step), entries, pid) {
        let k = choose|k: int|
            0 <= k < plan.push(step).len() && step_stops(
                #[trigger] plan.push(step)[k],
                entries,
                pid,
            );
        if k < plan.len() {
            assert(plan.push(step)[k] == plan[k]);
        }
    }
}

proof fn no_hits(plan: Seq<Step>, entries: Seq<Entry>, raw: Seq<char>, n: int)
    requires
        n <= entries.len(),
        forall|k: int| 0 <= k < n ==> !selects(raw, (#[trigger] entries[k]).record()),
    ensures
        with_hits(plan, entries, raw, n) == plan,
    decreases n,
{
    if n > 0 {
        no_hits(plan, entries, raw, n - 1);
    }
}

/// An argument that selects none of the entries.
pub open spec fn any_without_match(entries: Seq<Entry>, targets: Seq<Seq<char>>) -> bool {
    exists|t: int| 0 <= t < targets.len() && !selects_any(#[trigger] targets[t], entries)
}

/// A process that survived both signals.
pub open spec fn any_survived(endings: Seq<Ending>) -> bool {
    exists|k: int|
        0 <= k < endings.len() && #[trigger] endings[k] == Ending::Attempted(StopOutcome::Stubborn)
}

/// The exit code of `deemo stop`.
pub open spec fn stop_exit_spec(
    entries: Seq<Entry>,
    targets: Seq<Seq<char>>,
    endings: Seq<Ending>,
) -> i32 {
    if any_without_match(entries, targets) || any_survived(endings) {
        1
    } else {
        0
    }
}

/// The exit code of `deemo stop`, given how the handling of the selected
/// processes ended: 1 where an argument matched nothing or a process survived.
pub fn stop_exit_code(entries: &Vec<Entry>, targets: &Vec<String>, endings: &Vec<Ending>) -> (code:
    i32)
    ensures
        code == stop_exit_spec(entries@, crate::text::texts(targets@), endings@),
        code == if any_without_match(entries@, crate::text::texts(targets@)) || any_survived(
            endings@,
        ) {
            1i32
        } else {
            0
        },
{
    let mut k: usize = 0;
    while k < endings.len()
        invariant
            k <= endings.len(),
            forall|j: int|
                0 <= j < k ==> #[trigger] endings@[j] != Ending::Attempted(StopOutcome::Stubborn),
        decreases endings.len() - k,
    {
        if let Ending::Attempted(StopOutcome::Stubborn) = endings[k] {
            return 1;
        }
        k += 1;
    }
    let ghost args = crate::text::texts(targets@);
    let mut t: usize = 0;
    while t < targets.len()
        invariant
            t <= targets.len(),
            args == crate::text::texts(targets@),
            forall|j: int| 0 <= j < t ==> selects_any(#[trigger] args[j], entries@),
        decreases targets.len() - t,
    {
        if !matches_any(targets[t].as_str(), entries) {
            proof {
                assert(!selects_any(args[t as int], entries@));
            }
            return 1;
        }
        t += 1;
    }
    0
}

fn matches_any(raw: &str, entries: &Vec<Entry>) -> (yes: bool)
    ensures
        yes == selects_any(raw@, entries@),
{
    let selector = Selector::parse(raw);
    let mut i: usize = 0;
    while i < entries.len()
        invariant
            i <= entries.len(),
            selector.reads(raw@),
            forall|k: int| 0 <= k < i ==> !selects(raw@, (#[trigger] entries@[k]).record()),
        decreases entries.len() - i,
    {
        if selector.matches(&entries[i]) {
            return true;
        }
        i += 1;
    }
    false
}

// ---------------------------------------------------------------------------
// Laws
// ---------------------------------------------------------------------------

proof fn digits_write_a_number(raw: Seq<char>)
    requires
        forall|i: int| 0 <= i < raw.len() ==> '0' <= #[trigger] raw[i] <= '9',
    ensures
        crate::text::digits_value(raw, false) is Some,
    decreases raw.len(),
{
    if raw.len() > 0 {
        digits_write_a_number(raw.drop_last());
    }
}

/// A number is a pid, never a label: digits select by the number they write
/// alone, whatever the labels are and however large the number is.
pub proof fn a_number_is_a_pid(raw: Seq<char>, r: crate::registry::Record)
    requires
        all_digits(raw),
    ensures
        selects(raw, r) <==> crate::text::numeral(raw, false) == Some(r.pid as int),
{
    digits_write_a_number(raw);
}

/// A registration is selected by its pid as `ps` shows it, and by its label
/// unless that is a number.
pub proof fn a_registration_can_be_selected(r: crate::registry::Record)
    ensures
        selects(crate::text::decimal_spec(r.pid as nat), r),
        !is_number(r.label) ==> selects(r.label, r),
{
    crate::text::decimal_reads_back(r.pid as nat);
}

/// Each step of the plan stands for an entry of the list, or for a message.
spec fn in_list(plan: Seq<Step>, entries: Seq<Entry>) -> bool {
    forall|k: int|
        0 <= k < plan.len() ==> (match #[trigger] plan[k] {
            Step::Missing(_) => true,
            Step::Stop(i) => 0 <= i < entries.len(),
        })
}

/// No process is stopped by two steps.
spec fn no_pid_twice(plan: Seq<Step>, entries: Seq<Entry>) -> bool {
    forall|a: int, b: int, pid: u32|
        0 <= a < b < plan.len() && #[trigger] step_stops(plan[a], entries, pid)
            ==> !#[trigger] step_stops(plan[b], entries, pid)
}

proof fn hits_extend(plan: Seq<Step>, entries: Seq<Entry>, raw: Seq<char>, n: int)
    requires
        0 <= n <= entries.len(),
        in_list(plan, entries),
        no_pid_twice(plan, entries),
    ensures
        in_list(with_hits(plan, entries, raw, n), entries),
        no_pid_twice(with_hits(plan, entries, raw, n), entries),
        plan.len() <= with_hits(plan, entries, raw, n).len(),
        with_hits(plan, entries, raw, n).take(plan.len() as int) == plan,
        forall|k: int|
            plan.len() <= k < with_hits(plan, entries, raw, n).len() ==> (match #[trigger] with_hits(
                plan,
                entries,
                raw,
                n,
            )[k] {
                Step::Missing(_) => false,
                Step::Stop(i) => 0 <= i < n && selects(raw, entries[i].record()),
            }),
        forall|i: int|
            0 <= i < n && selects(raw, (#[trigger] entries[i]).record()) ==> stops(
                with_hits(plan, entries, raw, n),
                entries,
                entries[i].pid,
            ),
    decreases n,
{
    if n > 0 {
        hits_extend(plan, entries, raw, n - 1);
        let before = with_hits(plan, entries, raw, n - 1);
        let after = with_hits(plan, entries, raw, n);
        let e = entries[n - 1];
        if after != before {
            assert(after == before.push(Step::Stop(n - 1)));
            assert(after.take(plan.len() as int) =~= before.take(plan.len() as int));
            assert forall|a: int, b: int, pid: u32|
                0 <= a < b < after.len() && #[trigger] step_stops(
                    after[a],
                    entries,
                    pid,
                ) implies !#[trigger] step_stops(after[b], entries, pid) by {
                assert(after[a] == before[a]);
                if b < before.len() {
                    assert(after[b] == before[b]);
                } else if step_stops(after[b], entries, pid) {
                    assert(stops(before, entries, e.pid));
                }
            }
            assert forall|k: int| plan.len() <= k < after.len() implies (match #[trigger] after[k] {
                Step::Missing(_) => false,
                Step::Stop(i) => 0 <= i < n && selects(raw, entries[i].record()),
            }) by {
                if k < before.len() {
                    assert(after[k] == before[k]);
                }
            }
            assert(in_list(after, entries)) by {
                assert forall|k: int| 0 <= k < after.len() implies (match #[trigger] after[k] {
                    Step::Missing(_) => true,
                    Step::Stop(i) => 0 <= i < entries.len(),
                }) by {
                    if k < before.len() {
                        assert(after[k] == before[k]);
                    }
                }
            }
            assert forall|i: int| 0 <= i < n && selects(
                raw,
                (#[trigger] entries[i]).record(),
            ) implies stops(after, entries, entries[i].pid) by {
                plan_grows(before, Step::Stop(n - 1), entries, entries[i].pid);
            }
        }
    } else {
        assert(plan.take(plan.len() as int) =~= plan);
    }
}

proof fn plan_is_sound(entries: Seq<Entry>, targets: Seq<Seq<char>>)
    ensures
        in_list(stop_plan(entries, targets), entries),
        no_pid_twice(stop_plan(entries, targets), entries),
    decreases targets.len(),
{
    if targets.len() > 0 {
        plan_is_sound(entries, targets.drop_last());
        let before = stop_plan(entries, targets.drop_last());
        let raw = targets.last();
        if selects_any(raw, entries) {
            hits_extend(before, entries, raw, entries.len() as int);
        } else {
            let after = stop_plan(entries, targets);
            let step = Step::Missing(missing_message(raw));
            assert(after == before.push(step));
            assert forall|a: int, b: int, pid: u32|
                0 <= a < b < after.len() && #[trigger] step_stops(
                    after[a],
                    entries,
                    pid,
                ) implies !#[trigger] step_stops(after[b], entries, pid) by {
                assert(after[a] == before[a]);
                if b < before.len() {
                    assert(after[b] == before[b]);
                }
            }
            assert forall|k: int| 0 <= k < after.len() implies (match #[trigger] after[k] {
                Step::Missing(_) => true,
                Step::Stop(i) => 0 <= i < entries.len(),
            }) by {
                if k < before.len() {
                    assert(after[k] == before[k]);
                }
            }
        }
    }
}

/// However often a process is selected, it is stopped once.
pub proof fn a_process_is_stopped_once(
    entries: Seq<Entry>,
    targets: Seq<Seq<char>>,
    a: int,
    b: int,
    pid: u32,
)
    requires
        0 <= a < stop_plan(entries, targets).len(),
        0 <= b < stop_plan(entries, targets).len(),
        step_stops(stop_plan(entries, targets)[a], entries, pid),
        step_stops(stop_plan(entries, targets)[b], entries, pid),
    ensures
        a == b,
{
    plan_is_sound(entries, targets);
}

/// What one argument fewer already planned is still planned.
pub proof fn plan_keeps(entries: Seq<Entry>, targets: Seq<Seq<char>>, t: int)
    requires
        0 <= t <= targets.len(),
    ensures
        stop_plan(entries, targets.take(t)).len() <= stop_plan(entries, targets).len(),
        stop_plan(entries, targets).take(stop_plan(entries, targets.take(t)).len() as int)
            == stop_plan(entries, targets.take(t)),
    decreases targets.len(),
{
    let whole = stop_plan(entries, targets);
    if t == targets.len() {
        assert(targets.take(t) =~= targets);
        assert(whole.take(whole.len() as int) =~= whole);
    } else {
        let shorter = targets.drop_last();
        assert(shorter.take(t) =~= targets.take(t));
        plan_keeps(entries, shorter, t);
        plan_is_sound(entries, shorter);
        let before = stop_plan(entries, shorter);
        let first = stop_plan(entries, targets.take(t));
        if selects_any(targets.last(), entries) {
            hits_extend(before, entries, targets.last(), entries.len() as int);
            assert(whole.take(first.len() as int) =~= whole.take(before.len() as int).take(
                first.len() as int,
            ));
        } else {
            assert(whole.take(first.len() as int) =~= before.take(first.len() as int));
        }
    }
}

/// Every registration that some argument selects is stopped: a label takes
/// down all that is registered under it.
pub proof fn all_that_is_selected_is_stopped(
    entries: Seq<Entry>,
    targets: Seq<Seq<char>>,
    t: int,
    i: int,
)
    requires
        0 <= t < targets.len(),
        0 <= i < entries.len(),
        selects(targets[t], entries[i].record()),
    ensures
        stops(stop_plan(entries, targets), entries, entries[i].pid),
{
    let upto = targets.take(t + 1);
    assert(upto.last() == targets[t]);
    plan_is_sound(entries, upto.drop_last());
    assert(selects_any(targets[t], entries));
    hits_extend(stop_plan(entries, upto.drop_last()), entries, targets[t], entries.len() as int);
    plan_keeps(entries, targets, t + 1);
    let first = stop_plan(entries, upto);
    let whole = stop_plan(entries, targets);
    let pid = entries[i].pid;
    let k = choose|k: int| 0 <= k < first.len() && step_stops(#[trigger] first[k], entries, pid);
    assert(whole[k] == whole.take(first.len() as int)[k]);
}

/// Nothing is stopped that no argument selects.
pub proof fn only_what_is_selected_is_stopped(
    entries: Seq<Entry>,
    targets: Seq<Seq<char>>,
    k: int,
    i: int,
)
    requires
        0 <= k < stop_plan(entries, targets).len(),
        stop_plan(entries, targets)[k] == Step::Stop(i),
    ensures
        0 <= i < entries.len(),
        exists|t: int|
            0 <= t < targets.len() && selects(#[trigger] targets[t], entries[i].record()),
    decreases targets.len(),
{
    plan_is_sound(entries, targets);
    let shorter = targets.drop_last();
    plan_is_sound(entries, shorter);
    let before = stop_plan(entries, shorter);
    let whole = stop_plan(entries, targets);
    let raw = targets.last();
    if selects_any(raw, entries) {
        hits_extend(before, entries, raw, entries.len() as int);
        if k < before.len() {
            assert(whole.take(before.len() as int)[k] == whole[k]);
        }
    }
    if k < before.len() {
        assert(before[k] == whole[k]);
        only_what_is_selected_is_stopped(entries, shorter, k, i);
        let t = choose|t: int|
            0 <= t < shorter.len() && selects(#[trigger] shorter[t], entries[i].record());
        assert(targets[t] == shorter[t]);
    } else {
        assert(selects(targets[targets.len() - 1], entries[i].record()));
    }
}

/// An argument that selects nothing is reported.
pub proof fn an_argument_without_match_is_reported(
    entries: Seq<Entry>,
    targets: Seq<Seq<char>>,
    t: int,
)
    requires
        0 <= t < targets.len(),
        !selects_any(targets[t], entries),
    ensures
        stop_plan(entries, targets).contains(Step::Missing(missing_message(targets[t]))),
{
    let upto = targets.take(t + 1);
    assert(upto.last() == targets[t]);
    plan_keeps(entries, targets, t + 1);
    let first = stop_plan(entries, upto);
    let whole = stop_plan(entries, targets);
    let k = first.len() - 1;
    assert(first[k] == Step::Missing(missing_message(targets[t])));
    assert(whole[k] == whole.take(first.len() as int)[k]);
}

/// What was registered can be stopped: by its label, unless that is a number,
/// and by its pid.
pub proof fn what_was_registered_can_be_stopped(
    entries: Seq<Entry>,
    files: Seq<crate::registry::RunFile>,
    f: int,
    r: crate::registry::Record,
)
    requires
        crate::registry::lists(entries, files),
        0 <= f < files.len(),
        files[f].name@ == crate::registry::pid_file_name(r.label, r.pid),
        files[f].text is Some,
        files[f].text->0@ == crate::registry::record_text(r),
        crate::registry::one_line(r.label),
        crate::registry::one_line(r.started),
        crate::registry::one_line(r.cmd),
        crate::registry::one_line(r.log),
    ensures
        !is_number(r.label) ==> stops(stop_plan(entries, seq![r.label]), entries, r.pid),
        stops(
            stop_plan(entries, seq![crate::text::decimal_spec(r.pid as nat)]),
            entries,
            r.pid,
        ),
{
    crate::registry::a_registration_is_listed(entries, files, f, r);
    let i = choose|i: int| 0 <= i < entries.len() && (#[trigger] entries[i]).record() == r;
    a_registration_can_be_selected(r);
    if !is_number(r.label) {
        all_that_is_selected_is_stopped(entries, seq![r.label], 0, i);
    }
    all_that_is_selected_is_stopped(
        entries,
        seq![crate::text::decimal_spec(r.pid as nat)],
        0,
        i,
    );
}

/// `deemo stop` exits with 0 only where each argument selects something and
/// all of that is stopped: then no step reports an argument as missing.
pub proof fn success_misses_nothing(entries: Seq<Entry>, targets: Seq<Seq<char>>, k: int)
    requires
        !any_without_match(entries, targets),
        0 <= k < stop_plan(entries, targets).len(),
    ensures
        stop_plan(entries, targets)[k] is Stop,
    decreases targets.len(),
{
    if targets.len() > 0 {
        let shorter = targets.drop_last();
        let before = stop_plan(entries, shorter);
        let whole = stop_plan(entries, targets);
        assert(selects_any(targets[targets.len() - 1], entries));
        assert forall|t: int| 0 <= t < shorter.len() implies selects_any(
            #[trigger] shorter[t],
            entries,
        ) by {
            assert(shorter[t] == targets[t]);
        }
        plan_is_sound(entries, shorter);
        hits_extend(before, entries, targets.last(), entries.len() as int);
        if k < before.len() {
            success_misses_nothing(entries, shorter, k);
            assert(whole[k] == whole.take(before.len() as int)[k]);
        }
    }
}

} // verus!
