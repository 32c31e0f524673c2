//! What an argument of `deemo stop` selects, and what is said.

use vstd::prelude::*;

use crate::registry::{Entry, Record};
use crate::stop::{Ending, Step};
use crate::terminate::StopOutcome;

verus! {

/// An argument is a number only where it is digits, behind a `+` that may be
/// left out: any other character, wherever it stands, makes it a label.
pub proof fn only_digits_make_a_number(raw: Seq<char>, i: int)
    requires
        0 <= i < raw.len(),
        !('0' <= raw[i] <= '9'),
        raw[i] == '+' ==> i > 0,
    ensures
        !crate::stop::is_number(raw),
{
    crate::laws::text::a_number_is_made_of_digits(raw);
}

/// A label selects what is registered under it, letter by letter: nothing
/// else, and whatever the pids are.
pub proof fn a_label_selects_its_registrations(raw: Seq<char>, r: Record, i: int)
    requires
        0 <= i < raw.len(),
        !('0' <= raw[i] <= '9'),
        raw[i] == '+' ==> i > 0,
    ensures
        crate::stop::selects(raw, r) <==> r.label == raw,
{
    only_digits_make_a_number(raw, i);
}

/// The empty argument, and a `+` alone, are labels too.
pub proof fn no_digits_make_no_number(raw: Seq<char>, r: Record)
    requires
        raw.len() == 0 || raw == seq!['+'],
    ensures
        crate::stop::selects(raw, r) <==> r.label == raw,
{
    crate::laws::text::a_number_is_made_of_digits(raw);
}

/// Digits behind a `+` select by the number they write, where a pid can be so
/// large; a larger one is no pid, and a label with the `+`.
pub proof fn a_signed_number_is_a_pid(digits: Seq<char>, r: Record)
    requires
        digits.len() > 0,
        forall|i: int| 0 <= i < digits.len() ==> '0' <= #[trigger] digits[i] <= '9',
    ensures
        ({
            let raw = seq!['+'] + digits;
            let n = crate::text::numeral(digits, false)->0;
            &&& n <= u32::MAX ==> (crate::stop::selects(raw, r) <==> n == r.pid)
            &&& n > u32::MAX ==> (crate::stop::selects(raw, r) <==> r.label == raw)
        }),
{
    let raw = seq!['+'] + digits;
    crate::laws::text::a_number_is_made_of_digits(digits);
    assert(raw.drop_first() =~= digits);
    assert(raw[0] == '+');
    assert(crate::text::numeral(raw, false) == crate::text::numeral(digits, false));
    assert(!crate::stop::all_digits(raw));
}

/// A selector selects what its argument selects, whatever it is.
pub proof fn a_selector_stands_for_its_argument(
    selector: crate::stop::Selector,
    raw: Seq<char>,
    r: Record,
)
    requires
        selector.reads(raw),
    ensures
        crate::stop::selects(raw, r) <==> (match selector {
            crate::stop::Selector::Label(label) => r.label == label@,
            crate::stop::Selector::Pid(pid) => r.pid == pid,
            crate::stop::Selector::NoPid(_) => false,
        }),
        selector matches crate::stop::Selector::Label(label) ==> label@ == raw,
        selector matches crate::stop::Selector::Pid(pid) ==> crate::text::numeral(raw, false)
            == Some(pid as int),
        selector is NoPid ==> crate::text::numeral(raw, false)->0 > u32::MAX,
{
    crate::laws::text::a_number_is_made_of_digits(raw);
}

/// What one argument adds comes behind all that those before it planned: the
/// entries it selects, in the order of the list.
pub proof fn the_plan_follows_the_arguments(
    entries: Seq<Entry>,
    targets: Seq<Seq<char>>,
    raw: Seq<char>,
    a: int,
    b: int,
)
    ensures
        ({
            let before = crate::stop::stop_plan(entries, targets);
            let plan = crate::stop::stop_plan(entries, targets.push(raw));
            &&& before.len() <= plan.len()
            &&& plan.take(before.len() as int) == before
            &&& before.len() <= a < b < plan.len() ==> plan[a] is Stop && plan[b] is Stop
                && plan[a]->Stop_0 < plan[b]->Stop_0
        }),
{
    let all = targets.push(raw);
    let n = targets.len() as int;
    assert(all.take(n) =~= targets);
    assert(all.drop_last() =~= targets);
    crate::stop::plan_keeps(entries, all, n);
    let before = crate::stop::stop_plan(entries, targets);
    if crate::stop::selects_any(raw, entries) {
        hits_ascend(before, entries, raw, entries.len() as int, a, b);
    }
}

proof fn hits_ascend(
    plan: Seq<Step>,
    entries: Seq<Entry>,
    raw: Seq<char>,
    n: int,
    a: int,
    b: int,
)
    ensures
        ({
            let whole = crate::stop::with_hits(plan, entries, raw, n);
            &&& plan.len() <= whole.len()
            &&& plan.len() <= a < whole.len() ==> whole[a] is Stop && whole[a]->Stop_0 < n
            &&& plan.len() <= a < b < whole.len() ==> whole[b] is Stop && whole[a]->Stop_0
                < whole[b]->Stop_0
        }),
    decreases n,
{
    if n > 0 {
        hits_ascend(plan, entries, raw, n - 1, a, b);
    }
}

/// Each message of the plan is about an argument that selects nothing.
pub proof fn only_what_matches_nothing_is_missing(
    entries: Seq<Entry>,
    targets: Seq<Seq<char>>,
    k: int,
)
    requires
        0 <= k < crate::stop::stop_plan(entries, targets).len(),
        crate::stop::stop_plan(entries, targets)[k] is Missing,
    ensures
        exists|t: int|
            0 <= t < targets.len() && (forall|i: int|
                0 <= i < entries.len() ==> !crate::stop::selects(
                    targets[t],
                    (#[trigger] entries[i]).record(),
                )) && crate::stop::stop_plan(entries, targets)[k] == Step::Missing(
                crate::stop::missing_message(#[trigger] targets[t]),
            ),
    decreases targets.len(),
{
    let shorter = targets.drop_last();
    let raw = targets.last();
    let n = targets.len() - 1;
    the_plan_follows_the_arguments(entries, shorter, raw, k, k);
    assert(shorter.push(raw) =~= targets);
    let before = crate::stop::stop_plan(entries, shorter);
    let plan = crate::stop::stop_plan(entries, targets);
    if k < before.len() {
        assert(plan[k] == plan.take(before.len() as int)[k]);
        only_what_matches_nothing_is_missing(entries, shorter, k);
        let t = choose|t: int|
            0 <= t < shorter.len() && (forall|i: int|
                0 <= i < entries.len() ==> !crate::stop::selects(
                    shorter[t],
                    (#[trigger] entries[i]).record(),
                )) && crate::stop::stop_plan(entries, shorter)[k] == Step::Missing(
                crate::stop::missing_message(#[trigger] shorter[t]),
            );
        assert(targets[t] == shorter[t]);
    } else if crate::stop::selects_any(raw, entries) {
        hits_ascend(before, entries, raw, entries.len() as int, k, k);
    } else {
        assert(plan[k] == Step::Missing(crate::stop::missing_message(targets[n])));
    }
}

/// What is said of an argument that matched nothing names it: a label as it
/// was typed, in quotes, a pid by its number.
pub proof fn a_missing_argument_is_named(raw: Seq<char>, i: int)
    ensures
        0 <= i < raw.len() && !('0' <= raw[i] <= '9') && (raw[i] == '+' ==> i > 0)
            ==> crate::stop::missing_message(raw) == "deemo: no process with label '"@ + raw
            + "'"@,
        crate::text::numeral(raw, false) is Some && crate::text::numeral(raw, false)->0
            <= u32::MAX ==> crate::stop::missing_message(raw) == "deemo: no process with pid "@
            + crate::text::decimal_spec(crate::text::numeral(raw, false)->0 as nat),
{
    reveal_strlit("deemo: no process with label '");
    reveal_strlit("deemo: no process with pid ");
    reveal_strlit("deemo: no process with ");
    reveal_strlit("label '");
    reveal_strlit("pid ");
    if 0 <= i < raw.len() && !('0' <= raw[i] <= '9') && (raw[i] == '+' ==> i > 0) {
        only_digits_make_a_number(raw, i);
        assert(crate::stop::missing_message(raw) =~= "deemo: no process with label '"@ + raw
            + "'"@);
    }
    if let Some(n) = crate::text::numeral(raw, false) {
        if n <= u32::MAX {
            assert(crate::stop::missing_message(raw) =~= "deemo: no process with pid "@
                + crate::text::decimal_spec(n as nat));
        }
    }
}

/// What is said of a process names its label and its pid, and says `stopped`
/// exactly where a stop attempt brought it down.
pub proof fn a_report_names_its_process(label: Seq<char>, pid: u32, ending: Ending)
    ensures
        (ending == Ending::NotRunning || ending == Ending::Attempted(StopOutcome::Stubborn))
            ==> exists|tail: Seq<char>|
            crate::stop::stop_message(label, pid, ending) == #[trigger] ("deemo: "@ + label
                + " (pid "@ + crate::text::decimal_spec(pid as nat) + tail),
        !(ending == Ending::NotRunning || ending == Ending::Attempted(StopOutcome::Stubborn))
            ==> exists|tail: Seq<char>|
            crate::stop::stop_message(label, pid, ending) == #[trigger] ("deemo: stopped "@ + label
                + " (pid "@ + crate::text::decimal_spec(pid as nat) + tail),
{
    let tail = match ending {
        Ending::NotRunning => ") is not running"@,
        Ending::Attempted(StopOutcome::Terminated) => ", SIGTERM to process group)"@,
        Ending::Attempted(StopOutcome::Killed) => ", SIGKILL after grace period)"@,
        Ending::Attempted(StopOutcome::TreeKilled) => ", taskkill /F /T)"@,
        Ending::Attempted(
            StopOutcome::Stubborn,
        ) => ") survived SIGTERM and SIGKILL; keeping its pid file"@,
    };
    let head = if ending == Ending::NotRunning || ending == Ending::Attempted(
        StopOutcome::Stubborn,
    ) {
        "deemo: "@
    } else {
        "deemo: stopped "@
    };
    assert(crate::stop::stop_message(label, pid, ending) == head + label + " (pid "@
        + crate::text::decimal_spec(pid as nat) + tail);
}

/// Two different endings are never reported alike.
#[verifier::spinoff_prover]
pub proof fn endings_are_told_apart(label: Seq<char>, pid: u32, a: Ending, b: Ending)
    requires
        a != b,
    ensures
        crate::stop::stop_message(label, pid, a) != crate::stop::stop_message(label, pid, b),
{
    reveal_strlit("deemo: ");
    reveal_strlit("deemo: stopped ");
    reveal_strlit(" (pid ");
    reveal_strlit(") is not running");
    reveal_strlit(", SIGTERM to process group)");
    reveal_strlit(", SIGKILL after grace period)");
    reveal_strlit(", taskkill /F /T)");
    reveal_strlit(") survived SIGTERM and SIGKILL; keeping its pid file");
    let x = crate::stop::stop_message(label, pid, a);
    let y = crate::stop::stop_message(label, pid, b);
    if x == y {
        assert(x[x.len() - 3] == y[y.len() - 3]);
        assert(x[x.len() - 4] == y[y.len() - 4]);
    }
}

/// An exit code other than 0 has a reason: an argument that selects nothing, or
/// a process that survived. Nothing else is one.
pub proof fn an_argument_misses_where_it_selects_nothing(
    entries: Seq<Entry>,
    targets: Seq<Seq<char>>,
    endings: Seq<Ending>,
)
    ensures
        crate::stop::any_survived(endings) <==> endings.contains(
            Ending::Attempted(StopOutcome::Stubborn),
        ),
        crate::stop::any_without_match(entries, targets) <==> exists|t: int|
            0 <= t < targets.len() && matches_none(#[trigger] targets[t], entries),
{
    if crate::stop::any_without_match(entries, targets) {
        let t = choose|t: int|
            0 <= t < targets.len() && !crate::stop::selects_any(#[trigger] targets[t], entries);
        assert(matches_none(targets[t], entries));
    }
    if exists|t: int| 0 <= t < targets.len() && matches_none(#[trigger] targets[t], entries) {
        let t = choose|t: int|
            0 <= t < targets.len() && matches_none(#[trigger] targets[t], entries);
        assert(!crate::stop::selects_any(targets[t], entries));
    }
}

/// The argument selects none of the entries.
pub open spec fn matches_none(raw: Seq<char>, entries: Seq<Entry>) -> bool {
    forall|i: int|
        0 <= i < entries.len() ==> !crate::stop::selects(raw, (#[trigger] entries[i]).record())
}

/// `deemo stop` exits with 0 exactly where every argument selects something and
/// nothing survived, and with 1 otherwise.
pub proof fn success_means_all_is_stopped(
    entries: Seq<Entry>,
    targets: Seq<Seq<char>>,
    endings: Seq<Ending>,
)
    ensures
        crate::stop::stop_exit_spec(entries, targets, endings) == 0
            || crate::stop::stop_exit_spec(entries, targets, endings) == 1,
        crate::stop::stop_exit_spec(entries, targets, endings) == 0 <==> (forall|t: int|
            0 <= t < targets.len() ==> !matches_none(#[trigger] targets[t], entries))
            && !endings.contains(Ending::Attempted(StopOutcome::Stubborn)),
{
    an_argument_misses_where_it_selects_nothing(entries, targets, endings);
}

/// The pid file of a process that survived stays, and only that: a retry still
/// has a target.
pub proof fn a_survivor_keeps_its_pid_file(ending: Ending)
    ensures
        !crate::stop::removes(ending) <==> ending == Ending::Attempted(StopOutcome::Stubborn),
{
}

/// Only what is known to be dead is not worth an attempt.
pub proof fn the_known_dead_are_left_alone(state: crate::registry::Liveness)
    ensures
        !crate::stop::worth_stopping_spec(state) <==> state == crate::registry::Liveness::Dead,
{
}

/// A step is what it says or the place it names.
pub proof fn a_step_is_what_it_names(message: String, i: usize)
    ensures
        crate::stop::step_of(crate::stop::StopStep::Missing(message)) == Step::Missing(message@),
        crate::stop::step_of(crate::stop::StopStep::Stop(i)) == Step::Stop(i as int),
{
}

/// The steps are taken one by one, each for what it is.
pub proof fn steps_are_taken_one_by_one(steps: Seq<crate::stop::StopStep>)
    ensures
        crate::stop::steps_of(steps).len() == steps.len(),
        forall|k: int|
            0 <= k < steps.len() ==> #[trigger] crate::stop::steps_of(steps)[k]
                == crate::stop::step_of(steps[k]),
{
}

} // verus!
