use deemo::kill::{
    aim, begin, dry_run_listing, free_report, kill, kill_exit_code, kill_report, kill_signal,
    method, signal_or_refusal, signal_report, signal_report_as, signal_unsupported, Aim, Dealt,
    Lookup, Method,
};
use deemo::registry::{list, register, Entry, Liveness, RunFile};
use deemo::signal::Platform;
use deemo::terminate::{StopOutcome, Target};

fn managed(running: &[(&str, u32, Liveness)]) -> Vec<(Entry, Liveness)> {
    let files: Vec<RunFile> = running
        .iter()
        .map(|(label, pid, _)| {
            let record = register(label, *pid, "s", "c", "/l");
            RunFile {
                name: record.name,
                text: Some(record.text),
            }
        })
        .collect();
    list(&files)
        .into_iter()
        .map(|e| {
            let state = running[e.file].2;
            (e, state)
        })
        .collect()
}

fn found(port: u16, pids: &[u32]) -> Lookup {
    (port, Ok(pids.to_vec()))
}

#[test]
fn job_kill_kill_dry_run_lists_the_pid_binding_the_port() {
    let plan = kill(&vec![found(8000, &[4711]), found(3000, &[4711])]);
    assert_eq!(method(None, true), Method::List);
    assert_eq!(dry_run_listing(&plan.targets), "4711\n", "once, not per port");
    assert!(plan.free.is_empty() && plan.errors.is_empty());

    assert_eq!(kill_exit_code(&vec![found(8000, &[4711])], &vec![]), 0);

    let lookups = vec![found(8000, &[])];
    let plan = kill(&lookups);
    assert_eq!(dry_run_listing(&plan.targets), "");
    assert_eq!(free_report(plan.free[0]), "deemo: nothing is using port 8000");
    assert_eq!(kill_exit_code(&lookups, &vec![]), 1);
}

#[test]
fn job_kill_kill_sends_exactly_the_requested_signal_without_escalating() {
    let sig = kill_signal(Platform::Unix, Some("CONT")).unwrap();
    assert_eq!(sig, Some(libc::SIGCONT));
    assert_eq!(
        method(sig, false),
        Method::Once(libc::SIGCONT),
        "one signal, nothing after it"
    );
    let report = signal_report(Platform::Unix, 8000, "pid 4711", libc::SIGCONT, &Ok(()));
    assert_eq!(report, "deemo: port 8000: sent SIGCONT to pid 4711");
}

#[test]
fn job_kill_kill_rejects_unknown_signals_as_a_usage_error() {
    let refusal = kill_signal(Platform::Unix, Some("NOPE")).unwrap_err();
    assert_eq!(refusal.code, 2);
    assert_eq!(
        refusal.text,
        "deemo: unknown signal \"NOPE\" (try TERM, HUP, KILL, or a number)"
    );
}

#[test]
fn cli_kill_rejects_unknown_signals_as_a_usage_error() {
    let refusal = kill_signal(Platform::Unix, Some("NOPE")).unwrap_err();
    assert_eq!(refusal.code, 2);
    assert!(refusal.text.contains("unknown signal"));
}

#[test]
fn windows_explicit_signal_is_a_usage_error() {
    let refusal = kill_signal(Platform::Windows, Some("TERM")).unwrap_err();
    assert_eq!(refusal.code, 2);
    assert!(refusal.text.contains("needs a unix platform"));
}

#[test]
fn without_an_explicit_signal_stop_s_policy_holds() {
    assert_eq!(kill_signal(Platform::Unix, None).unwrap(), None);
    assert_eq!(kill_signal(Platform::Windows, None).unwrap(), None);
    assert_eq!(method(None, false), Method::Terminate);
    assert_eq!(method(Some(1), true), Method::List, "a dry run signals nothing");
    assert_eq!(signal_or_refusal(Ok(7)).unwrap(), Some(7));
    let refusal = signal_or_refusal(Err("e".to_string())).unwrap_err();
    assert_eq!((refusal.text.as_str(), refusal.code), ("deemo: e", 2));
}

#[test]
fn kill_mixed_ports_stills_kill_and_reports_the_free_one() {
    let lookups = vec![found(8001, &[]), found(8000, &[4711])];
    let plan = kill(&lookups);
    let mut said: Vec<String> = plan
        .targets
        .iter()
        .map(|(port, pid)| {
            let aim = aim(&vec![], *pid);
            signal_report(Platform::Unix, *port, &aim.subject, libc::SIGCONT, &Ok(()))
        })
        .collect();
    said.extend(plan.free.iter().map(|port| free_report(*port)));
    assert_eq!(
        said,
        vec![
            "deemo: port 8000: sent SIGCONT to pid 4711",
            "deemo: nothing is using port 8001"
        ]
    );
    assert_eq!(kill_exit_code(&lookups, &vec![Dealt::Sent(true)]), 1);
}

#[test]
fn job_kill_kill_frees_the_port_and_sweeps_the_managed_pid_file() {
    let rows = managed(&[("killee", 4711, Liveness::Running)]);
    let aim = aim(&rows, 4711);
    assert_eq!(aim.target, Target::Group(4711), "its own group");
    let report = kill_report(8000, &aim, StopOutcome::Terminated);
    assert_eq!(
        report,
        "deemo: port 8000: stopped killee (pid 4711) (SIGTERM to process group)"
    );
    let dealt = vec![Dealt::Attempted(StopOutcome::Terminated)];
    assert_eq!(kill_exit_code(&vec![found(8000, &[4711])], &dealt), 0);
    let dead = managed(&[("killee", 4711, Liveness::Dead)]);
    assert_eq!(deemo::registry::sweep_dead(&dead), vec![0]);
}

#[test]
fn each_pid_stands_under_the_first_port_it_was_found_on() {
    let plan = kill(&vec![
        found(1, &[10, 20]),
        (2, Err("denied".to_string())),
        found(3, &[20, 30, 30]),
        found(4, &[]),
        found(5, &[10]),
        found(4, &[]),
    ]);
    assert_eq!(plan.targets, vec![(1, 10), (1, 20), (3, 30)]);
    assert_eq!(plan.free, vec![4, 4]);
    assert_eq!(plan.errors.len(), 1);
    assert_eq!(
        plan.errors[0],
        "deemo: cannot list the processes on port 2: denied"
    );
    assert_eq!(dry_run_listing(&plan.targets), "10\n20\n30\n");
}

#[test]
fn foreign_pids_are_signalled_alone() {
    let rows = managed(&[
        ("old", 5, Liveness::Dead),
        ("web", 6, Liveness::Running),
        ("win", 7, Liveness::Unknown),
    ]);
    let foreign = aim(&rows, 99);
    assert_eq!(foreign.target, Target::Pid(99));
    assert_eq!(foreign.subject, "pid 99");
    assert_eq!(aim(&rows, 5).target, Target::Pid(5), "a corpse's pid is foreign");
    assert_eq!(aim(&rows, 6).subject, "web (pid 6)");
    assert_eq!(aim(&rows, 7).target, Target::Group(7));
    let twice = managed(&[
        ("a", 6, Liveness::Running),
        ("b", 6, Liveness::Running),
        ("c", 6, Liveness::Dead),
    ]);
    assert_eq!(aim(&twice, 6).subject, "b (pid 6)", "the last living entry");
}

#[test]
fn every_outcome_has_its_report() {
    let alone = Aim {
        target: Target::Pid(9),
        subject: "pid 9".to_string(),
    };
    let said = |outcome| kill_report(80, &alone, outcome);
    assert_eq!(
        said(StopOutcome::Terminated),
        "deemo: port 80: stopped pid 9 (SIGTERM)"
    );
    assert_eq!(
        said(StopOutcome::Killed),
        "deemo: port 80: stopped pid 9 (SIGKILL after grace period)"
    );
    let stubborn = said(StopOutcome::Stubborn);
    assert_eq!(
        stubborn,
        "deemo: port 80: pid 9 survived SIGTERM and SIGKILL"
    );
    let refused = signal_report(
        Platform::Unix,
        80,
        "pid 9",
        1,
        &Err("Operation not permitted".to_string()),
    );
    assert_eq!(
        refused,
        "deemo: port 80: cannot signal pid 9: Operation not permitted"
    );
    assert_eq!(
        signal_report_as(80, "x", "SIGX", &Ok(())),
        "deemo: port 80: sent SIGX to x"
    );
    assert_eq!(
        signal_unsupported(15),
        "signal 15 cannot be sent on Windows; drop -s to use taskkill"
    );
}

#[test]
fn a_run_begins_with_the_signal() {
    assert_eq!(begin(Platform::Unix, None, false).unwrap(), Method::Terminate);
    assert_eq!(begin(Platform::Unix, Some("hup"), false).unwrap(), Method::Once(1));
    assert_eq!(begin(Platform::Unix, Some("hup"), true).unwrap(), Method::List);
    assert_eq!(begin(Platform::Windows, None, false).unwrap(), Method::Terminate);
    let refusal = begin(Platform::Unix, Some("0"), true).unwrap_err();
    assert_eq!(refusal.code, 2);
    assert_eq!(
        refusal.text,
        "deemo: signal number 0 is out of range (1-64)"
    );
    assert_eq!(begin(Platform::Windows, Some("9"), false).unwrap_err().code, 2);
}

#[test]
fn the_exit_code_tells_whether_all_was_done() {
    let held = vec![found(80, &[9]), found(81, &[10])];
    let code = |dealt: Vec<Dealt>| kill_exit_code(&held, &dealt);
    assert_eq!(code(vec![Dealt::Sent(true), Dealt::Sent(true)]), 0);
    assert_eq!(code(vec![Dealt::Sent(true), Dealt::Sent(false)]), 1);
    assert_eq!(code(vec![Dealt::Attempted(StopOutcome::Killed)]), 0);
    assert_eq!(code(vec![Dealt::Attempted(StopOutcome::TreeKilled)]), 0);
    assert_eq!(code(vec![Dealt::Attempted(StopOutcome::Stubborn)]), 1);
    let failed = vec![found(80, &[9]), (81, Err("denied".to_string()))];
    assert_eq!(kill_exit_code(&failed, &vec![Dealt::Sent(true)]), 1);
    assert_eq!(kill_exit_code(&vec![], &vec![]), 0);
}
