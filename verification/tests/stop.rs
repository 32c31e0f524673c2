use deemo::registry::{list, register, Entry, Liveness, RunFile};
use deemo::stop::{
    reads_as_number, stop, stop_exit_code, stop_report, worth_stopping, Ending, Selector, StopStep,
};
use deemo::terminate::StopOutcome;

fn entries(running: &[(&str, u32)]) -> Vec<Entry> {
    let files: Vec<RunFile> = running
        .iter()
        .map(|(label, pid)| {
            let record = register(label, *pid, "2026-09-16T11:15:27", "sleep 30", "/l/x.log");
            RunFile {
                name: record.name,
                text: Some(record.text),
            }
        })
        .collect();
    list(&files)
}

fn args(targets: &[&str]) -> Vec<String> {
    targets.iter().map(|t| t.to_string()).collect()
}

struct Run {
    said: Vec<String>,
    removed: Vec<u32>,
    code: i32,
}

/// Carries the steps out, every stop attempt ending the same way.
fn carried_out(list: &Vec<Entry>, targets: &[&str], ending: Ending) -> Run {
    let targets = args(targets);
    let mut run = Run {
        said: vec![],
        removed: vec![],
        code: -1,
    };
    let mut endings = vec![];
    for step in stop(list, &targets) {
        match step {
            StopStep::Missing(message) => run.said.push(message),
            StopStep::Stop(i) => {
                let report = stop_report(&list[i], ending);
                run.said.push(report.message);
                if report.remove {
                    run.removed.push(list[i].pid);
                }
                endings.push(ending);
            }
        }
    }
    run.code = stop_exit_code(list, &targets, &endings);
    run
}

const TERMINATED: Ending = Ending::Attempted(StopOutcome::Terminated);

#[test]
fn stop_takes_a_label_or_a_pid() {
    let list = entries(&[("dup", 501), ("dup", 502)]);

    // A pid names one process: it goes, the other keeps running.
    let run = carried_out(&list, &["501"], TERMINATED);
    assert_eq!(
        run.said,
        vec!["deemo: stopped dup (pid 501, SIGTERM to process group)"]
    );
    assert_eq!(run.removed, vec![501]);
    assert_eq!(run.code, 0);

    // A label is the unit: it takes down every registration under it.
    let run = carried_out(&list, &["dup"], TERMINATED);
    assert_eq!(
        run.said,
        vec![
            "deemo: stopped dup (pid 501, SIGTERM to process group)",
            "deemo: stopped dup (pid 502, SIGTERM to process group)"
        ]
    );
    assert_eq!(run.code, 0);
}

#[test]
fn stop_reports_an_unknown_pid() {
    let run = carried_out(&vec![], &["4294967294"], TERMINATED);
    assert_eq!(
        run.said,
        vec!["deemo: no process with pid 4294967294"]
    );
    assert_eq!(run.code, 1);
}

#[test]
fn stop_stops_matches_and_reports_the_missing_in_one_run() {
    let list = entries(&[("aa", 1), ("bb", 2)]);
    let run = carried_out(&list, &["aa", "nosuch-label"], TERMINATED);
    assert_eq!(
        run.said,
        vec![
            "deemo: stopped aa (pid 1, SIGTERM to process group)",
            "deemo: no process with label 'nosuch-label'"
        ]
    );
    assert_eq!(run.code, 1);
}

#[test]
fn stop_stops_a_process_selected_twice_only_once() {
    let list = entries(&[("dup", 66089)]);
    let run = carried_out(&list, &["dup", "66089"], TERMINATED);
    assert_eq!(run.said.len(), 1, "stopped once");
    assert_eq!(run.removed, vec![66089]);
    assert_eq!(run.code, 0);
}

#[test]
fn stop_reads_a_numeric_label_as_a_pid() {
    let list = entries(&[("123", 4711)]);
    // As a *label* it is unreachable: the number is taken as a pid …
    let run = carried_out(&list, &["123"], TERMINATED);
    assert_eq!(run.said, vec!["deemo: no process with pid 123"]);
    assert_eq!(run.code, 1);
    // … and its pid (from `ps`) is the handle that works.
    let run = carried_out(&list, &["4711"], TERMINATED);
    assert_eq!(
        run.said,
        vec!["deemo: stopped 123 (pid 4711, SIGTERM to process group)"]
    );
    assert_eq!(run.removed, vec![4711], "pid file gone");
}

#[test]
fn job_stop_stop_sweeps_dead_registrations_instead_of_keeping_them() {
    let list = entries(&[("gone", 9)]);
    let dead: Vec<(Entry, Liveness)> = list.into_iter().map(|e| (e, Liveness::Dead)).collect();
    assert_eq!(deemo::registry::sweep_dead(&dead), vec![0]);
    // swept, so the label selects nothing
    let run = carried_out(&vec![], &["gone"], TERMINATED);
    assert_eq!(run.said, vec!["deemo: no process with label 'gone'"]);
    assert_eq!(run.code, 1);
}

#[test]
fn ps_and_stop_manage_detached_processes() {
    let list = entries(&[("lifecycle", 77)]);
    let rows: Vec<(Entry, Liveness)> = list.into_iter().map(|e| (e, Liveness::Running)).collect();
    let out = deemo::registry::ps(&rows);
    assert!(out.text.contains("lifecycle") && out.text.contains("running"));
    assert_eq!(out.code, 0);
    let list = entries(&[("lifecycle", 77)]);
    let run = carried_out(&list, &["lifecycle"], TERMINATED);
    assert!(run.said[0].contains("stopped"));
    assert_eq!(run.removed, vec![77]);
    assert_eq!(run.code, 0);
}

#[test]
fn every_ending_has_its_report() {
    let list = entries(&[("web", 5)]);
    let e = &list[0];
    let killed = stop_report(e, Ending::Attempted(StopOutcome::Killed));
    assert_eq!(
        killed.message,
        "deemo: stopped web (pid 5, SIGKILL after grace period)"
    );
    assert!(killed.remove);
    let gone = stop_report(e, Ending::NotRunning);
    assert_eq!(gone.message, "deemo: web (pid 5) is not running");
    assert!(gone.remove);
    let stubborn = stop_report(e, Ending::Attempted(StopOutcome::Stubborn));
    assert_eq!(
        stubborn.message,
        "deemo: web (pid 5) survived SIGTERM and SIGKILL; keeping its pid file"
    );
    assert!(!stubborn.remove);
    let code = |endings: Vec<Ending>| stop_exit_code(&list, &args(&["web"]), &endings);
    assert_eq!(code(vec![Ending::Attempted(StopOutcome::Killed), Ending::NotRunning]), 0);
    assert_eq!(code(vec![Ending::NotRunning, Ending::Attempted(StopOutcome::Stubborn)]), 1);
    assert_eq!(code(vec![]), 0);
    assert_eq!(stop_exit_code(&list, &args(&["web", "api"]), &vec![]), 1);
}

#[test]
fn what_is_known_to_be_dead_is_not_worth_stopping() {
    assert!(worth_stopping(Liveness::Running));
    assert!(worth_stopping(Liveness::Unknown));
    assert!(!worth_stopping(Liveness::Dead));
}

#[test]
fn an_argument_is_a_pid_or_a_label() {
    assert!(matches!(Selector::parse("66089"), Selector::Pid(66089)));
    assert!(matches!(Selector::parse("+7"), Selector::Pid(7)));
    assert!(matches!(Selector::parse("4294967295"), Selector::Pid(u32::MAX)));
    for label in ["pnpm", "", "-7", "7a", " 7", "+4294967296"] {
        assert!(!reads_as_number(label));
        match Selector::parse(label) {
            Selector::Label(l) => assert_eq!(l, label),
            other => panic!("{other:?}"),
        }
    }
    let list = entries(&[("web", 5)]);
    assert!(Selector::parse("web").matches(&list[0]));
    assert!(Selector::parse("5").matches(&list[0]));
    assert!(!Selector::parse("we").matches(&list[0]));
    assert!(!Selector::parse("6").matches(&list[0]));
    assert_eq!(Selector::parse("x y").describe(), "label 'x y'");
    assert_eq!(Selector::parse("007").describe(), "pid 7");
}

#[test]
fn two_registrations_of_one_pid_are_one_process() {
    let list = entries(&[("old", 5), ("new", 5)]);
    let steps = stop(&list, &args(&["5", "old"]));
    assert_eq!(steps.len(), 1);
    assert!(matches!(steps[0], StopStep::Stop(0)));
}

#[test]
fn digits_beyond_every_pid_are_still_no_label() {
    for digits in ["4294967296", "99999999999999999999999", "0004294967296"] {
        assert!(matches!(Selector::parse(digits), Selector::NoPid(_)));
        assert!(reads_as_number(digits));
        let list = entries(&[(digits, 4711)]);
        assert!(!Selector::parse(digits).matches(&list[0]));
        let run = carried_out(&list, &[digits], TERMINATED);
        assert_eq!(run.said, vec![format!("deemo: no process with pid {digits}")]);
        assert_eq!(run.code, 1);
        assert!(run.removed.is_empty());
    }
}
