use deemo::registry::{
    is_pid_file, list, liveness, parse_entry, ps, register, sweep_dead, zombie, Entry, Liveness,
    RunFile,
};
use deemo::signal::Platform;

fn file(name: &str, text: &str) -> RunFile {
    RunFile {
        name: name.to_string(),
        text: Some(text.to_string()),
    }
}

fn registered(label: &str, pid: u32) -> RunFile {
    let record = register(label, pid, "2026-09-16T11:15:27", "sleep 30", "/l/x.log");
    RunFile {
        name: record.name,
        text: Some(record.text),
    }
}

fn probed(entries: Vec<Entry>, state: Liveness) -> Vec<(Entry, Liveness)> {
    entries.into_iter().map(|e| (e, state)).collect()
}

#[test]
fn detach_writes_a_readable_registration_record() {
    let record = register("rec", 4711, "2026-09-16T11:15:27", "echo reg-ok", "/h/logs/rec.log");
    assert_eq!(record.name, "rec.4711.pid");
    assert_eq!(
        record.text,
        "pid=4711\nlabel=rec\nstarted=2026-09-16T11:15:27\ncmd=echo reg-ok\nlog=/h/logs/rec.log\n"
    );
    let entry = parse_entry(&record.text, 3).unwrap();
    assert_eq!(entry.pid, 4711);
    assert_eq!(entry.label, "rec");
    assert_eq!(entry.started, "2026-09-16T11:15:27");
    assert_eq!(entry.cmd, "echo reg-ok");
    assert_eq!(entry.log, "/h/logs/rec.log");
    assert_eq!(entry.file, 3);
}

#[test]
fn a_record_needs_pid_label_and_log() {
    assert!(parse_entry("", 0).is_none());
    assert!(parse_entry("pid=1\nlabel=a\n", 0).is_none());
    assert!(parse_entry("pid=1\nlog=/l\n", 0).is_none());
    assert!(parse_entry("label=a\nlog=/l\n", 0).is_none());
    assert!(parse_entry("pid=x\nlabel=a\nlog=/l\n", 0).is_none());
    assert!(parse_entry("pid=4294967296\nlabel=a\nlog=/l\n", 0).is_none());
    let bare = parse_entry("label=a\nnoise\nlog=/l\npid=1", 0).unwrap();
    assert_eq!((bare.pid, bare.started.as_str(), bare.cmd.as_str()), (1, "", ""));
}

#[test]
fn the_last_line_of_a_key_counts_and_values_may_hold_equals_signs() {
    let e = parse_entry(
        "pid=1\npid=2\nlabel=a=b\r\nlog=/l\nlabel =c\ncmd=A=1 env\n",
        0,
    )
    .unwrap();
    assert_eq!(e.pid, 2);
    assert_eq!(e.label, "a=b");
    assert_eq!(e.cmd, "A=1 env");
    assert!(parse_entry("pid=1\npid=bad\nlabel=a\nlog=/l\n", 0).is_none());
}

#[test]
fn a_value_on_two_lines_does_not_survive() {
    let record = register("a\nb", 1, "s", "c", "/l");
    assert_eq!(parse_entry(&record.text, 0).unwrap().label, "a");
}

#[test]
fn pid_files_have_a_name_before_their_extension() {
    assert!(is_pid_file("web.1.pid"));
    assert!(is_pid_file("a.pid"));
    assert!(!is_pid_file(".pid"));
    assert!(!is_pid_file("pid"));
    assert!(!is_pid_file("web.1.pid.tmp"));
    for name in ["web.1.pid", "a.pid", ".pid", "pid", "x.pid.tmp", "..pid", "a..pid", "xpid"] {
        let std_says = std::path::Path::new(name)
            .extension()
            .is_some_and(|e| e == "pid");
        assert_eq!(is_pid_file(name), std_says, "{name:?}");
    }
}

#[test]
fn the_list_is_ordered_by_label_and_pid() {
    let files = vec![
        registered("web", 20),
        file("notes.txt", "pid=9\nlabel=zzz\nlog=/l\n"),
        registered("api", 31),
        RunFile {
            name: "gone.1.pid".to_string(),
            text: None,
        },
        registered("web", 3),
        file("broken.2.pid", "nothing here"),
        registered("api", 30),
    ];
    let entries = list(&files);
    let found: Vec<(&str, u32, usize)> = entries
        .iter()
        .map(|e| (e.label.as_str(), e.pid, e.file))
        .collect();
    assert_eq!(
        found,
        vec![("api", 30, 6), ("api", 31, 2), ("web", 3, 4), ("web", 20, 0)]
    );
}

#[test]
fn ps_lists_a_running_detach_with_label_pid_and_status() {
    let entries = list(&vec![registered("listed", 71630)]);
    let out = ps(&probed(entries, Liveness::Running));
    assert_eq!(out.code, 0);
    assert_eq!(
        out.text,
        "LABEL                PID  STATUS    STARTED             COMMAND / LOG\n\
         listed             71630  running   2026-09-16T11:15:27 sleep 30 -> /l/x.log\n"
    );
}

#[test]
fn long_columns_are_not_cut() {
    let record = register("a-label-longer-than-16", 4294967295, "s", "c", "l");
    let entries = list(&vec![RunFile {
        name: record.name,
        text: Some(record.text),
    }]);
    let out = ps(&probed(entries, Liveness::Dead));
    let expected = format!(
        "{:<16} {:>7}  {:<9} {:<19} {}\n",
        "a-label-longer-than-16", 4294967295u32, "dead", "s", "c -> l"
    );
    assert!(out.text.ends_with(&expected), "{}", out.text);
}

#[test]
fn ps_with_nothing_running_exits_1() {
    let out = ps(&vec![]);
    assert_eq!(out.code, 1);
    assert_eq!(out.text, "no processes started by deemo\n");
}

#[test]
fn ps_sweeps_registrations_whose_process_is_gone() {
    let files = vec![file(
        "stale.4294967294.pid",
        "pid=4294967294\nlabel=stale\nstarted=2020-01-01T00:00:00\ncmd=sleep 99\nlog=/tmp/x.log\n",
    )];
    let entries = list(&files);
    assert_eq!(entries[0].pid, 4294967294);
    let state = liveness(Platform::Unix, false, false);
    assert_eq!(state, Liveness::Dead);
    assert_eq!(sweep_dead(&probed(entries, state)), vec![0]);
}

#[test]
fn only_what_is_known_to_be_dead_is_swept() {
    let files = vec![registered("a", 1), registered("b", 2), registered("c", 3)];
    let mut entries = probed(list(&files), Liveness::Running);
    entries[1].1 = Liveness::Dead;
    entries[2].1 = Liveness::Unknown;
    assert_eq!(sweep_dead(&entries), vec![1]);
}

#[test]
fn liveness_is_three_state() {
    assert_eq!(liveness(Platform::Unix, true, false), Liveness::Running);
    assert_eq!(liveness(Platform::Unix, true, true), Liveness::Dead);
    assert_eq!(liveness(Platform::Unix, false, false), Liveness::Dead);
    assert_eq!(liveness(Platform::Windows, false, false), Liveness::Unknown);
}

#[test]
fn a_zombie_is_known_by_its_state_letter() {
    assert!(zombie("12 (sleep) Z 1 12 12 0 -1"));
    assert!(!zombie("12 (sleep) S 1 12 12 0 -1"));
    assert!(zombie("12 (a) b) Z) Z 1"));
    assert!(!zombie("12 (Z) R 1"));
    assert!(!zombie("12 (x) "));
    assert!(!zombie(""));
}

#[test]
fn windows_detach_ps_stop_round_trip() {
    let entries = list(&vec![registered("winrt", 100)]);
    let state = liveness(Platform::Windows, false, false);
    let rows = probed(entries, state);
    let out = ps(&rows);
    assert_eq!(out.code, 0);
    assert!(out.text.contains("winrt"));
    assert!(out.text.contains("unknown"));
    assert!(sweep_dead(&rows).is_empty(), "what cannot be probed stays");

    assert!(deemo::stop::worth_stopping(state));
    let outcome = deemo::terminate::Progress::begin(Platform::Windows)
        .after(deemo::terminate::Event::TreeKilled);
    assert_eq!(
        outcome,
        deemo::terminate::Progress::Ended(deemo::terminate::StopOutcome::TreeKilled)
    );
    let report = deemo::stop::stop_report(
        &rows[0].0,
        deemo::stop::Ending::Attempted(deemo::terminate::StopOutcome::TreeKilled),
    );
    assert_eq!(
        report.message,
        "deemo: stopped winrt (pid 100, taskkill /F /T)"
    );
    assert!(report.remove);
}

#[test]
fn a_pid_file_s_name_tells_label_and_pid() {
    let name = |label, pid| register(label, pid, "s", "c", "l").name;
    assert_eq!(name("a.1", 2), "a.1.2.pid");
    assert_ne!(name("a.1", 2), name("a", 12));
    assert_ne!(name("a", 1), name("a", 11));
    assert_ne!(name("a", 1), name("b", 1));
}
