use deemo::cli::{Cli, Manage, Timestamp};
use deemo::run::{
    detach, detach_as, detached_pid_file, forwards, join, log_opened, log_unavailable, on_ctrl_c,
    pipe_background, pipe_background_refusal, pipe_notice, piped_pid_file, prepare_log, pruned,
    quoted_words, run, session_warning, spawn_error, status_code, stop_hint, supervising, usage, Forked,
    Interrupt, LogMode, LogPlan, Mode, Registration,
};
use deemo::signal::Platform;

fn cli(label: Option<&str>, command: &[&str]) -> Cli {
    Cli {
        label: label.map(str::to_string),
        yolo: false,
        dir: None,
        timestamp: Timestamp::Run,
        keep: 0,
        quiet: false,
        background: false,
        foreground: false,
        command: command.iter().map(|w| w.to_string()).collect(),
        manage: None,
    }
}

#[test]
fn a_command_line_asks_for_one_mode() {
    assert_eq!(run(&cli(None, &["sh"]), true), Mode::Detach);
    assert_eq!(run(&cli(None, &["sh"]), false), Mode::Detach);
    let mut foreground = cli(None, &["sh"]);
    foreground.foreground = true;
    assert_eq!(run(&foreground, true), Mode::Foreground);
    assert_eq!(run(&cli(None, &[]), false), Mode::Pipe);
    assert_eq!(run(&cli(None, &[]), true), Mode::Usage);
    let mut background = cli(None, &[]);
    background.background = true;
    assert_eq!(run(&background, false), Mode::PipeBackground);
    assert_eq!(run(&background, true), Mode::Usage);
    let mut manage = cli(None, &[]);
    manage.manage = Some(Manage::Ps);
    assert_eq!(run(&manage, true), Mode::Manage);
}

#[test]
fn bare_deemo_in_a_terminal_is_a_usage_error() {
    let out = usage();
    assert_eq!(out.code, 2);
    assert_eq!(
        out.text,
        "deemo: no command given and stdin is a terminal; nothing to do.\n  \
         start a daemon:     deemo -- <CMD> [ARGS...]\n  \
         capture a pipeline: <cmd> | deemo\n  \
         manage processes:   deemo ps | deemo stop <LABEL> | deemo kill <PORT> | deemo logs <LABEL>"
    );
    assert!(pipe_notice().contains("pipe mode: waiting for stdin to close"));
}

#[test]
fn the_readme_example_reads_as_shown() {
    let c = cli(None, &["python", "-m", "http.server", "8000"]);
    let log = "/Users/you/.deemo/logs/python-20260916-111527.491.log";
    let (lines, code) = detach(&c, 71630, Some(log), &Registration::Done);
    assert_eq!(code, 0, "detach spawned");
    assert_eq!(
        lines,
        vec![
            "deemo: detached [\"python\", \"-m\", \"http.server\", \"8000\"] (pid 71630)",
            "deemo: log: /Users/you/.deemo/logs/python-20260916-111527.491.log",
            "deemo: stop with: deemo stop python",
        ]
    );
}

#[test]
fn detach_yolo_is_unmanageable_and_prints_no_stop_hint() {
    let mut c = cli(Some("yolo-run"), &["sh", "-c", "sleep 10"]);
    c.yolo = true;
    match prepare_log(&c) {
        LogPlan::Without(message) => assert_eq!(message, "deemo: --yolo, not writing any logs"),
        other => panic!("{other:?}"),
    }
    assert!(detached_pid_file(&c, 1, "s", None).is_none(), "nothing registered");
    let (lines, code) = detach(&c, 1, None, &Registration::Absent);
    assert_eq!(code, 0);
    assert_eq!(
        lines,
        vec!["deemo: detached [\"sh\", \"-c\", \"sleep 10\"] (pid 1)"]
    );
}

#[test]
fn detach_log_failure_still_runs_but_registers_nothing() {
    let c = cli(Some("a/b"), &["echo", "ran-ok"]);
    assert_eq!(
        log_unavailable(LogMode::Spawn, "failed to open log file x"),
        "deemo: warning: cannot open log file, running without logs: failed to open log file x"
    );
    assert!(detached_pid_file(&c, 1, "s", None).is_none());
    assert!(!detach(&c, 1, None, &Registration::Absent)
        .0
        .iter()
        .any(|l| l.contains("stop with")));
}

#[test]
fn a_failed_registration_is_told_and_not_hinted_at() {
    let c = cli(Some("x"), &["true"]);
    assert_eq!(
        detach(&c, 5, Some("/l"), &Registration::Failed("cannot write /r".to_string())).0,
        vec![
            "deemo: warning: could not register pid file: cannot write /r",
            "deemo: detached [\"true\"] (pid 5)",
            "deemo: log: /l",
        ]
    );
}

#[test]
fn pipe_log_failure_degrades_to_passthrough() {
    assert_eq!(
        log_unavailable(LogMode::Pipe, "e"),
        "deemo: warning: cannot open log file, passthrough only: e"
    );
}

#[test]
fn detach_writes_a_single_run_log() {
    match prepare_log(&cli(Some("once"), &["echo", "hi"])) {
        LogPlan::Open(sink) => assert!(sink.name.starts_with("once-") && sink.name.ends_with(".log")),
        other => panic!("{other:?}"),
    }
}

#[test]
fn the_log_is_announced_where_it_is_opened() {
    assert_eq!(
        log_opened(LogMode::Pipe, "/l/a.log").as_deref(),
        Some("deemo: logging to /l/a.log")
    );
    assert_eq!(log_opened(LogMode::Spawn, "/l/a.log"), None);
    assert_eq!(pruned(&Ok(0)), None);
    assert_eq!(
        pruned(&Ok(3)).as_deref(),
        Some("deemo: pruned 3 old log file(s)")
    );
    assert_eq!(
        pruned(&Err("e".to_string())).as_deref(),
        Some("deemo: warning: could not prune old logs: e")
    );
}

#[test]
fn job_detach_detach_command_not_found_is_127() {
    let out = spawn_error("definitely-not-a-real-cmd-xyz", true, "No such file");
    assert_eq!(out.code, 127);
    assert_eq!(
        out.text,
        "deemo: command not found: definitely-not-a-real-cmd-xyz"
    );
}

#[test]
fn cli_detach_command_not_found_is_127() {
    assert_eq!(spawn_error("definitely-not-a-real-cmd-xyz", true, "").code, 127);
}

#[test]
fn foreground_command_not_found_is_127() {
    assert_eq!(spawn_error("definitely-not-a-real-cmd-xyz", true, "").code, 127);
    let out = spawn_error("x", false, "Permission denied");
    assert_eq!(out.code, 1);
    assert_eq!(out.text, "deemo: failed to spawn x: Permission denied");
}

#[test]
fn foreground_returns_signal_deaths_as_128_plus_n() {
    assert_eq!(status_code(Platform::Unix, None, Some(libc::SIGINT)), 130);
    assert_eq!(status_code(Platform::Unix, None, Some(libc::SIGTERM)), 143);
}

#[test]
fn supervisor_propagates_signal_exit_codes() {
    // child dies by SIGINT -> 128+2, by SIGTERM -> 128+15
    assert_eq!(status_code(Platform::Unix, None, Some(2)), 130);
    assert_eq!(status_code(Platform::Unix, None, Some(15)), 143);
    assert_eq!(status_code(Platform::Unix, Some(7), None), 7);
    assert_eq!(status_code(Platform::Unix, None, None), 129);
    assert_eq!(status_code(Platform::Windows, None, None), 1);
    assert_eq!(status_code(Platform::Windows, Some(-1), None), -1);
}

#[test]
fn foreground_second_sigint_forces_exit_130() {
    match on_ctrl_c(Platform::Unix, true, Some(5)) {
        Interrupt::Quit(code) => assert_eq!(code, 130),
        other => panic!("{other:?}"),
    }
}

#[test]
fn foreground_first_sigint_is_forwarded_and_final_output_survives() {
    match on_ctrl_c(Platform::Unix, false, Some(5)) {
        Interrupt::Drain { message, forward } => {
            assert_eq!(
                message,
                "\ndeemo: interrupted; press Ctrl+C again to force quit"
            );
            assert_eq!(forward, Some(5));
        }
        other => panic!("{other:?}"),
    }
    assert!(matches!(
        on_ctrl_c(Platform::Unix, false, None),
        Interrupt::Drain { forward: None, .. }
    ));
    assert!(matches!(
        on_ctrl_c(Platform::Windows, false, Some(5)),
        Interrupt::Drain { forward: None, .. }
    ));
}

#[test]
fn pipe_background_returns_and_captures_stream() {
    let c = cli(Some("pb"), &[]);
    let (lines, code) = pipe_background(&c, &Forked::Parent(9), Some("/l/pb.log"));
    assert_eq!(code, 0);
    assert_eq!(
        lines,
        vec![
            "deemo: backgrounded (pid 9); will exit when every pipe writer closes",
            "deemo: log: /l/pb.log",
            "deemo: stop with: deemo stop pb",
        ]
    );
    let file = piped_pid_file(&c, 9, "2026-09-16T11:15:27", Some("/l/pb.log")).unwrap();
    assert_eq!(file.name, "pb.9.pid");
    assert_eq!(
        file.text,
        "pid=9\nlabel=pb\nstarted=2026-09-16T11:15:27\ncmd=<piped>\nlog=/l/pb.log\n"
    );
    // without a log: no registration, no hint
    let (lines, code) = pipe_background(&c, &Forked::Parent(9), None);
    assert_eq!((lines.len(), code), (1, 0));
    assert!(piped_pid_file(&c, 9, "s", None).is_none());
    let (lines, code) = pipe_background(&c, &Forked::Failed("EAGAIN".to_string()), None);
    assert_eq!(lines, vec!["deemo: fork failed: EAGAIN"]);
    assert_eq!(code, 1);
    assert_eq!(session_warning("e"), "deemo: warning: setsid failed: e");
}

#[test]
fn windows_pipe_background_is_unsupported() {
    let out = pipe_background_refusal(Platform::Windows).unwrap();
    assert_eq!(out.code, 1);
    assert_eq!(
        out.text,
        "deemo: --background in pipe mode is not supported on this platform"
    );
    assert!(pipe_background_refusal(Platform::Unix).is_none());
}

#[test]
fn a_detached_command_is_registered_as_it_was_typed() {
    let c = cli(Some("rec"), &["echo", "reg-ok"]);
    let file = detached_pid_file(&c, 7, "2026-09-16T11:15:27", Some("/l/rec.log")).unwrap();
    assert_eq!(file.name, "rec.7.pid");
    assert!(file.text.contains("cmd=echo reg-ok\n"));
    assert_eq!(supervising(&c.command), "deemo: supervising: echo reg-ok");
}

#[test]
fn words_are_joined_and_quoted() {
    let words = |list: &[&str]| list.iter().map(|w| w.to_string()).collect::<Vec<String>>();
    assert_eq!(join(&words(&[]), ", "), "");
    assert_eq!(join(&words(&["a"]), ", "), "a");
    assert_eq!(join(&words(&["a", "", "c"]), ", "), "a, , c");
    let odd = words(&["say \"hi\"", "tab\there", "ä\u{7f}"]);
    let expected: Vec<String> = odd.iter().map(|w| format!("{w:?}")).collect();
    assert_eq!(quoted_words(&odd), expected);
    assert_eq!(
        detach_as(&words(&["'x'", "'y'"]), "l", 1, None, &Registration::Done).0,
        vec!["deemo: detached ['x', 'y'] (pid 1)", "deemo: stop with: deemo stop l"]
    );
    let c = cli(None, &["say \"hi\"", "x"]);
    let line = &detach(&c, 3, None, &Registration::Absent).0[0];
    assert_eq!(line, &format!("deemo: detached {:?} (pid 3)", c.command));
}

#[test]
fn the_stop_hint_is_never_bound_to_fail() {
    assert_eq!(stop_hint("web", 71630), "web");
    assert_eq!(stop_hint("web-1", 71630), "web-1");
    assert_eq!(stop_hint("123", 71630), "71630", "a number would be read as a pid");
    assert_eq!(stop_hint("4294967296", 71630), "71630");
    assert_eq!(stop_hint("+5", 71630), "71630");
    assert_eq!(stop_hint("-x", 71630), "71630", "a dash would start an option");
    assert_eq!(stop_hint("--", 71630), "71630");
    assert_eq!(stop_hint("-", 71630), "-", "a single dash is no option");
    assert_eq!(stop_hint("", 71630), "71630");
    let c = cli(Some("123"), &["sleep", "30"]);
    let (lines, _) = detach(&c, 71630, Some("/l"), &Registration::Done);
    assert_eq!(lines[2], "deemo: stop with: deemo stop 71630");
    let (lines, _) = pipe_background(&c, &Forked::Parent(9), Some("/l"));
    assert_eq!(lines[2], "deemo: stop with: deemo stop 9");
}

#[test]
fn sigint_is_forwarded_only_to_the_living() {
    assert!(forwards(true));
    assert!(!forwards(false));
}
