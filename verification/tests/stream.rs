use deemo::stream::{log_report, Action, Event, Phase, Pump, Source};

/// A stream carried out on plain values.
struct World {
    input: Vec<&'static str>,
    stdout: String,
    log: String,
    said: Vec<String>,
    child_killed: bool,
    log_reported: bool,
    interrupted: bool,
    /// The write to stdout with this number breaks; with a message it fails.
    stdout_breaks_at: Option<(usize, Option<&'static str>)>,
    log_fails_at: Option<usize>,
    child_code: i32,
}

fn world(input: &[&'static str]) -> World {
    World {
        input: input.to_vec(),
        stdout: String::new(),
        log: String::new(),
        said: vec![],
        child_killed: false,
        log_reported: false,
        interrupted: false,
        stdout_breaks_at: None,
        log_fails_at: None,
        child_code: 0,
    }
}

impl World {
    fn run(&mut self, mut pump: Pump) -> i32 {
        let mut next_line = 0;
        let mut line = "";
        let mut echoes = 0;
        let mut writes = 0;
        loop {
            let event = match pump.action() {
                Action::Read => {
                    if next_line < self.input.len() {
                        line = self.input[next_line];
                        next_line += 1;
                        Event::Line
                    } else {
                        Event::End {
                            interrupted: self.interrupted,
                        }
                    }
                }
                Action::Echo => {
                    echoes += 1;
                    match self.stdout_breaks_at {
                        Some((at, why)) if echoes >= at => match why {
                            Some(e) => Event::EchoFailed(e.to_string()),
                            None => Event::EchoBroken,
                        },
                        _ => {
                            self.stdout.push_str(line);
                            Event::Echoed
                        }
                    }
                }
                Action::Log => {
                    writes += 1;
                    if self.log_fails_at == Some(writes) {
                        Event::LogFailed
                    } else {
                        self.log.push_str(line);
                        Event::Logged
                    }
                }
                Action::Wait => Event::Exited {
                    status: format!("exit status: {}", self.child_code),
                    code: self.child_code,
                },
                Action::Exit(code) => return code,
            };
            let (next, effects) = pump.after(&event);
            self.said.extend(effects.message);
            self.child_killed |= effects.kill_child;
            self.log_reported |= effects.report_log;
            pump = next;
        }
    }
}

#[test]
fn pipe_passes_through_and_writes_log() {
    let mut w = world(&["hello\n", "world\n"]);
    assert_eq!(w.run(Pump::new(Source::Pipe, false, true)), 0);
    assert_eq!(w.stdout, "hello\nworld\n");
    assert_eq!(w.log, "hello\nworld\n");
    assert!(w.log_reported);
    assert!(w.said.is_empty());
}

#[test]
fn passes_through_and_writes_log() {
    let mut w = world(&["hello\n", "world\n"]);
    assert_eq!(w.run(Pump::new(Source::Pipe, false, true)), 0);
    assert_eq!(w.stdout, "hello\nworld\n");
    assert_eq!(w.log, "hello\nworld\n");
}

#[test]
fn pipe_keeps_output_without_trailing_newline() {
    let mut w = world(&["no-newline"]);
    assert_eq!(w.run(Pump::new(Source::Pipe, false, true)), 0);
    assert_eq!(w.log, "no-newline");
    assert_eq!(w.stdout, "no-newline");
}

#[test]
fn pipe_quiet_writes_log_without_echo() {
    let mut w = world(&["secret\n"]);
    assert_eq!(w.run(Pump::new(Source::Pipe, true, true)), 0);
    assert_eq!(w.stdout, "");
    assert_eq!(w.log, "secret\n");
}

#[test]
fn quiet_writes_log_without_echo() {
    let mut w = world(&["secret\n"]);
    assert_eq!(w.run(Pump::new(Source::Pipe, true, true)), 0);
    assert_eq!((w.stdout.as_str(), w.log.as_str()), ("", "secret\n"));
}

#[test]
fn foreground_quiet_logs_without_echo() {
    let mut w = world(&["secret\n"]);
    assert_eq!(w.run(Pump::new(Source::Child, true, true)), 0);
    assert_eq!(w.stdout, "");
    assert_eq!(w.log, "secret\n");
}

#[test]
fn pipe_downstream_broken_pipe_exits_zero() {
    let mut w = world(&["line\n", "line\n", "line\n"]);
    w.stdout_breaks_at = Some((2, None));
    assert_eq!(w.run(Pump::new(Source::Pipe, false, true)), 0);
    assert!(w.said.is_empty(), "silent");
    assert!(!w.log_reported);
    assert_eq!(w.stdout, "line\n");
}

#[test]
fn foreground_downstream_broken_pipe_is_graceful_zero() {
    let mut w = world(&["flood\n", "flood\n"]);
    w.stdout_breaks_at = Some((1, None));
    w.child_code = 1;
    assert_eq!(w.run(Pump::new(Source::Child, false, true)), 0);
    assert!(w.child_killed, "the child is taken down with it");
    assert!(w.said.is_empty());
}

#[test]
fn any_other_stdout_failure_is_fatal() {
    let mut w = world(&["a\n", "b\n"]);
    w.stdout_breaks_at = Some((1, Some("No space left on device")));
    assert_eq!(w.run(Pump::new(Source::Pipe, false, true)), 1);
    assert_eq!(
        w.said,
        vec!["deemo: error writing stdout: No space left on device"]
    );
    assert!(w.log_reported);
    let mut w = world(&["a\n", "b\n"]);
    w.stdout_breaks_at = Some((1, Some("e")));
    assert_eq!(w.run(Pump::new(Source::Child, false, true)), 1);
    assert!(w.child_killed && w.log_reported);
}

#[test]
fn a_lost_terminal_leaves_a_detached_pump_logging() {
    let mut w = world(&["a\n", "b\n", "c\n", "d\n"]);
    w.stdout_breaks_at = Some((2, None));
    assert_eq!(w.run(Pump::new(Source::DetachedPipe, false, true)), 0);
    assert_eq!(w.said, vec!["deemo: terminal gone; switching to log-only"]);
    assert_eq!(w.stdout, "a\n");
    assert_eq!(w.log, "a\nb\nc\nd\n", "no line is lost");
    assert!(w.log_reported);

    let mut w = world(&["a\n", "b\n"]);
    w.stdout_breaks_at = Some((1, Some("e")));
    assert_eq!(w.run(Pump::new(Source::DetachedPipe, false, true)), 0);
    assert_eq!(w.said, vec!["deemo: error writing stdout: e"]);
    assert_eq!(w.log, "a\nb\n");
}

#[test]
fn a_broken_log_keeps_the_stream() {
    let mut w = world(&["a\n", "b\n", "c\n"]);
    w.log_fails_at = Some(2);
    assert_eq!(w.run(Pump::new(Source::Pipe, false, true)), 0);
    assert_eq!(w.stdout, "a\nb\nc\n");
    assert_eq!(w.log, "a\n");
    assert_eq!(
        w.said,
        vec!["deemo: warning: log write failed, continuing without logging"]
    );
    assert!(!w.log_reported, "there is no log any more");

    // with the terminal gone there is nobody to tell
    let mut w = world(&["a\n", "b\n", "c\n"]);
    w.stdout_breaks_at = Some((1, Some("e")));
    w.log_fails_at = Some(1);
    assert_eq!(w.run(Pump::new(Source::DetachedPipe, false, true)), 0);
    assert_eq!(w.said, vec!["deemo: error writing stdout: e"]);
    assert_eq!(w.log, "");
}

#[test]
fn pipe_sigint_drains_then_exits_130_on_eof() {
    let mut w = world(&["last words\n"]);
    w.interrupted = true;
    assert_eq!(w.run(Pump::new(Source::Pipe, false, true)), 130);
    assert_eq!(w.log, "last words\n");
}

#[test]
fn foreground_merges_both_fds_and_returns_child_code() {
    let mut w = world(&["out-line\n", "err-line\n"]);
    w.child_code = 3;
    assert_eq!(w.run(Pump::new(Source::Child, false, true)), 3);
    assert_eq!(w.stdout, "out-line\nerr-line\n");
    assert_eq!(w.log, "out-line\nerr-line\n");
    assert_eq!(w.said, vec!["deemo: child exited (exit status: 3)"]);
    assert!(w.log_reported);
}

#[test]
fn supervisor_captures_both_fds_and_propagates_exit_code() {
    let mut w = world(&["out-line\n", "err-line\n"]);
    w.child_code = 3;
    assert_eq!(w.run(Pump::new(Source::Child, false, true)), 3);
    assert_eq!(w.log, "out-line\nerr-line\n");
}

#[test]
fn reading_and_waiting_can_fail() {
    let pump = Pump::new(Source::Pipe, false, true);
    let (next, effects) = pump.after(&Event::ReadFailed("gone".to_string()));
    assert_eq!(next.action(), Action::Exit(1));
    assert_eq!(
        effects.message.as_deref(),
        Some("deemo: error reading stdin: gone")
    );
    assert!(!effects.report_log);

    let waiting = Pump::new(Source::Child, false, true)
        .after(&Event::End { interrupted: true })
        .0;
    assert_eq!(waiting.phase, Phase::Waiting);
    let (next, effects) = waiting.after(&Event::WaitFailed("ECHILD".to_string()));
    assert_eq!(next.action(), Action::Exit(1));
    assert_eq!(
        effects.message.as_deref(),
        Some("deemo: error waiting for child: ECHILD")
    );
    assert!(effects.report_log);
}

#[test]
fn an_event_out_of_turn_leaves_the_pump_alone() {
    let pump = Pump::new(Source::Pipe, false, true);
    let (next, effects) = pump.after(&Event::Logged);
    assert_eq!(next, pump);
    assert!(effects.message.is_none() && !effects.kill_child && !effects.report_log);
}

#[test]
fn yolo_passes_through_without_a_log() {
    let mut w = world(&["x\n"]);
    assert_eq!(w.run(Pump::new(Source::Pipe, false, false)), 0);
    assert_eq!(w.stdout, "x\n");
    assert_eq!(w.log, "");
    assert!(!w.log_reported);
}

#[test]
fn the_log_is_named_at_the_end() {
    assert_eq!(log_report("/h/logs/a.log"), "deemo: log saved to /h/logs/a.log");
}
