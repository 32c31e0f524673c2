//! What a command line asks for, and what is said while it is carried out.

use vstd::prelude::*;

use crate::cli::Cli;
use crate::registry::{register, Output, PidFile};
use crate::signal::{quoted, Platform};
use crate::sink::Sink;
use crate::stream::{EXIT_ERROR, EXIT_INTERRUPTED, EXIT_OK};
use crate::stop::reads_as_number;
use crate::text::{chars, decimal, push_decimal};

verus! {

/// Exit code for a command that does not exist, as in a shell.
pub const EXIT_CMD_NOT_FOUND: i32 = 127;

/// Milliseconds after the first Ctrl+C before SIGINT is forwarded to a child
/// that is still alive: a second signal at once could cut its graceful
/// shutdown short.
pub const FORWARD_DELAY: u64 = 250;

// ---------------------------------------------------------------------------
// Modes
// ---------------------------------------------------------------------------

/// What a command line asks for.
#[derive(Clone, Copy, PartialEq, Eq, Structural, Debug)]
pub enum Mode {
    /// A management subcommand.
    Manage,
    /// Nothing to do: no command, and no pipe on stdin.
    Usage,
    /// Pass stdin through.
    Pipe,
    /// Pass stdin through, in the background.
    PipeBackground,
    /// Run a command and stay attached to it.
    Foreground,
    /// Run a command in the background.
    Detach,
}

/// What a command line asks for, by whether it has a subcommand and a command,
/// its two switches, and what stdin is.
pub open spec fn mode_spec(
    manages: bool,
    has_command: bool,
    foreground: bool,
    background: bool,
    stdin_is_terminal: bool,
) -> Mode {
    if manages {
        Mode::Manage
    } else if has_command {
        if foreground {
            Mode::Foreground
        } else {
            Mode::Detach
        }
    } else if stdin_is_terminal {
        Mode::Usage
    } else if background {
        Mode::PipeBackground
    } else {
        Mode::Pipe
    }
}

/// What a command line asks for. Bare `deemo` in a terminal must not silently
/// block on stdin: pipe mode requires an actual pipe.
pub fn run(cli: &Cli, stdin_is_terminal: bool) -> (mode: Mode)
    ensures
        mode == mode_spec(
            cli.manage is Some,
            cli.command@.len() > 0,
            cli.foreground,
            cli.background,
            stdin_is_terminal,
        ),
        mode == (if cli.manage is Some {
            Mode::Manage
        } else if cli.command@.len() > 0 {
            if cli.foreground {
                Mode::Foreground
            } else {
                Mode::Detach
            }
        } else if stdin_is_terminal {
            Mode::Usage
        } else if cli.background {
            Mode::PipeBackground
        } else {
            Mode::Pipe
        }),
{
    if let Some(_) = &cli.manage {
        return Mode::Manage;
    }
    if cli.command.len() == 0 {
        if stdin_is_terminal {
            return Mode::Usage;
        }
        if cli.background {
            return Mode::PipeBackground;
        }
        return Mode::Pipe;
    }
    if cli.foreground {
        Mode::Foreground
    } else {
        Mode::Detach
    }
}

/// The lines for a command line that asks for nothing.
pub open spec fn usage_text() -> Seq<char> {
    "deemo: no command given and stdin is a terminal; nothing to do.\n"@
        + "  start a daemon:     deemo -- <CMD> [ARGS...]\n"@
        + "  capture a pipeline: <cmd> | deemo\n"@
        + "  manage processes:   deemo ps | deemo stop <LABEL> | deemo kill <PORT> | deemo logs <LABEL>"@
}

/// What is said of a command line that asks for nothing, and the exit code of
/// a usage error.
pub fn usage() -> (out: Output)
    ensures
        out.text@ == usage_text(),
        out.code == crate::kill::USAGE_ERROR,
{
    let mut text = "deemo: no command given and stdin is a terminal; nothing to do.\n".to_string();
    text.append("  start a daemon:     deemo -- <CMD> [ARGS...]\n");
    text.append("  capture a pipeline: <cmd> | deemo\n");
    text.append(
        "  manage processes:   deemo ps | deemo stop <LABEL> | deemo kill <PORT> | deemo logs <LABEL>",
    );
    Output { text, code: crate::kill::USAGE_ERROR }
}

/// What pipe mode says at its start, so that waiting never looks like hanging:
/// the end comes only when every writer of the pipe closes.
pub fn pipe_notice() -> (message: String)
    ensures
        message@
            == "deemo: pipe mode: waiting for stdin to close (all writers must exit; Ctrl+C twice to quit early)"@,
{
    "deemo: pipe mode: waiting for stdin to close (all writers must exit; Ctrl+C twice to quit early)".to_string()
}

// ---------------------------------------------------------------------------
// The log of a run
// ---------------------------------------------------------------------------

/// Where a prepared log is announced. The file is the same either way.
#[derive(Clone, Copy, PartialEq, Eq, Structural, Debug)]
pub enum LogMode {
    /// Pipe: print the path now. A failure leaves pure passthrough.
    Pipe,
    /// Detach / foreground: the mode itself prints the path after spawn.
    Spawn,
}

/// What to do about the log of a run.
#[derive(Debug)]
pub enum LogPlan {
    /// Write none, and say so.
    Without(String),
    /// Open this file.
    Open(Sink),
}

/// The log of a run: none with `--yolo`, else the file that the label and the
/// naming scheme call for.
pub fn prepare_log(cli: &Cli) -> (plan: LogPlan)
    ensures
        match plan {
            LogPlan::Without(message) => cli.yolo && message@
                == "deemo: --yolo, not writing any logs"@,
            LogPlan::Open(sink) => !cli.yolo && exists|m: crate::clock::Moment| #[trigger]
                m.valid() && sink.name@ == crate::sink::log_name(cli.label_of(), cli.timestamp, m),
        },
{
    if cli.yolo {
        return LogPlan::Without("deemo: --yolo, not writing any logs".to_string());
    }
    let label = cli.label_string();
    LogPlan::Open(Sink::open(label.as_str(), cli.timestamp))
}

/// What is said of a log that cannot be opened; the command runs nevertheless.
pub fn log_unavailable(mode: LogMode, e: &str) -> (message: String)
    ensures
        message@ == "deemo: warning: cannot open log file, "@ + (match mode {
            LogMode::Pipe => "passthrough only"@,
            LogMode::Spawn => "running without logs"@,
        }) + ": "@ + e@,
{
    let mut message = "deemo: warning: cannot open log file, ".to_string();
    message.append(
        match mode {
            LogMode::Pipe => "passthrough only",
            LogMode::Spawn => "running without logs",
        },
    );
    message.append(": ");
    message.append(e);
    message
}

/// What is said of a log that was opened, where it is announced at once.
pub fn log_opened(mode: LogMode, path: &str) -> (message: Option<String>)
    ensures
        crate::stream::text_of(message) == (match mode {
            LogMode::Pipe => Some("deemo: logging to "@ + path@),
            LogMode::Spawn => None,
        }),
{
    match mode {
        LogMode::Pipe => {
            let mut message = "deemo: logging to ".to_string();
            message.append(path);
            Some(message)
        },
        LogMode::Spawn => None,
    }
}

/// The line for `n` logs that were pruned.
pub open spec fn pruned_message(n: usize) -> Option<Seq<char>> {
    if n == 0 {
        None
    } else {
        Some("deemo: pruned "@ + crate::text::decimal_spec(n as nat) + " old log file(s)"@)
    }
}

/// What is said of the pruning of old logs: how many went, if any, or why it
/// could not be done.
pub fn pruned(result: &Result<usize, String>) -> (message: Option<String>)
    ensures
        result matches Ok(n) ==> crate::stream::text_of(message) == pruned_message(*n),
        crate::stream::text_of(message) == (match *result {
            Ok(n) => if n == 0 {
                None
            } else {
                Some(
                    "deemo: pruned "@ + crate::text::decimal_spec(n as nat) + " old log file(s)"@,
                )
            },
            Err(e) => Some("deemo: warning: could not prune old logs: "@ + e@),
        }),
{
    match result {
        Ok(n) => {
            if *n == 0 {
                return None;
            }
            let mut message = "deemo: pruned ".to_string();
            push_decimal(&mut message, *n as u64);
            message.append(" old log file(s)");
            Some(message)
        },
        Err(e) => {
            let mut message = "deemo: warning: could not prune old logs: ".to_string();
            message.append(e.as_str());
            Some(message)
        },
    }
}

// ---------------------------------------------------------------------------
// Ctrl+C
// ---------------------------------------------------------------------------

/// What Ctrl+C does in pipe and foreground mode.
#[derive(Debug)]
pub enum Interrupt {
    /// First press: remember it and keep draining, so that the last lines
    /// still reach the log. SIGINT goes to this child, if it is still alive
    /// after a short delay.
    Drain { message: String, forward: Option<u32> },
    /// Second press: leave at once.
    Quit(i32),
}

/// The child that SIGINT is forwarded to after Ctrl+C was pressed once.
pub open spec fn forwarded(platform: Platform, child: Option<u32>) -> Option<u32> {
    match platform {
        Platform::Unix => child,
        Platform::Windows => None,
    }
}

/// What Ctrl+C does: the first press drains, the second quits with this code.
pub open spec fn quits(pressed_before: bool) -> Option<i32> {
    if pressed_before {
        Some(EXIT_INTERRUPTED)
    } else {
        None
    }
}

/// What Ctrl+C does, given whether it was pressed before and the child there
/// is.
pub fn on_ctrl_c(platform: Platform, pressed_before: bool, child: Option<u32>) -> (what: Interrupt)
    ensures
        quits(pressed_before) == (match what {
            Interrupt::Quit(code) => Some(code),
            Interrupt::Drain { .. } => None,
        }),
        what is Drain ==> what->forward == forwarded(platform, child),
        match what {
            Interrupt::Drain { message, forward } => {
                &&& !pressed_before
                &&& message@ == "\ndeemo: interrupted; press Ctrl+C again to force quit"@
                &&& forward == (match platform {
                    Platform::Unix => child,
                    Platform::Windows => None,
                })
            },
            Interrupt::Quit(code) => pressed_before && code == EXIT_INTERRUPTED,
        },
{
    if pressed_before {
        return Interrupt::Quit(EXIT_INTERRUPTED);
    }
    Interrupt::Drain {
        message: "\ndeemo: interrupted; press Ctrl+C again to force quit".to_string(),
        forward: match platform {
            Platform::Unix => child,
            Platform::Windows => None,
        },
    }
}

/// Is SIGINT forwarded when the delay is over? Only to a child that is still
/// there: `answered` says whether the null signal could be sent to it.
pub fn forwards(answered: bool) -> (yes: bool)
    ensures
        yes == answered,
{
    answered
}

// ---------------------------------------------------------------------------
// Running a command
// ---------------------------------------------------------------------------

/// The words with a separator between each two.
pub open spec fn joined(words: Seq<Seq<char>>, separator: Seq<char>) -> Seq<char>
    decreases words.len(),
{
    if words.len() == 0 {
        seq![]
    } else if words.len() == 1 {
        words[0]
    } else {
        joined(words.drop_last(), separator) + separator + words.last()
    }
}

/// The words with a separator between each two.
pub fn join(words: &Vec<String>, separator: &str) -> (line: String)
    ensures
        line@ == joined(crate::text::texts(words@), separator@),
{
    let mut line = String::new();
    let ghost all = crate::text::texts(words@);
    let mut i: usize = 0;
    while i < words.len()
        invariant
            i <= words.len(),
            all == crate::text::texts(words@),
            line@ == joined(all.take(i as int), separator@),
        decreases words.len() - i,
    {
        proof {
            assert(all.take(i + 1).drop_last() =~= all.take(i as int));
            assert(all.take(i + 1).last() == words@[i as int]@);
        }
        if i > 0 {
            line.append(separator);
        }
        line.append(words[i].as_str());
        proof {
            if i == 0 {
                assert(line@ =~= words@[0]@);
            }
        }
        i += 1;
    }
    proof {
        assert(all.take(all.len() as int) =~= all);
    }
    line
}

/// A command on one line.
pub open spec fn on_one_line(command: Seq<String>) -> Seq<char> {
    joined(crate::text::texts(command), " "@)
}

/// The words in quotes.
pub open spec fn in_quotes(words: Seq<Seq<char>>) -> Seq<Seq<char>> {
    words.map_values(|w: Seq<char>| crate::signal::debug_quoted(w))
}

/// The words in quotes.
pub fn quoted_words(words: &Vec<String>) -> (shown: Vec<String>)
    ensures
        crate::text::texts(shown@) == in_quotes(crate::text::texts(words@)),
{
    let mut shown: Vec<String> = Vec::new();
    let mut i: usize = 0;
    while i < words.len()
        invariant
            i <= words.len(),
            shown.len() == i,
            forall|k: int| 0 <= k < i ==> (#[trigger] shown@[k])@ == crate::signal::debug_quoted(words@[k]@),
        decreases words.len() - i,
    {
        shown.push(quoted(words[i].as_str()));
        i += 1;
    }
    proof {
        assert(crate::text::texts(shown@) =~= in_quotes(crate::text::texts(words@)));
    }
    shown
}

/// What foreground mode says at its start.
pub fn supervising(command: &Vec<String>) -> (message: String)
    ensures
        message@ == "deemo: supervising: "@ + on_one_line(command@),
{
    let mut message = "deemo: supervising: ".to_string();
    message.append(join(command, " ").as_str());
    message
}

/// The exit code for a child that has ended, by its own and by the signal that
/// ended it.
pub open spec fn status_code_spec(platform: Platform, code: Option<i32>, signal: Option<i32>) -> int {
    match code {
        Some(c) => c as int,
        None => match platform {
            Platform::Unix => 128 + (match signal {
                Some(n) => n as int,
                None => 1,
            }),
            Platform::Windows => 1,
        },
    }
}

/// The exit code for a child that has ended: its own, or 128 + N after the
/// signal N.
pub fn status_code(platform: Platform, code: Option<i32>, signal: Option<i32>) -> (exit: i32)
    requires
        signal is Some ==> signal->0 <= i32::MAX - 128,
    ensures
        exit == status_code_spec(platform, code, signal),
        exit == (match code {
            Some(c) => c as int,
            None => match platform {
                Platform::Unix => 128 + (match signal {
                    Some(n) => n as int,
                    None => 1,
                }),
                Platform::Windows => 1,
            },
        }),
{
    match code {
        Some(c) => c,
        None => match platform {
            Platform::Unix => match signal {
                Some(n) => 128 + n,
                None => 129,
            },
            Platform::Windows => 1,
        },
    }
}

/// What is said of a command that could not be started.
pub open spec fn spawn_message(program: Seq<char>, not_found: bool, e: Seq<char>) -> Seq<char> {
    if not_found {
        "deemo: command not found: "@ + program
    } else {
        "deemo: failed to spawn "@ + program + ": "@ + e
    }
}

/// What is said of a command that could not be started, and the exit code:
/// 127 where there is no such command, as in a shell.
pub fn spawn_error(program: &str, not_found: bool, e: &str) -> (out: Output)
    ensures
        out.text@ == spawn_message(program@, not_found, e@),
        not_found ==> out.text@ == "deemo: command not found: "@ + program@ && out.code
            == EXIT_CMD_NOT_FOUND,
        !not_found ==> out.text@ == "deemo: failed to spawn "@ + program@ + ": "@ + e@ && out.code
            == EXIT_ERROR,
{
    if not_found {
        let mut text = "deemo: command not found: ".to_string();
        text.append(program);
        return Output { text, code: EXIT_CMD_NOT_FOUND };
    }
    let mut text = "deemo: failed to spawn ".to_string();
    text.append(program);
    text.append(": ");
    text.append(e);
    Output { text, code: EXIT_ERROR }
}

// ---------------------------------------------------------------------------
// Detaching
// ---------------------------------------------------------------------------

/// What a detached command is registered as.
pub open spec fn detached_record(
    cli: Cli,
    pid: u32,
    started: Seq<char>,
    log: Seq<char>,
) -> crate::registry::Record {
    crate::registry::Record {
        pid,
        label: cli.label_of(),
        started,
        cmd: on_one_line(cli.command@),
        log,
    }
}

/// The pid file of a detached command. It is written only where there is a
/// log.
pub fn detached_pid_file(cli: &Cli, pid: u32, started: &str, log: Option<&str>) -> (file: Option<
    PidFile,
>)
    ensures
        file is Some == log is Some,
        log is Some ==> file->0.text@ == crate::registry::record_text(
            detached_record(*cli, pid, started@, log->0@),
        ),
        log is Some ==> file->0.name@ == crate::registry::pid_file_name(cli.label_of(), pid)
            && file->0.text@ == crate::registry::record_text(
            (crate::registry::Record {
                pid,
                label: cli.label_of(),
                started: started@,
                cmd: on_one_line(cli.command@),
                log: log->0@,
            }),
        ),
{
    match log {
        Some(path) => {
            let label = cli.label_string();
            let cmd = join(&cli.command, " ");
            Some(register(label.as_str(), pid, started, cmd.as_str(), path))
        },
        None => None,
    }
}

/// What has become of the pid file of a detached process.
#[derive(Debug)]
pub enum Registration {
    /// There was none to write.
    Absent,
    /// It is there.
    Done,
    /// It could not be written.
    Failed(String),
}

/// Behind the first line, where there is something to say of the pid file: how
/// it could not be written.
pub open spec fn registration_line(registration: Registration) -> Seq<Seq<char>> {
    match registration {
        Registration::Failed(e) => seq!["deemo: warning: could not register pid file: "@ + e@],
        _ => seq![],
    }
}

/// Where the log is, if there is one.
pub open spec fn log_line(log: Option<Seq<char>>) -> Seq<Seq<char>> {
    match log {
        Some(path) => seq!["deemo: log: "@ + path],
        None => seq![],
    }
}

/// Can the label be passed to `deemo stop` to name what is registered under
/// it? Not where it reads as a pid, as an option or as nothing. A single dash
/// is no option.
pub open spec fn names_itself(label: Seq<char>) -> bool {
    &&& label.len() > 0
    &&& label[0] == '-' ==> label.len() == 1
    &&& !crate::stop::is_number(label)
}

/// The argument with which `deemo stop` stops a process: its label where that
/// names it, else its pid.
pub open spec fn stop_argument(label: Seq<char>, pid: u32) -> Seq<char> {
    if names_itself(label) {
        label
    } else {
        crate::text::decimal_spec(pid as nat)
    }
}

/// How to stop the process, if it is registered: no command is handed out that
/// is bound to fail.
pub open spec fn stop_line(registered: bool, label: Seq<char>, pid: u32) -> Seq<Seq<char>> {
    if registered {
        seq!["deemo: stop with: deemo stop "@ + stop_argument(label, pid)]
    } else {
        seq![]
    }
}

/// The argument with which `deemo stop` stops a process.
pub fn stop_hint(label: &str, pid: u32) -> (argument: String)
    ensures
        argument@ == stop_argument(label@, pid),
{
    let text = chars(label);
    if text.len() > 0 && (text[0] != '-' || text.len() == 1) && !reads_as_number(label) {
        String::from_str(label)
    } else {
        decimal(pid as u64)
    }
}

/// The argument that is handed out selects the registration.
pub proof fn the_hint_selects_the_registration(r: crate::registry::Record)
    ensures
        crate::stop::selects(stop_argument(r.label, r.pid), r),
{
    crate::stop::a_registration_can_be_selected(r);
}

/// The command that is handed out stops what was registered.
pub proof fn the_hint_stops_what_was_registered(
    entries: Seq<crate::registry::Entry>,
    files: Seq<crate::registry::RunFile>,
    f: int,
    r: crate::registry::Record,
)
    requires
        crate::registry::lists(entries, files),
        0 <= f < files.len(),
        files[f].name@ == crate::registry::pid_file_name(r.label, r.pid),
        files[f].text is Some,
        files[f].text->0@ == crate::registry::record_text(r),
        crate::registry::one_line(r.label),
        crate::registry::one_line(r.started),
        crate::registry::one_line(r.cmd),
        crate::registry::one_line(r.log),
    ensures
        crate::stop::stops(
            crate::stop::stop_plan(entries, seq![stop_argument(r.label, r.pid)]),
            entries,
            r.pid,
        ),
{
    crate::stop::what_was_registered_can_be_stopped(entries, files, f, r);
}

/// The text of an optional path.
pub open spec fn path_of(log: Option<&str>) -> Option<Seq<char>> {
    match log {
        Some(path) => Some(path@),
        None => None,
    }
}

fn push_line(lines: &mut Vec<String>, front: &str, rest: &str)
    ensures
        crate::text::texts(final(lines)@) == crate::text::texts(old(lines)@) + seq![front@ + rest@],
{
    let mut line = String::from_str(front);
    line.append(rest);
    proof {
        crate::text::texts_push(lines@, line);
    }
    let ghost before = lines@;
    lines.push(line);
    proof {
        assert(crate::text::texts(lines@) =~= crate::text::texts(before) + seq![front@ + rest@]);
    }
}

/// What detach mode says once the command is running; `shown` is the command in
/// its quoted form.
pub open spec fn detach_lines(
    shown: Seq<Seq<char>>,
    label: Seq<char>,
    pid: u32,
    log: Option<Seq<char>>,
    registration: Registration,
) -> Seq<Seq<char>> {
    registration_line(registration) + seq!["deemo: detached ["@ + joined(shown, ", "@) + "] (pid "@
        + crate::text::decimal_spec(pid as nat) + ")"@] + log_line(log) + stop_line(
        registration is Done,
        label,
        pid,
    )
}

/// What detach mode says once the command is running, given the command in its
/// quoted form, and its exit code.
pub fn detach_as(
    shown: &Vec<String>,
    label: &str,
    pid: u32,
    log: Option<&str>,
    registration: &Registration,
) -> (out: (Vec<String>, i32))
    ensures
        crate::text::texts(out.0@) == detach_lines(
            crate::text::texts(shown@),
            label@,
            pid,
            path_of(log),
            *registration,
        ),
        out.1 == EXIT_OK,
{
    let mut lines: Vec<String> = Vec::new();
    proof {
        assert(crate::text::texts(lines@) =~= Seq::<Seq<char>>::empty());
    }
    if let Registration::Failed(e) = registration {
        push_line(&mut lines, "deemo: warning: could not register pid file: ", e.as_str());
    }
    proof {
        assert(crate::text::texts(lines@) =~= registration_line(*registration));
    }
    let mut first = join(shown, ", ");
    first.append("] (pid ");
    push_decimal(&mut first, pid as u64);
    first.append(")");
    push_line(&mut lines, "deemo: detached [", first.as_str());
    proof {
        assert("deemo: detached ["@ + first@ =~= "deemo: detached ["@ + joined(
            crate::text::texts(shown@),
            ", "@,
        ) + "] (pid "@ + crate::text::decimal_spec(pid as nat) + ")"@);
    }
    if let Some(path) = log {
        push_line(&mut lines, "deemo: log: ", path);
    }
    if let Registration::Done = registration {
        push_line(&mut lines, "deemo: stop with: deemo stop ", stop_hint(label, pid).as_str());
    }
    proof {
        assert(crate::text::texts(lines@) =~= detach_lines(
            crate::text::texts(shown@),
            label@,
            pid,
            path_of(log),
            *registration,
        ));
    }
    (lines, EXIT_OK)
}

/// What detach mode says once the command is running, and its exit code: what
/// becomes of the command later is not told by it.
pub fn detach(cli: &Cli, pid: u32, log: Option<&str>, registration: &Registration) -> (out: (
    Vec<String>,
    i32,
))
    ensures
        crate::text::texts(out.0@) == detach_lines(
            in_quotes(crate::text::texts(cli.command@)),
            cli.label_of(),
            pid,
            path_of(log),
            *registration,
        ),
        out.1 == EXIT_OK,
{
    let label = cli.label_string();
    detach_as(&quoted_words(&cli.command), label.as_str(), pid, log, registration)
}

/// What a pipe in the background is registered as.
pub open spec fn piped_record(
    cli: Cli,
    pid: u32,
    started: Seq<char>,
    log: Seq<char>,
) -> crate::registry::Record {
    crate::registry::Record { pid, label: cli.label_of(), started, cmd: "<piped>"@, log }
}

/// What a pipe in the background is registered as.
pub fn piped_pid_file(cli: &Cli, pid: u32, started: &str, log: Option<&str>) -> (file: Option<
    PidFile,
>)
    ensures
        file is Some == log is Some,
        log is Some ==> file->0.text@ == crate::registry::record_text(
            piped_record(*cli, pid, started@, log->0@),
        ),
        log is Some ==> file->0.name@ == crate::registry::pid_file_name(cli.label_of(), pid)
            && file->0.text@ == crate::registry::record_text(
            (crate::registry::Record {
                pid,
                label: cli.label_of(),
                started: started@,
                cmd: "<piped>"@,
                log: log->0@,
            }),
        ),
{
    match log {
        Some(path) => {
            let label = cli.label_string();
            Some(register(label.as_str(), pid, started, "<piped>", path))
        },
        None => None,
    }
}

/// Can a pipe be taken to the background on this platform? If not, what is
/// said, and the exit code.
pub fn pipe_background_refusal(platform: Platform) -> (refusal: Option<Output>)
    ensures
        refusal is Some == (platform == Platform::Windows),
        refusal is Some ==> refusal->0.text@
            == "deemo: --background in pipe mode is not supported on this platform"@
            && refusal->0.code == EXIT_ERROR,
{
    match platform {
        Platform::Unix => None,
        Platform::Windows => Some(
            Output {
                text: "deemo: --background in pipe mode is not supported on this platform".to_string(),
                code: EXIT_ERROR,
            },
        ),
    }
}

/// What came of the attempt to take a pipe to the background, in the process
/// that attempted it.
#[derive(Debug)]
pub enum Forked {
    /// No process could be started.
    Failed(String),
    /// The pump runs under this pid.
    Parent(u32),
}

/// What is said of a pipe in the background.
pub open spec fn background_lines(label: Seq<char>, pid: u32, log: Option<Seq<char>>) -> Seq<
    Seq<char>,
> {
    seq!["deemo: backgrounded (pid "@ + crate::text::decimal_spec(pid as nat)
        + "); will exit when every pipe writer closes"@] + log_line(log) + stop_line(
        log is Some,
        label,
        pid,
    )
}

/// What is said, and the exit code, in the process that took a pipe to the
/// background. The pump is registered, and can be stopped, where there is a
/// log.
pub fn pipe_background(cli: &Cli, forked: &Forked, log: Option<&str>) -> (out: (Vec<String>, i32))
    ensures
        forked matches Forked::Parent(pid) ==> crate::text::texts(out.0@) == background_lines(
            cli.label_of(),
            *pid,
            path_of(log),
        ),
        match *forked {
            Forked::Failed(e) => crate::text::texts(out.0@) == seq!["deemo: fork failed: "@ + e@]
                && out.1 == EXIT_ERROR,
            Forked::Parent(pid) => crate::text::texts(out.0@) == seq!["deemo: backgrounded (pid "@
                + crate::text::decimal_spec(pid as nat)
                + "); will exit when every pipe writer closes"@] + log_line(path_of(log))
                + stop_line(log is Some, cli.label_of(), pid) && out.1 == EXIT_OK,
        },
{
    let mut lines: Vec<String> = Vec::new();
    proof {
        assert(crate::text::texts(lines@) =~= Seq::<Seq<char>>::empty());
    }
    match forked {
        Forked::Failed(e) => {
            push_line(&mut lines, "deemo: fork failed: ", e.as_str());
            proof {
                assert(crate::text::texts(lines@) =~= seq!["deemo: fork failed: "@ + e@]);
            }
            (lines, EXIT_ERROR)
        },
        Forked::Parent(pid) => {
            let mut rest = String::new();
            push_decimal(&mut rest, *pid as u64);
            rest.append("); will exit when every pipe writer closes");
            push_line(&mut lines, "deemo: backgrounded (pid ", rest.as_str());
            proof {
                assert("deemo: backgrounded (pid "@ + rest@ =~= "deemo: backgrounded (pid "@
                    + crate::text::decimal_spec(*pid as nat)
                    + "); will exit when every pipe writer closes"@);
            }
            if let Some(path) = log {
                push_line(&mut lines, "deemo: log: ", path);
                let label = cli.label_string();
                push_line(
                    &mut lines,
                    "deemo: stop with: deemo stop ",
                    stop_hint(label.as_str(), *pid).as_str(),
                );
            }
            proof {
                assert(crate::text::texts(lines@) =~= seq!["deemo: backgrounded (pid "@
                    + crate::text::decimal_spec(*pid as nat)
                    + "); will exit when every pipe writer closes"@] + log_line(path_of(log))
                    + stop_line(log is Some, cli.label_of(), *pid));
            }
            (lines, EXIT_OK)
        },
    }
}

/// What is said where the background pump could not get a session of its own.
pub fn session_warning(e: &str) -> (message: String)
    ensures
        message@ == "deemo: warning: setsid failed: "@ + e@,
{
    let mut message = "deemo: warning: setsid failed: ".to_string();
    message.append(e);
    message
}

} // verus!
