//! What a command line asks for, and what is said while it is carried out.

use vstd::prelude::*;

use crate::run::{Mode, Registration};
use crate::signal::Platform;

verus! {

/// A subcommand is carried out whatever else is there. A command is run, and
/// stdin left alone, attached exactly where that is asked for. Without either,
/// stdin is read only where it is a pipe.
pub proof fn a_command_line_is_taken_as_it_says(
    manages: bool,
    has_command: bool,
    foreground: bool,
    background: bool,
    stdin_is_terminal: bool,
)
    ensures
        ({
            let mode = crate::run::mode_spec(
                manages,
                has_command,
                foreground,
                background,
                stdin_is_terminal,
            );
            &&& mode == Mode::Manage <==> manages
            &&& (mode == Mode::Foreground || mode == Mode::Detach) <==> has_command && !manages
            &&& mode == Mode::Foreground <==> foreground && has_command && !manages
            &&& mode == Mode::Usage <==> stdin_is_terminal && !has_command && !manages
            &&& mode == Mode::PipeBackground <==> background && !stdin_is_terminal && !has_command
                && !manages
        }),
{
}

/// A child's own exit code is passed on, whatever it is. One that a signal ended
/// gives 128 and the number of the signal, so that different signals give
/// different codes.
pub proof fn a_signal_gives_its_code(platform: Platform, code: i32, signal: Option<i32>, n: i32)
    ensures
        crate::run::status_code_spec(platform, Some(code), signal) == code,
        crate::run::status_code_spec(Platform::Unix, None, Some(n)) - n == 128,
        crate::run::status_code_spec(Platform::Unix, None, None) == 129,
        crate::run::status_code_spec(Platform::Windows, None, signal) == 1,
{
}

/// The exit codes, as a shell knows them.
pub proof fn the_exit_codes()
    ensures
        crate::stream::EXIT_OK == 0,
        crate::stream::EXIT_ERROR == 1,
        crate::kill::USAGE_ERROR == 2,
        crate::run::EXIT_CMD_NOT_FOUND == 127,
        crate::stream::EXIT_INTERRUPTED == 128 + 2,
{
}

/// What is said of a command that could not be started names it, and why unless
/// there is no such command.
pub proof fn a_failed_start_names_the_command(program: Seq<char>, e: Seq<char>)
    ensures
        crate::run::spawn_message(program, true, e) == "deemo: command not found: "@ + program,
        crate::run::spawn_message(program, false, e) == "deemo: failed to spawn "@ + program + ": "@
            + e,
{
}

/// Words are put together with the separator between each two, and nowhere
/// else: what is put together of two lists is what is put together of each,
/// with one separator in between.
pub proof fn words_are_joined_once(a: Seq<Seq<char>>, b: Seq<Seq<char>>, separator: Seq<char>)
    ensures
        a.len() > 0 && b.len() > 0 ==> crate::run::joined(a + b, separator) == crate::run::joined(
            a,
            separator,
        ) + separator + crate::run::joined(b, separator),
        a.len() == 1 ==> crate::run::joined(a, separator) == a[0],
        a.len() == 0 ==> crate::run::joined(a, separator).len() == 0,
    decreases b.len(),
{
    if a.len() > 0 && b.len() > 0 {
        let all = a + b;
        assert(all.drop_last() =~= a + b.drop_last());
        assert(all.last() == b.last());
        if b.len() == 1 {
            assert(a + b.drop_last() =~= a);
        } else {
            words_are_joined_once(a, b.drop_last(), separator);
            let x = crate::run::joined(a, separator);
            let y = crate::run::joined(b.drop_last(), separator);
            assert(x + separator + y + separator + b.last() =~= x + separator + (y + separator
                + b.last()));
        }
    }
}

/// A command is shown as its words with a space between each two.
pub proof fn a_command_is_shown_by_its_words(command: Seq<String>)
    ensures
        crate::run::on_one_line(command) == crate::run::joined(crate::text::texts(command), " "@),
        crate::run::in_quotes(crate::text::texts(command)).len() == command.len(),
        forall|i: int|
            0 <= i < command.len() ==> #[trigger] crate::run::in_quotes(
                crate::text::texts(command),
            )[i] == crate::signal::debug_quoted(command[i]@),
{
}

/// The label is handed out as the argument for `deemo stop` exactly where it
/// stands for itself there: it is not empty, no option and no number. Otherwise
/// the pid is.
pub proof fn the_hint_is_the_label_where_that_works(label: Seq<char>, pid: u32)
    ensures
        label.len() > 0 && (label[0] != '-' || label.len() == 1) && !crate::stop::is_number(label)
            ==> crate::run::stop_argument(label, pid) == label,
        label.len() == 0 || (label[0] == '-' && label.len() > 1) || crate::stop::is_number(label)
            ==> crate::run::stop_argument(label, pid) == crate::text::decimal_spec(pid as nat),
{
}

/// What detach mode says: one line with the command and its pid, always; before
/// it why there is no pid file, where that failed; behind it the log, where
/// there is one; and last how to stop it, exactly where it is registered.
pub proof fn what_is_said_of_a_detached_command(
    shown: Seq<Seq<char>>,
    label: Seq<char>,
    pid: u32,
    log: Option<Seq<char>>,
    registration: Registration,
)
    ensures
        ({
            let lines = crate::run::detach_lines(shown, label, pid, log, registration);
            let at: int = if registration is Failed {
                1
            } else {
                0
            };
            let logged: int = if log is Some {
                1
            } else {
                0
            };
            &&& lines.len() == at + 1 + logged + if registration is Done {
                1int
            } else {
                0
            }
            &&& lines[at] == "deemo: detached ["@ + crate::run::joined(shown, ", "@) + "] (pid "@
                + crate::text::decimal_spec(pid as nat) + ")"@
            &&& registration matches Registration::Failed(e) ==> lines[0]
                == "deemo: warning: could not register pid file: "@ + e@
            &&& log matches Some(path) ==> lines[at + 1] == "deemo: log: "@ + path
            &&& registration is Done ==> lines.last() == "deemo: stop with: deemo stop "@
                + crate::run::stop_argument(label, pid)
        }),
{
}

/// A way to stop a process is handed out exactly where it is registered, and the
/// log is named exactly where there is one.
pub proof fn nothing_is_promised_that_is_not_there(
    registered: bool,
    label: Seq<char>,
    pid: u32,
    path: Seq<char>,
)
    ensures
        registered ==> crate::run::stop_line(registered, label, pid)
            == seq!["deemo: stop with: deemo stop "@ + crate::run::stop_argument(label, pid)],
        !registered ==> crate::run::stop_line(registered, label, pid).len() == 0,
        crate::run::log_line(Some(path)) == seq!["deemo: log: "@ + path],
        crate::run::log_line(None).len() == 0,
{
}

/// Ctrl+C quits at once only when it is pressed again, with code 130; until
/// then the child there is, if any, gets the SIGINT, where there are signals.
pub proof fn ctrl_c_quits_when_pressed_again(child: Option<u32>)
    ensures
        crate::run::quits(false) is None,
        crate::run::quits(true) == Some(130i32),
        crate::run::forwarded(Platform::Unix, child) == child,
        crate::run::forwarded(Platform::Windows, child) is None,
{
}

/// What runs in the background is registered with its own pid, label, start and
/// log: a command with all of its words, a pipe as one.
pub proof fn what_runs_is_registered_as_it_is(
    cli: crate::cli::Cli,
    pid: u32,
    started: Seq<char>,
    log: Seq<char>,
)
    ensures
        ({
            let a = crate::run::detached_record(cli, pid, started, log);
            let b = crate::run::piped_record(cli, pid, started, log);
            &&& a.pid == pid && b.pid == pid
            &&& a.label == cli.label_of() && b.label == cli.label_of()
            &&& a.started == started && b.started == started
            &&& a.log == log && b.log == log
            &&& a.cmd == crate::run::joined(crate::text::texts(cli.command@), " "@)
            &&& b.cmd == "<piped>"@
        }),
{
}

/// What is said of a pipe in the background: its pid, and where it has a log
/// that and how to stop it.
pub proof fn what_is_said_of_a_pipe_in_the_background(
    label: Seq<char>,
    pid: u32,
    log: Option<Seq<char>>,
)
    ensures
        ({
            let lines = crate::run::background_lines(label, pid, log);
            &&& lines.len() == if log is Some {
                3int
            } else {
                1
            }
            &&& lines[0] == "deemo: backgrounded (pid "@ + crate::text::decimal_spec(pid as nat)
                + "); will exit when every pipe writer closes"@
            &&& log matches Some(path) ==> lines[1] == "deemo: log: "@ + path && lines[2]
                == "deemo: stop with: deemo stop "@ + crate::run::stop_argument(label, pid)
        }),
{
}

/// How many logs were pruned is said exactly where there were any.
pub proof fn pruning_is_told_where_it_happened(n: usize)
    ensures
        crate::run::pruned_message(n) is None <==> n == 0,
        n > 0 ==> crate::run::pruned_message(n) == Some(
            "deemo: pruned "@ + crate::text::decimal_spec(n as nat) + " old log file(s)"@,
        ),
{
}

/// A path is its text, and none is none.
pub proof fn a_path_is_its_text(path: &str)
    ensures
        crate::run::path_of(Some(path)) == Some(path@),
        crate::run::path_of(None) is None,
{
}

} // verus!
