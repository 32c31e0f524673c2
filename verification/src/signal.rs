//! Signal names for `-s`, spelled the way POSIX `kill -s SIG` and `pkill`
//! spell them (`TERM`, `SIGTERM`, `sigterm`, `-9` all reach the same signal).

use vstd::prelude::*;

use crate::text::{chars, part, push_decimal, same, starts_with, trim};

verus! {

/// What a platform can do to another process.
#[derive(Clone, Copy, PartialEq, Eq, Structural, Debug)]
pub enum Platform {
    /// Signals, process groups and `/proc` or `lsof`.
    Unix,
    /// No signals: processes are stopped with `taskkill`.
    Windows,
}

/// How many different signals the names stand for.
pub const SIGNAL_COUNT: usize = 29;

/// deemo's signal vocabulary, canonical name first: each name with the place
/// of its number. `IOT`, `CLD` and `POLL` are aliases of an earlier row.
pub open spec fn names() -> Seq<(Seq<char>, int)> {
    seq![
        ("HUP"@, 0int),
        ("INT"@, 1int),
        ("QUIT"@, 2int),
        ("ILL"@, 3int),
        ("TRAP"@, 4int),
        ("ABRT"@, 5int),
        ("IOT"@, 5int),
        ("BUS"@, 6int),
        ("FPE"@, 7int),
        ("KILL"@, 8int),
        ("USR1"@, 9int),
        ("SEGV"@, 10int),
        ("USR2"@, 11int),
        ("PIPE"@, 12int),
        ("ALRM"@, 13int),
        ("TERM"@, 14int),
        ("CHLD"@, 15int),
        ("CLD"@, 15int),
        ("CONT"@, 16int),
        ("STOP"@, 17int),
        ("TSTP"@, 18int),
        ("TTIN"@, 19int),
        ("TTOU"@, 20int),
        ("URG"@, 21int),
        ("XCPU"@, 22int),
        ("XFSZ"@, 23int),
        ("VTALRM"@, 24int),
        ("PROF"@, 25int),
        ("WINCH"@, 26int),
        ("IO"@, 27int),
        ("POLL"@, 27int),
        ("SYS"@, 28int),
    ]
}

/// The places of the signals that have the same number on every unix.
pub open spec fn is_fixed_place(i: int) -> bool {
    ||| 0 <= i <= 3
    ||| i == 5
    ||| i == 7
    ||| i == 8
    ||| i == 10
    ||| i == 13
    ||| i == 14
}

/// What holds of the signal numbers of every unix: each is a signal number,
/// the numbers below are the same everywhere, and no other signal of the
/// vocabulary has one of these. (That all of them differ holds of most.)
pub open spec fn unix_numbers(n: Seq<i32>) -> bool {
    &&& n.len() == SIGNAL_COUNT
    &&& forall|i: int| 0 <= i < n.len() ==> 1 <= #[trigger] n[i] <= 64
    &&& n[0] == 1  // HUP
    &&& n[1] == 2  // INT
    &&& n[2] == 3  // QUIT
    &&& n[3] == 4  // ILL
    &&& n[5] == 6  // ABRT
    &&& n[7] == 8  // FPE
    &&& n[8] == 9  // KILL
    &&& n[10] == 11  // SEGV
    &&& n[13] == 14  // ALRM
    &&& n[14] == 15  // TERM
    &&& forall|i: int, j: int|
        0 <= i < n.len() && is_fixed_place(j) && #[trigger] n[i] == #[trigger] n[j] ==> i == j
}

/// The signal constants of the `libc` crate, in the order of their places in
/// the vocabulary. What the numbers are depends on the platform the program is
/// built for; the contract claims what holds of all the unix platforms that
/// define them.
#[verifier::external_body]
fn host_numbers() -> (n: [i32; 29])
    ensures
        unix_numbers(n@),
{
    [
        libc::SIGHUP, libc::SIGINT, libc::SIGQUIT, libc::SIGILL, libc::SIGTRAP, libc::SIGABRT,
        libc::SIGBUS, libc::SIGFPE, libc::SIGKILL, libc::SIGUSR1, libc::SIGSEGV, libc::SIGUSR2,
        libc::SIGPIPE, libc::SIGALRM, libc::SIGTERM, libc::SIGCHLD, libc::SIGCONT,
        libc::SIGSTOP, libc::SIGTSTP, libc::SIGTTIN, libc::SIGTTOU, libc::SIGURG, libc::SIGXCPU,
        libc::SIGXFSZ, libc::SIGVTALRM, libc::SIGPROF, libc::SIGWINCH, libc::SIGIO, libc::SIGSYS,
    ]
}

fn name_table() -> (table: Vec<(&'static str, usize)>)
    ensures
        table@.len() == names().len(),
        forall|i: int|
            0 <= i < names().len() ==> #[trigger] table@[i].0@ == names()[i].0 && table@[i].1
                == names()[i].1,
{
    vec![
        ("HUP", 0usize),
        ("INT", 1usize),
        ("QUIT", 2usize),
        ("ILL", 3usize),
        ("TRAP", 4usize),
        ("ABRT", 5usize),
        ("IOT", 5usize),
        ("BUS", 6usize),
        ("FPE", 7usize),
        ("KILL", 8usize),
        ("USR1", 9usize),
        ("SEGV", 10usize),
        ("USR2", 11usize),
        ("PIPE", 12usize),
        ("ALRM", 13usize),
        ("TERM", 14usize),
        ("CHLD", 15usize),
        ("CLD", 15usize),
        ("CONT", 16usize),
        ("STOP", 17usize),
        ("TSTP", 18usize),
        ("TTIN", 19usize),
        ("TTOU", 20usize),
        ("URG", 21usize),
        ("XCPU", 22usize),
        ("XFSZ", 23usize),
        ("VTALRM", 24usize),
        ("PROF", 25usize),
        ("WINCH", 26usize),
        ("IO", 27usize),
        ("POLL", 27usize),
        ("SYS", 28usize),
    ]
}


// ---------------------------------------------------------------------------
// Reading
// ---------------------------------------------------------------------------

/// The text without its leading dashes.
pub open spec fn without_dashes(s: Seq<char>) -> Seq<char>
    decreases s.len(),
{
    if s.len() > 0 && s[0] == '-' {
        without_dashes(s.drop_first())
    } else {
        s
    }
}

/// An ASCII letter in upper case; any other character as it is.
pub open spec fn upper_char(c: char) -> char {
    if 'a' <= c <= 'z' {
        (c as int - 32) as char
    } else {
        c
    }
}

/// The text with its ASCII letters in upper case.
pub open spec fn upper(s: Seq<char>) -> Seq<char> {
    s.map_values(|c: char| upper_char(c))
}

/// The text without a `SIG` in front.
pub open spec fn without_sig(s: Seq<char>) -> Seq<char> {
    if crate::text::starts_with_spec(s, "SIG"@) {
        s.skip("SIG"@.len() as int)
    } else {
        s
    }
}

/// The place of the first row with this name.
pub open spec fn place_from(rows: Seq<(Seq<char>, int)>, name: Seq<char>) -> Option<int>
    decreases rows.len(),
{
    if rows.len() == 0 {
        None
    } else if rows[0].0 == name {
        Some(rows[0].1)
    } else {
        place_from(rows.drop_first(), name)
    }
}

/// Where in the vocabulary a name stands.
pub open spec fn place(name: Seq<char>) -> Option<int> {
    place_from(names(), name)
}

/// The text that `Debug` formatting gives for a string: quoted and escaped.
pub uninterp spec fn debug_quoted(s: Seq<char>) -> Seq<char>;

/// `format!("{:?}", ..)` on a string: its quoted and escaped form, which
/// depends on the string alone.
#[verifier::external_body]
pub(crate) fn quoted(s: &str) -> (out: String)
    ensures
        out@ == debug_quoted(s@),
{
    format!("{:?}", s)
}

/// The message for an argument that is no signal, given its quoted form.
pub open spec fn unknown_message(shown: Seq<char>) -> Seq<char> {
    "unknown signal "@ + shown + " (try TERM, HUP, KILL, or a number)"@
}

/// The message for an argument that is no signal, given its quoted form.
pub fn unknown_signal(shown: &str) -> (e: String)
    ensures
        e@ == unknown_message(shown@),
{
    let mut e = "unknown signal ".to_string();
    e.append(shown);
    e.append(" (try TERM, HUP, KILL, or a number)");
    e
}

/// What a signal argument stands for, given the platform's signal numbers: a
/// number from 1 to 64, or a name with or without `SIG`, in any case; leading
/// dashes and white space around it do not count. Where it is neither, the
/// message that says so.
pub open spec fn parse_spec(n: Seq<i32>, text: Seq<char>) -> Result<i32, Seq<char>> {
    let plain = without_dashes(crate::text::trim_spec(text));
    match crate::text::numeral_upto(plain, false, i32::MAX as int) {
        Some(v) => if 1 <= v <= 64 {
            Ok(v as i32)
        } else {
            Err("signal number "@ + crate::text::decimal_spec(v as nat) + " is out of range (1-64)"@)
        },
        None => match place(without_sig(upper(plain))) {
            Some(i) => Ok(n[i]),
            None => Err(unknown_message(debug_quoted(text))),
        },
    }
}

/// A result with the text of its error.
pub open spec fn outcome<T>(r: Result<T, String>) -> Result<T, Seq<char>> {
    match r {
        Ok(v) => Ok(v),
        Err(e) => Err(e@),
    }
}

fn uppercase(s: &Vec<char>) -> (out: Vec<char>)
    ensures
        out@ == upper(s@),
{
    let mut out: Vec<char> = Vec::new();
    let mut i: usize = 0;
    while i < s.len()
        invariant
            i <= s.len(),
            out@ == upper(s@.take(i as int)),
        decreases s.len() - i,
    {
        let c = s[i];
        let u = if 'a' <= c && c <= 'z' {
            (c as u8 - 32u8) as char
        } else {
            c
        };
        out.push(u);
        i += 1;
        proof {
            assert(upper(s@.take(i as int)) =~= upper(s@.take(i - 1)).push(upper_char(c)));
        }
    }
    proof {
        assert(s@.take(s@.len() as int) =~= s@);
    }
    out
}

fn place_of(name: &Vec<char>) -> (at: Option<usize>)
    ensures
        match at {
            Some(i) => i < SIGNAL_COUNT && place(name@) == Some(i as int),
            None => place(name@) is None,
        },
{
    let table = name_table();
    let mut i: usize = 0;
    proof {
        assert(names().skip(0) =~= names());
    }
    while i < table.len()
        invariant
            i <= table.len(),
            table@.len() == names().len(),
            forall|k: int|
                0 <= k < names().len() ==> #[trigger] table@[k].0@ == names()[k].0 && table@[k].1
                    == names()[k].1,
            place(name@) == place_from(names().skip(i as int), name@),
        decreases table.len() - i,
    {
        proof {
            assert(names().skip(i as int).drop_first() =~= names().skip(i + 1));
            assert(names().skip(i as int)[0] == names()[i as int]);
            assert(table@[i as int].0@ == names()[i as int].0);
        }
        if same(&chars(table[i].0), name) {
            proof {
                assert(names()[i as int].1 < SIGNAL_COUNT);
            }
            return Some(table[i].1);
        }
        i += 1;
    }
    None
}

/// Parses what `kill`/`pkill` accept after `-s`, with the platform's signal
/// numbers.
pub fn parse_with(numbers: &[i32; 29], text: &str) -> (sig: Result<i32, String>)
    ensures
        outcome(sig) == parse_spec(numbers@, text@),
{
    let trimmed = trim(&chars(text));
    let mut lo: usize = 0;
    proof {
        assert(trimmed@.skip(0) =~= trimmed@);
    }
    while lo < trimmed.len() && trimmed[lo] == '-'
        invariant
            lo <= trimmed.len(),
            without_dashes(trimmed@) == without_dashes(trimmed@.skip(lo as int)),
        decreases trimmed.len() - lo,
    {
        proof {
            assert(trimmed@.skip(lo as int).drop_first() =~= trimmed@.skip(lo + 1));
        }
        lo += 1;
    }
    let plain = part(&trimmed, lo, trimmed.len());
    proof {
        assert(plain@ =~= trimmed@.skip(lo as int));
        assert(plain@ == without_dashes(trimmed@));
        crate::text::numeral_not_negative(plain@, false);
    }
    match crate::text::parse_number(&plain, false, i32::MAX as u64) {
        Some(v) => {
            if 1 <= v && v <= 64 {
                Ok(v as i32)
            } else {
                let mut e = "signal number ".to_string();
                push_decimal(&mut e, v);
                e.append(" is out of range (1-64)");
                Err(e)
            }
        },
        None => {
            let big = uppercase(&plain);
            let sig = chars("SIG");
            let name = if starts_with(&big, &sig) {
                part(&big, sig.len(), big.len())
            } else {
                part(&big, 0, big.len())
            };
            proof {
                assert(name@ =~= without_sig(upper(plain@)));
            }
            match place_of(&name) {
                Some(i) => Ok(numbers[i]),
                None => Err(unknown_signal(quoted(text).as_str())),
            }
        },
    }
}

/// Parses what `kill`/`pkill` accept after `-s`: a name (with or without the
/// `SIG` prefix, any case) or a number. `0` is rejected on purpose: it is
/// `kill`'s existence probe, not a signal that can be delivered.
pub fn parse(text: &str) -> (sig: Result<i32, String>)
    ensures
        exists|n: Seq<i32>| #[trigger] unix_numbers(n) && outcome(sig) == parse_spec(n, text@),
{
    let numbers = host_numbers();
    parse_with(&numbers, text)
}

/// Parses a signal argument on a platform. Where there is no per-process
/// signal delivery, an explicit signal is an error.
pub fn parse_on(platform: Platform, text: &str) -> (sig: Result<i32, String>)
    ensures
        platform == Platform::Unix ==> exists|n: Seq<i32>| #[trigger]
            unix_numbers(n) && outcome(sig) == parse_spec(n, text@),
        platform == Platform::Windows ==> outcome(sig) == Err::<i32, Seq<char>>(
            "sending an explicit signal needs a unix platform (drop -s)"@,
        ),
{
    match platform {
        Platform::Unix => parse(text),
        Platform::Windows => Err(
            "sending an explicit signal needs a unix platform (drop -s)".to_string(),
        ),
    }
}

// ---------------------------------------------------------------------------
// Showing
// ---------------------------------------------------------------------------

/// A number in decimal, with a `-` in front of a negative one.
pub open spec fn signed(v: int) -> Seq<char> {
    if v < 0 {
        "-"@ + crate::text::decimal_spec((-v) as nat)
    } else {
        crate::text::decimal_spec(v as nat)
    }
}

/// The first row whose number is `sig`.
pub open spec fn name_from(rows: Seq<(Seq<char>, int)>, n: Seq<i32>, sig: i32) -> Option<Seq<char>>
    decreases rows.len(),
{
    if rows.len() == 0 {
        None
    } else if n[rows[0].1] == sig {
        Some(rows[0].0)
    } else {
        name_from(rows.drop_first(), n, sig)
    }
}

/// `signal`, and the number.
pub open spec fn unnamed(sig: i32) -> Seq<char> {
    "signal "@ + signed(sig as int)
}

/// The canonical name of a signal with `SIG` in front, or its number where it
/// has no name.
pub open spec fn display_spec(n: Seq<i32>, sig: i32) -> Seq<char> {
    match name_from(names(), n, sig) {
        Some(name) => "SIG"@ + name,
        None => unnamed(sig),
    }
}

/// How a signal that has the same number on every unix is shown.
pub open spec fn fixed_display(sig: i32) -> Option<Seq<char>> {
    match sig {
        1 => Some("SIGHUP"@),
        2 => Some("SIGINT"@),
        3 => Some("SIGQUIT"@),
        4 => Some("SIGILL"@),
        6 => Some("SIGABRT"@),
        8 => Some("SIGFPE"@),
        9 => Some("SIGKILL"@),
        11 => Some("SIGSEGV"@),
        14 => Some("SIGALRM"@),
        15 => Some("SIGTERM"@),
        _ => None,
    }
}

/// A signal is named by the first row with its number.
pub proof fn first_with_number(rows: Seq<(Seq<char>, int)>, n: Seq<i32>, sig: i32, k: int)
    requires
        0 <= k < rows.len(),
        n[rows[k].1] == sig,
        forall|i: int| 0 <= i < k ==> n[(#[trigger] rows[i]).1] != sig,
    ensures
        name_from(rows, n, sig) == Some(rows[k].0),
    decreases rows.len(),
{
    if k > 0 {
        assert(n[rows[0].1] != sig);
        let rest = rows.drop_first();
        assert forall|i: int| 0 <= i < k - 1 implies n[(#[trigger] rest[i]).1] != sig by {
            assert(rest[i] == rows[i + 1]);
        }
        first_with_number(rest, n, sig, k - 1);
    }
}

proof fn row_of_fixed(n: Seq<i32>, k: int)
    requires
        unix_numbers(n),
        0 <= k < 16,
        k != 6,
        is_fixed_place(names()[k].1),
    ensures
        display_spec(n, n[names()[k].1]) == "SIG"@ + names()[k].0,
{
    let sig = n[names()[k].1];
    assert forall|i: int| 0 <= i < k implies n[(#[trigger] names()[i]).1] != sig by {
        assert(names()[i].1 != names()[k].1);
        assert(0 <= names()[i].1 < n.len());
    }
    first_with_number(names(), n, sig, k);
}

/// The signals with the same number on every unix are shown by their names.
pub proof fn fixed_signals_are_shown_by_name(n: Seq<i32>, sig: i32)
    requires
        unix_numbers(n),
        fixed_display(sig) is Some,
    ensures
        display_spec(n, sig) == fixed_display(sig)->0,
{
    reveal_strlit("SIG");
    reveal_strlit("HUP");
    reveal_strlit("SIGHUP");
    reveal_strlit("INT");
    reveal_strlit("SIGINT");
    reveal_strlit("QUIT");
    reveal_strlit("SIGQUIT");
    reveal_strlit("ILL");
    reveal_strlit("SIGILL");
    reveal_strlit("ABRT");
    reveal_strlit("SIGABRT");
    reveal_strlit("FPE");
    reveal_strlit("SIGFPE");
    reveal_strlit("KILL");
    reveal_strlit("SIGKILL");
    reveal_strlit("SEGV");
    reveal_strlit("SIGSEGV");
    reveal_strlit("ALRM");
    reveal_strlit("SIGALRM");
    reveal_strlit("TERM");
    reveal_strlit("SIGTERM");
    let k: int = match sig {
        1 => 0,
        2 => 1,
        3 => 2,
        4 => 3,
        6 => 5,
        8 => 8,
        9 => 9,
        11 => 11,
        14 => 14,
        _ => 15,
    };
    row_of_fixed(n, k);
    assert("SIG"@ + names()[k].0 =~= fixed_display(sig)->0);
}

fn show_number(sig: i32) -> (out: String)
    ensures
        out@ == unnamed(sig),
{
    let mut out = "signal ".to_string();
    if sig < 0 {
        out.append("-");
        push_decimal(&mut out, (-(sig as i64)) as u64);
    } else {
        push_decimal(&mut out, sig as u64);
    }
    out
}

/// `SIGTERM`, or `signal 42` when the number is outside the table, with the
/// platform's signal numbers.
pub fn display_with(numbers: &[i32; 29], sig: i32) -> (out: String)
    ensures
        out@ == display_spec(numbers@, sig),
{
    let table = name_table();
    let mut i: usize = 0;
    proof {
        assert(names().skip(0) =~= names());
    }
    while i < table.len()
        invariant
            i <= table.len(),
            table@.len() == names().len(),
            forall|k: int|
                0 <= k < names().len() ==> #[trigger] table@[k].0@ == names()[k].0 && table@[k].1
                    == names()[k].1,
            name_from(names(), numbers@, sig) == name_from(
                names().skip(i as int),
                numbers@,
                sig,
            ),
        decreases table.len() - i,
    {
        proof {
            assert(names().skip(i as int).drop_first() =~= names().skip(i + 1));
            assert(names().skip(i as int)[0] == names()[i as int]);
            assert(table@[i as int].0@ == names()[i as int].0);
            assert(names()[i as int].1 < SIGNAL_COUNT);
        }
        if numbers[table[i].1] == sig {
            let mut out = "SIG".to_string();
            out.append(table[i].0);
            return out;
        }
        i += 1;
    }
    show_number(sig)
}

/// `SIGTERM`, or `signal 42` when the number is outside the table.
pub fn display(sig: i32) -> (out: String)
    ensures
        fixed_display(sig) is Some ==> out@ == fixed_display(sig)->0,
        exists|n: Seq<i32>| #[trigger] unix_numbers(n) && out@ == display_spec(n, sig),
{
    let numbers = host_numbers();
    proof {
        if fixed_display(sig) is Some {
            fixed_signals_are_shown_by_name(numbers@, sig);
        }
    }
    display_with(&numbers, sig)
}

/// A signal as a platform shows it: by name where signals have names.
pub fn display_on(platform: Platform, sig: i32) -> (out: String)
    ensures
        platform == Platform::Unix && fixed_display(sig) is Some ==> out@ == fixed_display(sig)->0,
        platform == Platform::Unix ==> exists|n: Seq<i32>| #[trigger]
            unix_numbers(n) && out@ == display_spec(n, sig),
        platform == Platform::Windows ==> out@ == unnamed(sig),
{
    match platform {
        Platform::Unix => display(sig),
        Platform::Windows => show_number(sig),
    }
}

// ---------------------------------------------------------------------------
// Laws
// ---------------------------------------------------------------------------

/// Only capital letters and digits, a letter first, and no `SIG` in front.
pub open spec fn plain_name(s: Seq<char>) -> bool {
    &&& s.len() > 0
    &&& 'A' <= s[0] <= 'Z'
    &&& forall|i: int| 0 <= i < s.len() ==> 'A' <= #[trigger] s[i] <= 'Z' || '0' <= s[i] <= '9'
    &&& !crate::text::starts_with_spec(s, "SIG"@)
}

/// What the names are like: plain, each with a place among the numbers, and
/// all different.
pub proof fn names_are_plain_and_differ(i: int, j: int)
    requires
        0 <= i < names().len(),
        0 <= j < names().len(),
    ensures
        plain_name(names()[i].0),
        0 <= names()[i].1 < SIGNAL_COUNT,
        i != j ==> names()[i].0 != names()[j].0,
{
    reveal_strlit("SIG");
    reveal_strlit("HUP");
    reveal_strlit("INT");
    reveal_strlit("QUIT");
    reveal_strlit("ILL");
    reveal_strlit("TRAP");
    reveal_strlit("ABRT");
    reveal_strlit("IOT");
    reveal_strlit("BUS");
    reveal_strlit("FPE");
    reveal_strlit("KILL");
    reveal_strlit("USR1");
    reveal_strlit("SEGV");
    reveal_strlit("USR2");
    reveal_strlit("PIPE");
    reveal_strlit("ALRM");
    reveal_strlit("TERM");
    reveal_strlit("CHLD");
    reveal_strlit("CLD");
    reveal_strlit("CONT");
    reveal_strlit("STOP");
    reveal_strlit("TSTP");
    reveal_strlit("TTIN");
    reveal_strlit("TTOU");
    reveal_strlit("URG");
    reveal_strlit("XCPU");
    reveal_strlit("XFSZ");
    reveal_strlit("VTALRM");
    reveal_strlit("PROF");
    reveal_strlit("WINCH");
    reveal_strlit("IO");
    reveal_strlit("POLL");
    reveal_strlit("SYS");
    let a = names()[i].0;
    let b = names()[j].0;
    assert("SIG"@[1] == 'I');
    assert("SIG"@[0] == 'S');
    assert(crate::text::starts_with_spec(a, "SIG"@) ==> a.len() >= 3 && a[1] == a.take(3)[1]);
    assert(i != j ==> a.len() != b.len() || a[0] != b[0] || a[1] != b[1] || a[2] != b[2] || a[3]
        != b[3]);
}

proof fn place_of_row(rows: Seq<(Seq<char>, int)>, i: int)
    requires
        0 <= i < rows.len(),
        forall|a: int, b: int| 0 <= a < b < rows.len() ==> #[trigger] rows[a].0 != #[trigger] rows[b].0,
    ensures
        place_from(rows, rows[i].0) == Some(rows[i].1),
    decreases rows.len(),
{
    if i > 0 {
        assert(rows[0].0 != rows[i].0);
        let rest = rows.drop_first();
        assert forall|a: int, b: int| 0 <= a < b < rest.len() implies #[trigger] rest[a].0
            != #[trigger] rest[b].0 by {
            assert(rows[a + 1].0 != rows[b + 1].0);
        }
        place_of_row(rest, i - 1);
        assert(rest[i - 1] == rows[i]);
    }
}

/// Each name of the vocabulary is found at its place.
pub proof fn place_of_name(i: int)
    requires
        0 <= i < names().len(),
    ensures
        place(names()[i].0) == Some(names()[i].1),
{
    assert forall|a: int, b: int| 0 <= a < b < names().len() implies #[trigger] names()[a].0
        != #[trigger] names()[b].0 by {
        names_are_plain_and_differ(a, b);
    }
    place_of_row(names(), i);
}

/// A place that is found is that of a row with this name.
pub proof fn place_in_table(rows: Seq<(Seq<char>, int)>, name: Seq<char>)
    ensures
        place_from(rows, name) is Some ==> exists|i: int|
            0 <= i < rows.len() && #[trigger] rows[i].0 == name && place_from(rows, name) == Some(
                rows[i].1,
            ),
    decreases rows.len(),
{
    if rows.len() > 0 && rows[0].0 != name {
        place_in_table(rows.drop_first(), name);
        if place_from(rows, name) is Some {
            let i = choose|i: int|
                0 <= i < rows.drop_first().len() && #[trigger] rows.drop_first()[i].0 == name
                    && place_from(rows.drop_first(), name) == Some(rows.drop_first()[i].1);
            assert(rows[i + 1] == rows.drop_first()[i]);
        }
    }
}

/// Whatever is read is a signal number from 1 to 64; in particular never 0.
pub proof fn only_signal_numbers_are_read(n: Seq<i32>, text: Seq<char>)
    requires
        unix_numbers(n),
    ensures
        parse_spec(n, text) matches Ok(sig) ==> 1 <= sig <= 64,
{
    let name = without_sig(upper(without_dashes(crate::text::trim_spec(text))));
    place_in_table(names(), name);
    if place(name) is Some {
        let i = choose|i: int|
            0 <= i < names().len() && #[trigger] names()[i].0 == name && place(name) == Some(
                names()[i].1,
            );
        names_are_plain_and_differ(i, i);
    }
}

/// A number outside of 1 to 64 is an error, 0 among them: it is the existence
/// probe of `kill`, no signal.
pub proof fn other_numbers_are_rejected(n: Seq<i32>, text: Seq<char>, v: int)
    requires
        crate::text::numeral_upto(
            without_dashes(crate::text::trim_spec(text)),
            false,
            i32::MAX as int,
        ) == Some(v),
        v < 1 || v > 64,
    ensures
        parse_spec(n, text) is Err,
{
}

proof fn nothing_to_trim(s: Seq<char>)
    requires
        s.len() > 0,
        !crate::text::is_space(s[0]),
        !crate::text::is_space(s.last()),
    ensures
        crate::text::trim_spec(s) == s,
{
}

proof fn not_a_numeral(s: Seq<char>)
    requires
        s.len() > 0,
        'A' <= s[0] <= 'Z',
    ensures
        crate::text::numeral(s, false) is None,
    decreases s.len(),
{
    if s.len() > 1 {
        not_a_numeral(s.drop_last());
    }
}

proof fn upper_keeps(s: Seq<char>)
    requires
        forall|i: int| 0 <= i < s.len() ==> 'A' <= #[trigger] s[i] <= 'Z' || '0' <= s[i] <= '9',
    ensures
        upper(s) == s,
{
    assert(upper(s) =~= s);
}

/// Every name of the vocabulary is read as its signal, alone, with `SIG` in
/// front, and with a dash in front of either.
pub proof fn every_name_is_read(n: Seq<i32>, i: int)
    requires
        0 <= i < names().len(),
    ensures
        parse_spec(n, names()[i].0) == Ok::<i32, Seq<char>>(n[names()[i].1]),
        parse_spec(n, "SIG"@ + names()[i].0) == Ok::<i32, Seq<char>>(n[names()[i].1]),
        parse_spec(n, "-"@ + names()[i].0) == Ok::<i32, Seq<char>>(n[names()[i].1]),
        parse_spec(n, "-SIG"@ + names()[i].0) == Ok::<i32, Seq<char>>(n[names()[i].1]),
{
    names_are_plain_and_differ(i, i);
    place_of_name(i);
    let name = names()[i].0;
    reveal_strlit("SIG");
    reveal_strlit("-");
    reveal_strlit("-SIG");
    reads_as(n, name, name);
    let long = "SIG"@ + name;
    assert(long.take(3) =~= "SIG"@);
    assert(long.skip(3) =~= name);
    reads_as(n, long, long);
    assert(("-"@ + name).drop_first() =~= name);
    assert(("-"@ + name).last() == name.last());
    assert(without_dashes("-"@ + name) == without_dashes(name));
    reads_as(n, "-"@ + name, name);
    assert(("-SIG"@ + name).drop_first() =~= long);
    assert(("-SIG"@ + name).last() == name.last());
    assert(without_dashes("-SIG"@ + name) == without_dashes(long));
    reads_as(n, "-SIG"@ + name, long);
}

proof fn reads_as(n: Seq<i32>, text: Seq<char>, plain: Seq<char>)
    requires
        text.len() > 0,
        !crate::text::is_space(text[0]),
        !crate::text::is_space(text.last()),
        without_dashes(text) == plain,
        plain.len() > 0,
        'A' <= plain[0] <= 'Z',
        forall|i: int|
            0 <= i < plain.len() ==> 'A' <= #[trigger] plain[i] <= 'Z' || '0' <= plain[i] <= '9',
        place(without_sig(plain)) is Some,
    ensures
        parse_spec(n, text) == Ok::<i32, Seq<char>>(n[place(without_sig(plain))->0]),
{
    nothing_to_trim(text);
    not_a_numeral(plain);
    upper_keeps(plain);
}

/// A name that is found is that of a row with this number; where none is found,
/// no row has it.
pub proof fn name_in_table(rows: Seq<(Seq<char>, int)>, n: Seq<i32>, sig: i32)
    ensures
        match name_from(rows, n, sig) {
            Some(name) => exists|i: int|
                0 <= i < rows.len() && #[trigger] rows[i].0 == name && n[rows[i].1] == sig,
            None => forall|i: int| 0 <= i < rows.len() ==> n[(#[trigger] rows[i]).1] != sig,
        },
    decreases rows.len(),
{
    if rows.len() > 0 && n[rows[0].1] != sig {
        let rest = rows.drop_first();
        name_in_table(rest, n, sig);
        match name_from(rows, n, sig) {
            Some(name) => {
                let i = choose|i: int|
                    0 <= i < rest.len() && #[trigger] rest[i].0 == name && n[rest[i].1] == sig;
                assert(rows[i + 1] == rest[i]);
            },
            None => {
                assert forall|i: int| 0 <= i < rows.len() implies n[(#[trigger] rows[i]).1]
                    != sig by {
                    if i > 0 {
                        assert(rest[i - 1] == rows[i]);
                    }
                }
            },
        }
    }
}

/// What `display` shows for a signal of the vocabulary, `parse` reads back.
pub proof fn a_shown_name_is_read_back(n: Seq<i32>, i: int)
    requires
        0 <= i < names().len(),
    ensures
        parse_spec(n, display_spec(n, n[names()[i].1])) == Ok::<i32, Seq<char>>(n[names()[i].1]),
{
    let sig = n[names()[i].1];
    name_in_table(names(), n, sig);
    let name = name_from(names(), n, sig)->0;
    let j = choose|j: int|
        0 <= j < names().len() && #[trigger] names()[j].0 == name && n[names()[j].1] == sig;
    every_name_is_read(n, j);
}

proof fn dashes_commute(s: Seq<char>)
    ensures
        without_dashes(upper(s)) == upper(without_dashes(s)),
    decreases s.len(),
{
    if s.len() > 0 && s[0] == '-' {
        assert(upper(s).drop_first() =~= upper(s.drop_first()));
        dashes_commute(s.drop_first());
    }
}

proof fn trim_start_commutes(s: Seq<char>)
    ensures
        crate::text::trim_start_spec(upper(s)) == upper(crate::text::trim_start_spec(s)),
    decreases s.len(),
{
    if s.len() > 0 && crate::text::is_space(s[0]) {
        assert(upper(s).drop_first() =~= upper(s.drop_first()));
        trim_start_commutes(s.drop_first());
    }
}

proof fn trim_end_commutes(s: Seq<char>)
    ensures
        crate::text::trim_end_spec(upper(s)) == upper(crate::text::trim_end_spec(s)),
    decreases s.len(),
{
    if s.len() > 0 && crate::text::is_space(s.last()) {
        assert(upper(s).drop_last() =~= upper(s.drop_last()));
        trim_end_commutes(s.drop_last());
    }
}

proof fn digits_commute(s: Seq<char>)
    ensures
        crate::text::digits_value(upper(s), false) == crate::text::digits_value(s, false),
    decreases s.len(),
{
    if s.len() > 0 {
        assert(upper(s).drop_last() =~= upper(s.drop_last()));
        digits_commute(s.drop_last());
    }
}

proof fn numeral_commutes(s: Seq<char>)
    ensures
        crate::text::numeral(upper(s), false) == crate::text::numeral(s, false),
{
    if s.len() > 0 && s[0] == '+' {
        assert(upper(s).drop_first() =~= upper(s.drop_first()));
        digits_commute(s.drop_first());
    } else {
        digits_commute(s);
    }
}

/// The case of a signal argument's letters does not matter.
pub proof fn case_is_ignored(n: Seq<i32>, a: Seq<char>, b: Seq<char>)
    requires
        upper(a) == upper(b),
    ensures
        parse_spec(n, a) is Ok == parse_spec(n, b) is Ok,
        parse_spec(n, a) is Ok ==> parse_spec(n, a) == parse_spec(n, b),
{
    reads_like_upper(a);
    reads_like_upper(b);
}

proof fn reads_like_upper(s: Seq<char>)
    ensures
        upper(without_dashes(crate::text::trim_spec(s))) == without_dashes(
            crate::text::trim_spec(upper(s)),
        ),
        crate::text::numeral(without_dashes(crate::text::trim_spec(s)), false)
            == crate::text::numeral(without_dashes(crate::text::trim_spec(upper(s))), false),
{
    trim_start_commutes(s);
    trim_end_commutes(crate::text::trim_start_spec(s));
    dashes_commute(crate::text::trim_spec(s));
    numeral_commutes(without_dashes(crate::text::trim_spec(s)));
}

/// The signal that an argument is read as, if it is one.
pub open spec fn signal_read(n: Seq<i32>, text: Seq<char>) -> Option<i32> {
    match parse_spec(n, text) {
        Ok(sig) => Some(sig),
        Err(_) => None,
    }
}

/// An upper case ASCII letter in lower case; any other character as it is.
pub open spec fn lower_char(c: char) -> char {
    if 'A' <= c <= 'Z' {
        (c as int + 32) as char
    } else {
        c
    }
}

/// The text with its ASCII letters in lower case.
pub open spec fn lower(s: Seq<char>) -> Seq<char> {
    s.map_values(|c: char| lower_char(c))
}

/// An ASCII letter or digit.
pub open spec fn is_word_char(c: char) -> bool {
    'a' <= c <= 'z' || 'A' <= c <= 'Z' || '0' <= c <= '9'
}

/// A word of ASCII letters and digits that is no number and has no `SIG` in
/// front, in whatever case.
pub open spec fn is_bare_word(s: Seq<char>) -> bool {
    &&& forall|i: int| 0 <= i < s.len() ==> is_word_char(#[trigger] s[i])
    &&& crate::text::numeral(s, false) is None
    &&& !crate::text::starts_with_spec(upper(s), "SIG"@)
}

proof fn word_reads_as(n: Seq<i32>, text: Seq<char>, plain: Seq<char>)
    requires
        text.len() > 0 ==> !crate::text::is_space(text[0]) && !crate::text::is_space(text.last()),
        without_dashes(text) == plain,
        crate::text::numeral(plain, false) is None,
    ensures
        signal_read(n, text) == (match place(without_sig(upper(plain))) {
            Some(i) => Some(n[i]),
            None => None,
        }),
{
    if text.len() > 0 {
        nothing_to_trim(text);
    }
}

proof fn letter_first_is_no_numeral(s: Seq<char>)
    requires
        s.len() > 0,
        'A' <= upper_char(s[0]) <= 'Z',
    ensures
        crate::text::numeral(s, false) is None,
{
    not_a_numeral(upper(s));
    numeral_commutes(s);
}

/// For every word, and not only for the names of signals: it is read alike with
/// and without `SIG` in front, with a dash, in lower case and in upper case.
pub proof fn a_word_is_read_alike(n: Seq<i32>, word: Seq<char>)
    requires
        is_bare_word(word),
    ensures
        signal_read(n, "SIG"@ + word) == signal_read(n, word),
        signal_read(n, "sig"@ + word) == signal_read(n, word),
        signal_read(n, "-"@ + word) == signal_read(n, word),
        signal_read(n, lower(word)) == signal_read(n, word),
        signal_read(n, upper(word)) == signal_read(n, word),
{
    reveal_strlit("SIG");
    reveal_strlit("sig");
    reveal_strlit("-");
    assert(word.len() > 0 ==> is_word_char(word[0]) && is_word_char(word[word.len() - 1]));
    assert(without_dashes(word) == word);
    word_reads_as(n, word, word);

    let long = "SIG"@ + word;
    let big = upper(long);
    assert(big =~= "SIG"@ + upper(word));
    assert(big.take(3) =~= "SIG"@);
    assert(big.skip(3) =~= upper(word));
    assert(word.len() > 0 ==> long.last() == word.last());
    assert(without_dashes(long) == long);
    letter_first_is_no_numeral(long);
    word_reads_as(n, long, long);

    let short = "sig"@ + word;
    assert(upper(short) =~= upper(long));
    case_is_ignored(n, short, long);

    let dashed = "-"@ + word;
    assert(dashed.drop_first() =~= word);
    assert(word.len() > 0 ==> dashed.last() == word.last());
    assert(without_dashes(dashed) == without_dashes(word));
    word_reads_as(n, dashed, word);

    assert(upper(lower(word)) =~= upper(word));
    case_is_ignored(n, lower(word), word);
    assert(upper(upper(word)) =~= upper(word));
    case_is_ignored(n, upper(word), word);
}

/// The form that shows a signal by its number alone is not read as a signal.
proof fn the_unnamed_form_is_refused(n: Seq<i32>, sig: i32)
    ensures
        parse_spec(n, unnamed(sig)) is Err,
{
    reveal_strlit("signal ");
    reveal_strlit("SIG");
    reveal_strlit("-");
    let text = unnamed(sig);
    let number = signed(sig as int);
    crate::text::decimal_reads_back(if sig < 0 { (-sig) as nat } else { sig as nat });
    assert(text.last() == number.last());
    assert('0' <= number.last() <= '9');
    assert(text[0] == 's');
    assert(without_dashes(text) == text);
    letter_first_is_no_numeral(text);
    word_reads_as(n, text, text);
    let big = upper(text);
    assert(big.take(3) =~= "SIG"@);
    let name = without_sig(big);
    assert(name == big.skip(3));
    assert(name[3] == ' ');
    place_in_table(names(), name);
    if place(name) is Some {
        let i = choose|i: int|
            0 <= i < names().len() && #[trigger] names()[i].0 == name && place(name) == Some(
                names()[i].1,
            );
        names_are_plain_and_differ(i, i);
        assert('A' <= names()[i].0[3] <= 'Z' || '0' <= names()[i].0[3] <= '9');
    }
}

/// A signal number is read back from its decimal form and, where it has a name,
/// from that name with and without `SIG`. Where it has none, the form in which
/// it is shown is refused.
pub proof fn what_is_shown_is_read_back(n: Seq<i32>, sig: i32)
    requires
        1 <= sig <= 64,
    ensures
        parse_spec(n, crate::text::decimal_spec(sig as nat)) == Ok::<i32, Seq<char>>(sig),
        match name_from(names(), n, sig) {
            Some(name) => {
                &&& display_spec(n, sig) == "SIG"@ + name
                &&& parse_spec(n, "SIG"@ + name) == Ok::<i32, Seq<char>>(sig)
                &&& parse_spec(n, name) == Ok::<i32, Seq<char>>(sig)
            },
            None => display_spec(n, sig) == unnamed(sig) && parse_spec(n, unnamed(sig)) is Err,
        },
{
    let digits = crate::text::decimal_spec(sig as nat);
    crate::text::decimal_reads_back(sig as nat);
    assert(digits.len() > 0);
    assert('0' <= digits[0] <= '9' && '0' <= digits[digits.len() - 1] <= '9');
    nothing_to_trim(digits);
    assert(without_dashes(digits) == digits);
    name_in_table(names(), n, sig);
    match name_from(names(), n, sig) {
        Some(name) => {
            let j = choose|j: int|
                0 <= j < names().len() && #[trigger] names()[j].0 == name && n[names()[j].1]
                    == sig;
            every_name_is_read(n, j);
        },
        None => {
            the_unnamed_form_is_refused(n, sig);
        },
    }
}

} // verus!
