//! What a pid file records, which are listed, and how they are shown.

use vstd::prelude::*;

use crate::registry::{Entry, Liveness, Record, RunFile};

verus! {

/// What an entry records is what it holds, field by field.
pub proof fn an_entry_records_what_it_holds(e: Entry)
    ensures
        e.record().pid == e.pid,
        e.record().label == e.label@,
        e.record().started == e.started@,
        e.record().cmd == e.cmd@,
        e.record().log == e.log@,
{
}

// ---------------------------------------------------------------------------
// Records
// ---------------------------------------------------------------------------

/// The line is `<key>=` and whatever follows.
pub open spec fn sets(line: Seq<char>, key: Seq<char>) -> bool {
    line.len() > key.len() && line.take(key.len() as int) == key && line[key.len() as int] == '='
}

/// Some line is `<key>=<value>`, and none behind it sets the key again.
pub open spec fn says(rows: Seq<Seq<char>>, key: Seq<char>, value: Seq<char>) -> bool {
    exists|i: int| #[trigger] says_at(rows, i, key, value)
}

/// The line at this place is the one that says so.
pub open spec fn says_at(rows: Seq<Seq<char>>, i: int, key: Seq<char>, value: Seq<char>) -> bool {
    &&& 0 <= i < rows.len()
    &&& rows[i] == key + seq!['='] + value
    &&& forall|j: int| i < j < rows.len() ==> !sets(#[trigger] rows[j], key)
}

/// A key: some letters.
pub open spec fn is_key(key: Seq<char>) -> bool {
    forall|i: int| 0 <= i < key.len() ==> 'a' <= #[trigger] key[i] <= 'z'
}

proof fn a_line_sets_its_key(line: Seq<char>, key: Seq<char>, value: Seq<char>)
    requires
        is_key(key),
    ensures
        crate::registry::key_of(line) == Some(key) <==> sets(line, key),
        crate::registry::key_of(line) == Some(key) ==> (crate::registry::value_of(line) == value
            <==> line == key + seq!['='] + value),
        line == key + seq!['='] + value ==> sets(line, key),
{
    let n = key.len() as int;
    crate::text::find_bounds(line, '=');
    if sets(line, key) {
        assert forall|k: int| 0 <= k < n implies line[k] != '=' by {
            assert(line[k] == line.take(n)[k]);
        }
        crate::text::find_is(line, '=', n);
    }
    if crate::registry::key_of(line) == Some(key) {
        let at = crate::text::find_spec(line, '=');
        assert(at == n);
        assert(line =~= key + seq!['='] + line.skip(n + 1));
        if line == key + seq!['='] + value {
            assert(line.skip(n + 1) =~= value);
        }
    }
    if line == key + seq!['='] + value {
        assert(line.take(n) =~= key);
    }
}

/// A key has the value of the last line that sets it.
pub proof fn the_last_line_of_a_key_counts(
    rows: Seq<Seq<char>>,
    key: Seq<char>,
    value: Seq<char>,
)
    requires
        is_key(key),
    ensures
        crate::registry::lookup(rows, key) == Some(value) <==> says(rows, key, value),
        crate::registry::lookup(rows, key) is None <==> forall|i: int|
            0 <= i < rows.len() ==> !sets(#[trigger] rows[i], key),
    decreases rows.len(),
{
    let n = rows.len() - 1;
    if rows.len() > 0 {
        let front = rows.drop_last();
        the_last_line_of_a_key_counts(front, key, value);
        a_line_sets_its_key(rows[n], key, value);
        if crate::registry::key_of(rows[n]) == Some(key) {
            assert(sets(rows[n], key));
            if crate::registry::value_of(rows[n]) == value {
                assert(says_at(rows, n, key, value));
            }
            if says(rows, key, value) {
                let i = choose|i: int| #[trigger] says_at(rows, i, key, value);
                if i < n {
                    assert(!sets(rows[n], key));
                }
            }
        } else {
            if says(front, key, value) {
                let i = choose|i: int| #[trigger] says_at(front, i, key, value);
                assert(rows[i] == front[i]);
                assert forall|j: int| i < j < rows.len() implies !sets(#[trigger] rows[j], key) by {
                    if j < n {
                        assert(rows[j] == front[j]);
                    }
                }
                assert(says_at(rows, i, key, value));
            }
            if says(rows, key, value) {
                let i = choose|i: int| #[trigger] says_at(rows, i, key, value);
                if i < n {
                    assert(rows[i] == front[i]);
                    assert forall|j: int| i < j < front.len() implies !sets(
                        #[trigger] front[j],
                        key,
                    ) by {
                        assert(rows[j] == front[j]);
                    }
                    assert(says_at(front, i, key, value));
                }
            }
            if crate::registry::lookup(front, key) is None {
                assert forall|i: int| 0 <= i < rows.len() implies !sets(#[trigger] rows[i], key) by {
                    if i < n {
                        assert(rows[i] == front[i]);
                    }
                }
            }
            if forall|i: int| 0 <= i < rows.len() ==> !sets(#[trigger] rows[i], key) {
                assert forall|i: int| 0 <= i < front.len() implies !sets(
                    #[trigger] front[i],
                    key,
                ) by {
                    assert(rows[i] == front[i]);
                }
            }
        }
    } else if says(rows, key, value) {
        let i = choose|i: int| #[trigger] says_at(rows, i, key, value);
    }
}

/// The text says so of a key, or does not set it and the value is empty.
pub open spec fn says_or_leaves_empty(
    rows: Seq<Seq<char>>,
    key: Seq<char>,
    value: Seq<char>,
) -> bool {
    says(rows, key, value) || (value.len() == 0 && forall|i: int|
        0 <= i < rows.len() ==> !sets(#[trigger] rows[i], key))
}

/// A text is a registration exactly where it has a `pid=`, a `label=` and a
/// `log=` line, the pid being a number that one can be, and it records what
/// those lines say; `started=` and `cmd=` may be left out. Lines with other
/// keys, and lines in between, change nothing.
#[verifier::spinoff_prover]
pub proof fn a_text_records_what_its_lines_say(text: Seq<char>, r: Record)
    ensures
        crate::registry::recorded(text) == Some(r) <==> {
            let rows = crate::text::lines_spec(text);
            &&& exists|digits: Seq<char>| #[trigger]
                says(rows, "pid"@, digits) && crate::text::numeral(digits, false) == Some(
                    r.pid as int,
                )
            &&& says(rows, "label"@, r.label)
            &&& says(rows, "log"@, r.log)
            &&& says_or_leaves_empty(rows, "started"@, r.started)
            &&& says_or_leaves_empty(rows, "cmd"@, r.cmd)
        },
{
    reveal_strlit("pid");
    reveal_strlit("label");
    reveal_strlit("started");
    reveal_strlit("cmd");
    reveal_strlit("log");
    let rows = crate::text::lines_spec(text);
    the_last_line_of_a_key_counts(rows, "label"@, r.label);
    the_last_line_of_a_key_counts(rows, "log"@, r.log);
    the_last_line_of_a_key_counts(rows, "started"@, r.started);
    the_last_line_of_a_key_counts(rows, "cmd"@, r.cmd);
    assert forall|d: Seq<char>| #[trigger]
        says(rows, "pid"@, d) <==> crate::registry::lookup(rows, "pid"@) == Some(d) by {
        the_last_line_of_a_key_counts(rows, "pid"@, d);
    }
    if r.started.len() == 0 {
        assert(r.started =~= Seq::<char>::empty());
    }
    if r.cmd.len() == 0 {
        assert(r.cmd =~= Seq::<char>::empty());
    }
    if let Some(d) = crate::registry::lookup(rows, "pid"@) {
        crate::text::numeral_not_negative(d, false);
        assert(says(rows, "pid"@, d));
    }
}

/// A pid file has a line for each thing that it records, in this order, for
/// values that fit on a line each.
#[verifier::spinoff_prover]
pub proof fn a_pid_file_has_five_lines(r: Record)
    requires
        crate::registry::one_line(r.label),
        crate::registry::one_line(r.started),
        crate::registry::one_line(r.cmd),
        crate::registry::one_line(r.log),
    ensures
        crate::text::lines_spec(crate::registry::record_text(r)) == seq![
            "pid="@ + crate::text::decimal_spec(r.pid as nat),
            "label="@ + r.label,
            "started="@ + r.started,
            "cmd="@ + r.cmd,
            "log="@ + r.log,
        ],
{
    reveal_strlit("pid");
    reveal_strlit("label");
    reveal_strlit("started");
    reveal_strlit("cmd");
    reveal_strlit("log");
    reveal_strlit("pid=");
    reveal_strlit("label=");
    reveal_strlit("started=");
    reveal_strlit("cmd=");
    reveal_strlit("log=");
    reveal_strlit("=");
    reveal_strlit("\n");
    let number = crate::text::decimal_spec(r.pid as nat);
    crate::laws::text::a_decimal_has_no_leading_zero(r.pid as nat);
    let t5 = Seq::<char>::empty();
    let t4 = crate::registry::record_line("log"@, r.log) + t5;
    let t3 = crate::registry::record_line("cmd"@, r.cmd) + t4;
    let t2 = crate::registry::record_line("started"@, r.started) + t3;
    let t1 = crate::registry::record_line("label"@, r.label) + t2;
    let t0 = crate::registry::record_line("pid"@, number) + t1;
    a_written_line_is_read("log="@, r.log, t5);
    assert(t4 =~= "log="@ + r.log + seq!['\n'] + t5);
    a_written_line_is_read("cmd="@, r.cmd, t4);
    assert(t3 =~= "cmd="@ + r.cmd + seq!['\n'] + t4);
    a_written_line_is_read("started="@, r.started, t3);
    assert(t2 =~= "started="@ + r.started + seq!['\n'] + t3);
    a_written_line_is_read("label="@, r.label, t2);
    assert(t1 =~= "label="@ + r.label + seq!['\n'] + t2);
    a_written_line_is_read("pid="@, number, t1);
    assert(t0 =~= "pid="@ + number + seq!['\n'] + t1);
    assert(crate::registry::record_text(r) =~= t0);
    assert(crate::text::lines_spec(t5) =~= Seq::<Seq<char>>::empty());
}

proof fn a_written_line_is_read(front: Seq<char>, value: Seq<char>, rest: Seq<char>)
    requires
        front.len() > 0,
        front.last() == '=',
        forall|i: int| 0 <= i < front.len() ==> #[trigger] front[i] != '\n',
        crate::registry::one_line(value),
    ensures
        crate::text::lines_spec(front + value + seq!['\n'] + rest) == seq![front + value]
            + crate::text::lines_spec(rest),
{
    let line = front + value;
    assert forall|i: int| 0 <= i < line.len() implies #[trigger] line[i] != '\n' by {
        if i < front.len() {
            assert(line[i] == front[i]);
        } else {
            assert(line[i] == value[i - front.len()]);
        }
    }
    if value.len() > 0 {
        assert(line.last() == value.last());
    } else {
        assert(line.last() == front.last());
    }
    crate::laws::text::an_ended_line_is_read_without_its_ending(line, rest);
}

/// A pid file is named after its label and its pid.
pub proof fn a_pid_file_is_named_after_its_process(label: Seq<char>, pid: u32)
    ensures
        crate::registry::pid_file_name(label, pid) == label + "."@ + crate::text::decimal_spec(
            pid as nat,
        ) + ".pid"@,
{
}

/// A pid file is one by its name: something, and `.pid` behind it.
pub proof fn a_pid_file_is_one_by_its_name(name: Seq<char>)
    ensures
        crate::registry::is_pid_file_spec(name) <==> exists|stem: Seq<char>|
            stem.len() > 0 && name == #[trigger] (stem + ".pid"@),
{
    reveal_strlit(".pid");
    crate::laws::text::a_suffix_stands_behind(name, ".pid"@);
    if crate::registry::is_pid_file_spec(name) {
        let stem = choose|stem: Seq<char>| name == #[trigger] (stem + ".pid"@);
        assert(stem.len() > 0);
    }
}

// ---------------------------------------------------------------------------
// Listing
// ---------------------------------------------------------------------------

/// What is listed is recorded in a pid file that could be read, and every such
/// file is listed.
pub proof fn what_is_listed_is_registered(entries: Seq<Entry>, files: Seq<RunFile>, i: int, f: int)
    requires
        crate::registry::lists(entries, files),
    ensures
        0 <= i < entries.len() ==> entries[i].file < files.len() && ({
            let file = files[entries[i].file as int];
            &&& crate::registry::is_pid_file_spec(file.name@)
            &&& file.text is Some
            &&& crate::registry::recorded(file.text->0@) == Some(entries[i].record())
        }),
        0 <= f < files.len() && crate::registry::is_pid_file_spec(files[f].name@)
            && files[f].text is Some && crate::registry::recorded(files[f].text->0@) is Some
            ==> exists|k: int| 0 <= k < entries.len() && (#[trigger] entries[k]).file == f,
{
    if 0 <= i < entries.len() {
        assert(entries[i].file < files.len());
    }
    if 0 <= f < files.len() && crate::registry::is_pid_file_spec(files[f].name@)
        && files[f].text is Some && crate::registry::recorded(files[f].text->0@) is Some {
        assert(crate::registry::registration(files[f]) is Some);
    }
}

/// The list is sorted by label, and under one label by pid. No file is listed
/// twice.
pub proof fn the_list_is_sorted(entries: Seq<Entry>, files: Seq<RunFile>, i: int, j: int)
    requires
        crate::registry::lists(entries, files),
        0 <= i < j < entries.len(),
    ensures
        crate::order::text_leq(entries[i].label@, entries[j].label@),
        entries[i].label@ == entries[j].label@ ==> entries[i].pid <= entries[j].pid,
        entries[i].file != entries[j].file,
{
    let (a, b) = (entries[i], entries[j]);
    assert(crate::registry::listed_before(a, b));
    crate::order::text_leq_refl(a.label@);
    if a.file == b.file {
        assert(a.record() == b.record());
    }
}

// ---------------------------------------------------------------------------
// Liveness
// ---------------------------------------------------------------------------

/// A process is a zombie where the first character behind its command, which
/// stands in parentheses, is `Z`. What the command itself holds does not count.
pub proof fn the_state_stands_behind_the_command(front: Seq<char>, behind: Seq<char>)
    requires
        forall|k: int|
            0 <= k < behind.len() - 1 ==> !(#[trigger] behind[k] == ')' && behind[k + 1] == ' '),
    ensures
        crate::registry::zombie_spec(front + seq![')', ' '] + behind) <==> behind.len() > 0
            && behind[0] == 'Z',
{
    let s = front + seq![')', ' '] + behind;
    let n = front.len() as int;
    crate::text::rfind_pair_bounds(s, ')', ' ');
    let at = crate::text::rfind_pair_spec(s, ')', ' ');
    assert(s[n] == ')' && s[n + 1] == ' ');
    if at > n + 1 {
        assert(s[at] == behind[at - n - 2]);
        assert(s[at + 1] == behind[at - n - 1]);
    }
    assert(at == n);
    if behind.len() > 0 {
        assert(s[n + 2] == behind[0]);
    }
}

/// A status without a command in parentheses shows no zombie.
pub proof fn no_command_is_no_zombie(s: Seq<char>)
    requires
        forall|k: int| 0 <= k < s.len() - 1 ==> !(#[trigger] s[k] == ')' && s[k + 1] == ' '),
    ensures
        !crate::registry::zombie_spec(s),
{
    crate::text::rfind_pair_bounds(s, ')', ' ');
}

/// A process is dead exactly where there is a probe and it does not answer, or
/// is a zombie; nothing is known exactly where there is no probe.
pub proof fn a_zombie_is_dead(answered: bool, zombie: bool)
    ensures
        crate::registry::liveness_spec(crate::signal::Platform::Unix, answered, zombie)
            == Liveness::Dead <==> !answered || zombie,
        crate::registry::liveness_spec(crate::signal::Platform::Unix, answered, zombie)
            != Liveness::Unknown,
        crate::registry::liveness_spec(crate::signal::Platform::Windows, answered, zombie)
            == Liveness::Unknown,
{
}

/// Each pid file of a process that is known to be dead is swept once, in the
/// order of the list.
pub proof fn the_dead_are_swept_in_order(
    entries: Seq<(Entry, Liveness)>,
    e: Entry,
    state: Liveness,
)
    ensures
        crate::registry::dead_files(Seq::empty()).len() == 0,
        crate::registry::dead_files(entries.push((e, state))) == if state == Liveness::Dead {
            crate::registry::dead_files(entries).push(e.file)
        } else {
            crate::registry::dead_files(entries)
        },
{
    assert(entries.push((e, state)).drop_last() =~= entries);
}

// ---------------------------------------------------------------------------
// ps
// ---------------------------------------------------------------------------

/// `n` characters that are all blank.
pub open spec fn blank(n: int) -> Seq<char> {
    Seq::new(n as nat, |i: int| ' ')
}

/// A row of `ps` shows the label, the pid, the state, when it was started, the
/// command and the log, in this order and in full. The pid ends at column 24
/// and the state begins at 26, as far as what comes before is not too long.
#[verifier::spinoff_prover]
pub proof fn a_row_shows_its_entry(r: Record, state: Liveness)
    ensures
        ({
            let number = crate::text::decimal_spec(r.pid as nat);
            let word = match state {
                Liveness::Running => "running"@,
                Liveness::Dead => "dead"@,
                Liveness::Unknown => "unknown"@,
            };
            let a = (if r.label.len() < 16 {
                16 - r.label.len()
            } else {
                0
            }) + 1 + (if number.len() < 7 {
                7 - number.len()
            } else {
                0
            });
            let c = (if r.started.len() < 19 {
                19 - r.started.len()
            } else {
                0
            }) + 1;
            crate::registry::entry_row(r, state) == r.label + blank(a) + number + blank(2) + word
                + blank(10 - word.len()) + r.started + blank(c) + r.cmd + " -> "@ + r.log
                + seq!['\n']
        }),
{
    reveal_strlit("running");
    reveal_strlit("dead");
    reveal_strlit("unknown");
    reveal_strlit(" ");
    reveal_strlit("  ");
    reveal_strlit("\n");
    reveal_strlit(" -> ");
    let number = crate::text::decimal_spec(r.pid as nat);
    let word = match state {
        Liveness::Running => "running"@,
        Liveness::Dead => "dead"@,
        Liveness::Unknown => "unknown"@,
    };
    let a1 = 16 - r.label.len();
    let a2 = 7 - number.len();
    let c1 = 19 - r.started.len();
    let a = (if a1 > 0 {
        a1
    } else {
        0
    }) + 1 + (if a2 > 0 {
        a2
    } else {
        0
    });
    let c = (if c1 > 0 {
        c1
    } else {
        0
    }) + 1;
    let (s1, s2) = (crate::registry::spaces(a1), crate::registry::spaces(a2));
    let s3 = crate::registry::spaces(9 - word.len());
    let s4 = crate::registry::spaces(c1);
    assert(s1 + " "@ + s2 =~= blank(a));
    assert(s3 + " "@ =~= blank(10 - word.len()));
    assert(s4 + " "@ =~= blank(c));
    assert("  "@ =~= blank(2));
    assert("\n"@ =~= seq!['\n']);
    let x1 = r.label + s1 + " "@;
    together(x1, s2, number);
    together(r.label + s1, " "@, s2);
    together(r.label, s1, " "@ + s2);
    together(s1, " "@, s2);
    let x2 = r.label + blank(a) + number + "  "@;
    together(x2, word, s3);
    together(x2 + word, s3, " "@);
    let x3 = x2 + word + blank(10 - word.len());
    together(x3, r.started, s4);
    together(x3 + r.started, s4, " "@);
    let x4 = x3 + r.started + blank(c);
    together(x4, r.cmd + " -> "@, r.log);
    together(x4, r.cmd, " -> "@);
}

proof fn together(a: Seq<char>, b: Seq<char>, c: Seq<char>)
    ensures
        a + b + c == a + (b + c),
{
    assert(a + b + c =~= a + (b + c));
}

/// The table has a row for each entry, behind the rows of those before it, and
/// its header even where there are none.
pub proof fn the_table_grows_by_a_row(
    entries: Seq<(Entry, Liveness)>,
    e: Entry,
    state: Liveness,
)
    ensures
        crate::registry::table(entries.push((e, state))) == crate::registry::table(entries)
            + crate::registry::entry_row(e.record(), state),
        crate::text::starts_with_spec(crate::registry::table(Seq::empty()), "LABEL"@),
        crate::registry::table(Seq::empty()).len() > 0 && crate::registry::table(
            Seq::empty(),
        ).last() == '\n',
{
    reveal_strlit("LABEL");
    reveal_strlit("PID");
    reveal_strlit("STATUS");
    reveal_strlit("STARTED");
    reveal_strlit("COMMAND / LOG");
    reveal_strlit("\n");
    reveal_strlit(" ");
    reveal_strlit("  ");
    assert(entries.push((e, state)).drop_last() =~= entries);
    let header = crate::registry::table(Seq::empty());
    assert(header.take(5) =~= "LABEL"@);
}

/// `ps` exits with 0 exactly where there is something to show, and shows all of
/// it: with one entry more, its row stands behind the others.
pub proof fn ps_shows_every_entry(entries: Seq<(Entry, Liveness)>, e: Entry, state: Liveness)
    ensures
        crate::registry::ps_code(entries) == 0 <==> entries.len() > 0,
        crate::registry::ps_code(entries) == 0 || crate::registry::ps_code(entries) == 1,
        entries.len() > 0 ==> crate::registry::ps_text(entries.push((e, state)))
            == crate::registry::ps_text(entries) + crate::registry::entry_row(e.record(), state),
        entries.len() == 0 ==> crate::registry::ps_text(entries)
            == "no processes started by deemo\n"@,
{
    the_table_grows_by_a_row(entries, e, state);
    if entries.len() == 0 {
        reveal_strlit("no processes started by deemo");
        reveal_strlit("no processes started by deemo\n");
        reveal_strlit("\n");
        assert(crate::registry::ps_text(entries) =~= "no processes started by deemo\n"@);
    }
}

} // verus!
