//! Pid files for detached runs: `run/<label>.<pid>.pid` under deemo's home.
//!
//! `stop` signals the process group. A detached command leads a session of its
//! own, so the registered pid is the group leader and the signal reaches the
//! descendants that stayed in that group. A launcher that forks the real
//! server without leaving the group dies with it.
//!
//! `kill <port>` signals foreign pids one at a time (their group may be the
//! user's shell) and deemo's own pids as a group.

use vstd::prelude::*;

use crate::order::{is_text_leq, sort, Ranked};
use crate::text::{chars, ends_with, find_from, lines, parse_number, part, push_decimal, rfind_pair, same_text, string};

verus! {

/// The directory of the pid files, under deemo's home.
pub const RUN_DIR: &'static str = "run";

// ---------------------------------------------------------------------------
// Records
// ---------------------------------------------------------------------------

/// A registration, as its pid file records it.
#[derive(Debug)]
pub struct Entry {
    pub pid: u32,
    pub label: String,
    pub started: String,
    pub cmd: String,
    pub log: String,
    /// Place of the pid file in the directory listing it was read from.
    pub file: usize,
}

/// What a pid file records.
pub ghost struct Record {
    pub pid: u32,
    pub label: Seq<char>,
    pub started: Seq<char>,
    pub cmd: Seq<char>,
    pub log: Seq<char>,
}

impl Entry {
    /// What the pid file of this entry records.
    pub open spec fn record(self) -> Record {
        Record {
            pid: self.pid,
            label: self.label@,
            started: self.started@,
            cmd: self.cmd@,
            log: self.log@,
        }
    }
}

/// The text of a line up to its first `=`, where it has one.
pub open spec fn key_of(line: Seq<char>) -> Option<Seq<char>> {
    let at = crate::text::find_spec(line, '=');
    if at < line.len() {
        Some(line.take(at))
    } else {
        None
    }
}

/// The text of a line behind its first `=`.
pub open spec fn value_of(line: Seq<char>) -> Seq<char> {
    line.skip(crate::text::find_spec(line, '=') + 1)
}

/// The value of a key: that of the last line with this key.
pub open spec fn lookup(rows: Seq<Seq<char>>, key: Seq<char>) -> Option<Seq<char>>
    decreases rows.len(),
{
    if rows.len() == 0 {
        None
    } else if key_of(rows.last()) == Some(key) {
        Some(value_of(rows.last()))
    } else {
        lookup(rows.drop_last(), key)
    }
}

/// A text, or the empty one.
pub open spec fn or_empty(text: Option<Seq<char>>) -> Seq<char> {
    match text {
        Some(s) => s,
        None => seq![],
    }
}

/// What the text of a pid file records: `pid`, `label` and `log` have to be
/// there, and the pid has to be one.
pub open spec fn recorded(text: Seq<char>) -> Option<Record> {
    let rows = crate::text::lines_spec(text);
    match (lookup(rows, "pid"@), lookup(rows, "label"@), lookup(rows, "log"@)) {
        (Some(pid), Some(label), Some(log)) => match crate::text::numeral_upto(
            pid,
            false,
            u32::MAX as int,
        ) {
            Some(pid) => Some(
                Record {
                    pid: pid as u32,
                    label,
                    started: or_empty(lookup(rows, "started"@)),
                    cmd: or_empty(lookup(rows, "cmd"@)),
                    log,
                },
            ),
            None => None,
        },
        _ => None,
    }
}

fn find_value(rows: &Vec<Vec<char>>, key: &str) -> (value: Option<Vec<char>>)
    ensures
        match value {
            Some(v) => lookup(crate::text::rows(rows@), key@) == Some(v@),
            None => lookup(crate::text::rows(rows@), key@) is None,
        },
{
    let wanted = chars(key);
    let ghost all = crate::text::rows(rows@);
    let mut i: usize = rows.len();
    proof {
        assert(all.take(all.len() as int) =~= all);
    }
    while i > 0
        invariant
            i <= rows.len(),
            all == crate::text::rows(rows@),
            wanted@ == key@,
            lookup(all, key@) == lookup(all.take(i as int), key@),
        decreases i,
    {
        let line = &rows[i - 1];
        let at = find_from(line, 0, '=');
        proof {
            assert(line@.skip(0) =~= line@);
            assert(all.take(i as int).last() == line@);
            assert(all.take(i as int).drop_last() =~= all.take(i - 1));
        }
        if at < line.len() {
            let found = part(line, 0, at);
            proof {
                assert(found@ =~= line@.take(at as int));
            }
            if crate::text::same(&found, &wanted) {
                let value = part(line, at + 1, line.len());
                proof {
                    assert(value@ =~= value_of(line@));
                }
                return Some(value);
            }
        }
        i -= 1;
    }
    None
}

/// Reads a pid file's text; `file` is its place in the directory listing.
/// `None` where the text is no registration.
pub fn parse_entry(text: &str, file: usize) -> (entry: Option<Entry>)
    ensures
        match entry {
            Some(e) => recorded(text@) == Some(e.record()) && e.file == file,
            None => recorded(text@) is None,
        },
{
    let rows = lines(&chars(text));
    let pid = find_value(&rows, "pid");
    let label = find_value(&rows, "label");
    let started = find_value(&rows, "started");
    let cmd = find_value(&rows, "cmd");
    let log = find_value(&rows, "log");
    match (pid, label, log) {
        (Some(pid), Some(label), Some(log)) => match parse_number(&pid, false, u32::MAX as u64) {
            Some(n) => Some(
                Entry {
                    pid: n as u32,
                    label: string(&label),
                    started: match started {
                        Some(s) => string(&s),
                        None => String::new(),
                    },
                    cmd: match cmd {
                        Some(s) => string(&s),
                        None => String::new(),
                    },
                    log: string(&log),
                    file,
                },
            ),
            None => None,
        },
        _ => None,
    }
}

// ---------------------------------------------------------------------------
// Registering
// ---------------------------------------------------------------------------

/// A pid file to be written: its name in the `run` directory, and its text.
#[derive(Debug)]
pub struct PidFile {
    pub name: String,
    pub text: String,
}

/// The name of an instance's pid file: `<label>.<pid>.pid`.
pub open spec fn pid_file_name(label: Seq<char>, pid: u32) -> Seq<char> {
    label + "."@ + crate::text::decimal_spec(pid as nat) + ".pid"@
}

/// One line of a pid file.
pub open spec fn record_line(key: Seq<char>, value: Seq<char>) -> Seq<char> {
    key + "="@ + value + "\n"@
}

/// The text of a pid file.
pub open spec fn record_text(r: Record) -> Seq<char> {
    record_line("pid"@, crate::text::decimal_spec(r.pid as nat)) + record_line("label"@, r.label)
        + record_line("started"@, r.started) + record_line("cmd"@, r.cmd) + record_line(
        "log"@,
        r.log,
    )
}

fn push_line(out: &mut String, key: &str, value: &str)
    ensures
        final(out)@ == old(out)@ + record_line(key@, value@),
{
    let ghost before = out@;
    out.append(key);
    out.append("=");
    out.append(value);
    out.append("\n");
    proof {
        assert(out@ =~= before + record_line(key@, value@));
    }
}

/// The pid file of a started process. One file per instance:
/// `<label>.<pid>.pid`.
pub fn register(label: &str, pid: u32, started: &str, cmd: &str, log: &str) -> (file: PidFile)
    ensures
        file.name@ == pid_file_name(label@, pid),
        file.text@ == record_text(
            (Record { pid, label: label@, started: started@, cmd: cmd@, log: log@ }),
        ),
{
    let mut name = String::from_str(label);
    name.append(".");
    push_decimal(&mut name, pid as u64);
    name.append(".pid");
    let mut text = String::new();
    let digits = crate::text::decimal(pid as u64);
    push_line(&mut text, "pid", digits.as_str());
    push_line(&mut text, "label", label);
    push_line(&mut text, "started", started);
    push_line(&mut text, "cmd", cmd);
    push_line(&mut text, "log", log);
    proof {
        assert(text@ =~= record_text(
            (Record { pid, label: label@, started: started@, cmd: cmd@, log: log@ }),
        ));
    }
    PidFile { name, text }
}

/// A value that a line of a pid file can hold: on one line, and with nothing
/// at its end that reads as part of the line ending.
pub open spec fn one_line(value: Seq<char>) -> bool {
    &&& forall|i: int| 0 <= i < value.len() ==> #[trigger] value[i] != '\n'
    &&& value.len() > 0 ==> value.last() != '\r'
}

/// A key of a pid file: no `=`, no line break.
spec fn plain_key(key: Seq<char>) -> bool {
    &&& key.len() > 0
    &&& forall|i: int| 0 <= i < key.len() ==> 'a' <= #[trigger] key[i] <= 'z'
}

proof fn line_first(key: Seq<char>, value: Seq<char>, rest: Seq<char>)
    requires
        plain_key(key),
        one_line(value),
    ensures
        crate::text::lines_spec(record_line(key, value) + rest) == seq![key + "="@ + value]
            + crate::text::lines_spec(rest),
        key_of(key + "="@ + value) == Some(key),
        value_of(key + "="@ + value) == value,
{
    reveal_strlit("=");
    reveal_strlit("\n");
    let line = key + "="@ + value;
    let s = record_line(key, value) + rest;
    let n = line.len() as int;
    assert forall|k: int| 0 <= k < n implies s[k] != '\n' by {
        if k < key.len() {
            assert(s[k] == key[k]);
        } else if k > key.len() {
            assert(s[k] == value[k - key.len() - 1]);
        }
    }
    assert(s[n] == '\n');
    crate::text::find_is(s, '\n', n);
    assert(s.take(n) =~= line);
    assert(s.skip(n + 1) =~= rest);
    if value.len() > 0 {
        assert(line.last() == value.last());
    }
    assert forall|k: int| 0 <= k < key.len() implies line[k] != '=' by {
        assert(line[k] == key[k]);
    }
    crate::text::find_is(line, '=', key.len() as int);
    assert(line.take(key.len() as int) =~= key);
    assert(line.skip(key.len() as int + 1) =~= value);
}

/// What was registered is what the pid file says, for values that fit on a
/// line each.
pub proof fn a_registration_reads_back(r: Record)
    requires
        one_line(r.label),
        one_line(r.started),
        one_line(r.cmd),
        one_line(r.log),
    ensures
        recorded(record_text(r)) == Some(r),
{
    reveal_strlit("pid");
    reveal_strlit("label");
    reveal_strlit("started");
    reveal_strlit("cmd");
    reveal_strlit("log");
    let pid = crate::text::decimal_spec(r.pid as nat);
    crate::text::decimal_reads_back(r.pid as nat);
    assert(one_line(pid));
    let t5 = Seq::<char>::empty();
    let t4 = record_line("log"@, r.log) + t5;
    let t3 = record_line("cmd"@, r.cmd) + t4;
    let t2 = record_line("started"@, r.started) + t3;
    let t1 = record_line("label"@, r.label) + t2;
    let t0 = record_line("pid"@, pid) + t1;
    line_first("log"@, r.log, t5);
    line_first("cmd"@, r.cmd, t4);
    line_first("started"@, r.started, t3);
    line_first("label"@, r.label, t2);
    line_first("pid"@, pid, t1);
    assert(record_text(r) =~= t0);
    let l0 = "pid"@ + "="@ + pid;
    let l1 = "label"@ + "="@ + r.label;
    let l2 = "started"@ + "="@ + r.started;
    let l3 = "cmd"@ + "="@ + r.cmd;
    let l4 = "log"@ + "="@ + r.log;
    let rows = crate::text::lines_spec(record_text(r));
    assert(rows =~= seq![l0, l1, l2, l3, l4]);
    reveal_with_fuel(lookup, 6);
    assert(rows.drop_last() =~= seq![l0, l1, l2, l3]);
    assert(rows.drop_last().drop_last() =~= seq![l0, l1, l2]);
    assert(rows.drop_last().drop_last().drop_last() =~= seq![l0, l1]);
    assert(rows.drop_last().drop_last().drop_last().drop_last() =~= seq![l0]);
    assert("pid"@.len() == 3 && "pid"@[0] == 'p');
    assert("log"@.len() == 3 && "log"@[0] == 'l');
    assert("cmd"@.len() == 3 && "cmd"@[0] == 'c');
    assert("label"@.len() == 5);
    assert("started"@.len() == 7);
}

proof fn name_parts(label: Seq<char>, pid: u32)
    ensures
        ({
            let name = pid_file_name(label, pid);
            let stem = name.take(name.len() - 4);
            &&& name.len() >= 4
            &&& crate::text::rfind_spec(stem, '.') == label.len()
            &&& stem.take(label.len() as int) == label
            &&& stem.skip(label.len() as int + 1) == crate::text::decimal_spec(pid as nat)
        }),
{
    reveal_strlit(".");
    reveal_strlit(".pid");
    let digits = crate::text::decimal_spec(pid as nat);
    crate::text::decimal_reads_back(pid as nat);
    let name = pid_file_name(label, pid);
    let stem = name.take(name.len() - 4);
    assert(stem =~= label + "."@ + digits);
    assert forall|k: int| label.len() < k < stem.len() implies stem[k] != '.' by {
        assert(stem[k] == digits[k - label.len() - 1]);
    }
    crate::text::rfind_is(stem, '.', label.len() as int);
    assert(stem.take(label.len() as int) =~= label);
    assert(stem.skip(label.len() as int + 1) =~= digits);
}

/// One file per instance: a pid file's name tells its label and its pid.
pub proof fn one_file_per_instance(a: Seq<char>, p: u32, b: Seq<char>, q: u32)
    requires
        pid_file_name(a, p) == pid_file_name(b, q),
    ensures
        a == b,
        p == q,
{
    name_parts(a, p);
    name_parts(b, q);
    crate::text::decimal_reads_back(p as nat);
    crate::text::decimal_reads_back(q as nat);
}

// ---------------------------------------------------------------------------
// Listing
// ---------------------------------------------------------------------------

/// A file of the `run` directory: its name, and its text where it could be
/// read.
#[derive(Debug)]
pub struct RunFile {
    pub name: String,
    pub text: Option<String>,
}

/// Is this the name of a pid file, `<something>.pid`?
pub open spec fn is_pid_file_spec(name: Seq<char>) -> bool {
    name.len() > ".pid"@.len() && crate::text::ends_with_spec(name, ".pid"@)
}

/// Is this the name of a pid file, `<something>.pid`?
pub fn is_pid_file(name: &str) -> (yes: bool)
    ensures
        yes == is_pid_file_spec(name@),
{
    let name = chars(name);
    let suffix = chars(".pid");
    name.len() > suffix.len() && ends_with(&name, &suffix)
}

/// The registration that a file of the `run` directory holds.
pub open spec fn registration(file: RunFile) -> Option<Record> {
    match file.text {
        Some(text) => if is_pid_file_spec(file.name@) {
            recorded(text@)
        } else {
            None
        },
        None => None,
    }
}

/// The order of the list: by label, the same label by pid, and the same pid as
/// in the directory.
pub open spec fn listed_before(a: Entry, b: Entry) -> bool {
    if a.label@ != b.label@ {
        crate::order::text_leq(a.label@, b.label@)
    } else if a.pid != b.pid {
        a.pid < b.pid
    } else {
        a.file < b.file
    }
}

impl Ranked for Entry {
    open spec fn leq(self, other: Self) -> bool {
        listed_before(self, other) || (self.label@ == other.label@ && self.pid == other.pid
            && self.file == other.file)
    }

    proof fn leq_total(a: Self, b: Self) {
        crate::order::text_leq_total(a.label@, b.label@);
    }

    proof fn leq_trans(a: Self, b: Self, c: Self) {
        if a.label@ != b.label@ && b.label@ != c.label@ {
            crate::order::text_leq_trans(a.label@, b.label@, c.label@);
            if a.label@ == c.label@ {
                crate::order::text_leq_antisym(a.label@, b.label@);
            }
        }
    }

    fn is_leq(&self, other: &Self) -> (yes: bool) {
        if !same_text(self.label.as_str(), other.label.as_str()) {
            is_text_leq(self.label.as_str(), other.label.as_str())
        } else if self.pid != other.pid {
            self.pid < other.pid
        } else {
            self.file <= other.file
        }
    }
}

/// The entries are those of the files, each once, in the order of the list.
pub open spec fn lists(entries: Seq<Entry>, files: Seq<RunFile>) -> bool {
    &&& forall|i: int|
        #![trigger entries[i]]
        0 <= i < entries.len() ==> entries[i].file < files.len() && registration(
            files[entries[i].file as int],
        ) == Some(entries[i].record())
    &&& forall|f: int|
        0 <= f < files.len() && registration(#[trigger] files[f]) is Some ==> exists|i: int|
            0 <= i < entries.len() && (#[trigger] entries[i]).file == f
    &&& forall|i: int, j: int|
        0 <= i < j < entries.len() ==> listed_before(#[trigger] entries[i], #[trigger] entries[j])
}

/// All registrations among the files of the `run` directory.
pub fn list(files: &Vec<RunFile>) -> (entries: Vec<Entry>)
    ensures
        lists(entries@, files@),
{
    let mut found: Vec<Entry> = Vec::new();
    let mut f: usize = 0;
    while f < files.len()
        invariant
            f <= files.len(),
            forall|i: int|
                #![trigger found@[i]]
                0 <= i < found@.len() ==> found@[i].file < f && registration(
                    files@[found@[i].file as int],
                ) == Some(found@[i].record()),
            forall|g: int|
                0 <= g < f && registration(#[trigger] files@[g]) is Some ==> exists|i: int|
                    0 <= i < found@.len() && (#[trigger] found@[i]).file == g,
            forall|i: int, j: int|
                0 <= i < j < found@.len() ==> (#[trigger] found@[i]).file < (
                #[trigger] found@[j]).file,
        decreases files.len() - f,
    {
        let ghost before = found@;
        if is_pid_file(files[f].name.as_str()) {
            if let Some(text) = &files[f].text {
                if let Some(entry) = parse_entry(text.as_str(), f) {
                    found.push(entry);
                }
            }
        }
        proof {
            assert forall|g: int| 0 <= g < f + 1 && registration(
                #[trigger] files@[g],
            ) is Some implies exists|i: int|
                0 <= i < found@.len() && (#[trigger] found@[i]).file == g by {
                if g < f {
                    let i = choose|i: int|
                        0 <= i < before.len() && (#[trigger] before[i]).file == g;
                    assert(found@[i] == before[i]);
                } else {
                    assert(found@[found@.len() - 1].file == g);
                }
            }
        }
        f += 1;
    }
    let ghost all = found@;
    let entries = sort(found);
    proof {
        entries@.to_multiset_ensures();
        all.to_multiset_ensures();
        assert(all.no_duplicates()) by {
            assert forall|i: int, j: int|
                0 <= i < all.len() && 0 <= j < all.len() && i != j implies all[i] != all[j] by {
                if i < j {
                    assert(all[i].file < all[j].file);
                } else {
                    assert(all[j].file < all[i].file);
                }
            }
        }
        all.lemma_multiset_has_no_duplicates();
        entries@.lemma_multiset_has_no_duplicates_conv();
        assert forall|i: int| #![trigger entries@[i]] 0 <= i < entries@.len() implies all.contains(
            entries@[i],
        ) by {
            assert(entries@.contains(entries@[i]));
            assert(entries@.to_multiset().count(entries@[i]) > 0);
        }
        assert forall|g: int| 0 <= g < files@.len() && registration(
            #[trigger] files@[g],
        ) is Some implies exists|i: int|
            0 <= i < entries@.len() && (#[trigger] entries@[i]).file == g by {
            let i = choose|i: int| 0 <= i < all.len() && (#[trigger] all[i]).file == g;
            assert(all.contains(all[i]));
            assert(all.to_multiset().count(all[i]) > 0);
            assert(entries@.contains(all[i]));
        }
        assert forall|i: int, j: int| 0 <= i < j < entries@.len() implies listed_before(
            #[trigger] entries@[i],
            #[trigger] entries@[j],
        ) by {
            assert(entries@[i].leq(entries@[j]));
            assert(all.contains(entries@[i]) && all.contains(entries@[j]));
            assert(entries@[i] != entries@[j]);
        }
    }
    entries
}

/// The file that `register` names is taken for a pid file.
pub proof fn a_registration_is_a_pid_file(label: Seq<char>, pid: u32)
    ensures
        is_pid_file_spec(pid_file_name(label, pid)),
{
    let name = pid_file_name(label, pid);
    reveal_strlit(".");
    crate::text::decimal_reads_back(pid as nat);
    assert(name.skip(name.len() - ".pid"@.len()) =~= ".pid"@);
}

/// What was registered is in the list, as it was registered.
pub proof fn a_registration_is_listed(entries: Seq<Entry>, files: Seq<RunFile>, f: int, r: Record)
    requires
        lists(entries, files),
        0 <= f < files.len(),
        files[f].name@ == pid_file_name(r.label, r.pid),
        files[f].text is Some,
        files[f].text->0@ == record_text(r),
        one_line(r.label),
        one_line(r.started),
        one_line(r.cmd),
        one_line(r.log),
    ensures
        exists|i: int| 0 <= i < entries.len() && (#[trigger] entries[i]).record() == r,
{
    a_registration_is_a_pid_file(r.label, r.pid);
    a_registration_reads_back(r);
    assert(registration(files[f]) == Some(r));
    let i = choose|i: int| 0 <= i < entries.len() && (#[trigger] entries[i]).file == f;
    assert(entries[i].record() == r);
}

proof fn not_both_ways(a: Entry, b: Entry)
    ensures
        !(listed_before(a, b) && listed_before(b, a)),
{
    if a.label@ != b.label@ && crate::order::text_leq(a.label@, b.label@) && crate::order::text_leq(b.label@, a.label@) {
        crate::order::text_leq_antisym(a.label@, b.label@);
    }
}

/// The same registration, out of the same file.
pub open spec fn same_entry(a: Entry, b: Entry) -> bool {
    a.file == b.file && a.record() == b.record()
}

spec fn occurs(e: Entry, s: Seq<Entry>) -> bool {
    exists|i: int| 0 <= i < s.len() && same_entry(#[trigger] s[i], e)
}

#[verifier::opaque]
spec fn all_occur(a: Seq<Entry>, b: Seq<Entry>) -> bool {
    forall|i: int| 0 <= i < a.len() ==> occurs(#[trigger] a[i], b)
}

spec fn strictly_ordered(s: Seq<Entry>) -> bool {
    forall|i: int, j: int| 0 <= i < j < s.len() ==> listed_before(#[trigger] s[i], #[trigger] s[j])
}

proof fn same_last(a: Seq<Entry>, b: Seq<Entry>)
    requires
        strictly_ordered(a),
        strictly_ordered(b),
        all_occur(a, b),
        all_occur(b, a),
        a.len() > 0,
    ensures
        b.len() > 0,
        same_entry(a.last(), b.last()),
{
    reveal(all_occur);
    let p = a.len() - 1;
    assert(occurs(a[p], b));
    let j = choose|j: int| 0 <= j < b.len() && same_entry(#[trigger] b[j], a[p]);
    let q = b.len() - 1;
    if j < q {
        assert(occurs(b[q], a));
        let i = choose|i: int| 0 <= i < a.len() && same_entry(#[trigger] a[i], b[q]);
        assert(listed_before(b[j], b[q]));
        not_both_ways(b[j], b[q]);
        if i < p {
            assert(listed_before(a[i], a[p]));
        }
    }
}

proof fn shorter_occur(a: Seq<Entry>, b: Seq<Entry>)
    requires
        strictly_ordered(a),
        all_occur(a, b),
        a.len() > 0,
        b.len() > 0,
        same_entry(a.last(), b.last()),
    ensures
        strictly_ordered(a.drop_last()),
        all_occur(a.drop_last(), b.drop_last()),
{
    reveal(all_occur);
    let a1 = a.drop_last();
    let b1 = b.drop_last();
    assert forall|i: int, k: int| 0 <= i < k < a1.len() implies listed_before(
        #[trigger] a1[i],
        #[trigger] a1[k],
    ) by {
        assert(listed_before(a[i], a[k]));
    }
    assert forall|i: int| 0 <= i < a1.len() implies occurs(#[trigger] a1[i], b1) by {
        assert(occurs(a[i], b));
        let k = choose|k: int| 0 <= k < b.len() && same_entry(#[trigger] b[k], a[i]);
        assert(listed_before(a[i], a[a.len() - 1]));
        assert(k < b1.len());
        assert(b1[k] == b[k]);
    }
}

proof fn ordered_is_unique(a: Seq<Entry>, b: Seq<Entry>)
    requires
        strictly_ordered(a),
        strictly_ordered(b),
        all_occur(a, b),
        all_occur(b, a),
    ensures
        a.len() == b.len(),
        forall|i: int| 0 <= i < a.len() ==> same_entry(#[trigger] a[i], b[i]),
    decreases a.len(),
{
    if a.len() == 0 {
        if b.len() > 0 {
            same_last(b, a);
        }
    } else {
        same_last(a, b);
        shorter_occur(a, b);
        shorter_occur(b, a);
        ordered_is_unique(a.drop_last(), b.drop_last());
        assert forall|i: int| 0 <= i < a.len() implies same_entry(#[trigger] a[i], b[i]) by {
            if i < a.len() - 1 {
                assert(same_entry(a.drop_last()[i], b.drop_last()[i]));
            }
        }
    }
}

proof fn lists_occur(a: Seq<Entry>, b: Seq<Entry>, files: Seq<RunFile>)
    requires
        lists(a, files),
        lists(b, files),
    ensures
        all_occur(a, b),
{
    reveal(all_occur);
    assert forall|i: int| 0 <= i < a.len() implies occurs(#[trigger] a[i], b) by {
        let f = a[i].file as int;
        assert(registration(files[f]) is Some);
        let j = choose|j: int| 0 <= j < b.len() && (#[trigger] b[j]).file == f;
        assert(same_entry(b[j], a[i]));
    }
}

/// The files of the `run` directory leave no choice about the list.
pub proof fn the_list_is_determined(a: Seq<Entry>, b: Seq<Entry>, files: Seq<RunFile>)
    requires
        lists(a, files),
        lists(b, files),
    ensures
        a.len() == b.len(),
        forall|i: int| 0 <= i < a.len() ==> same_entry(#[trigger] a[i], b[i]),
{
    lists_occur(a, b, files);
    lists_occur(b, a, files);
    ordered_is_unique(a, b);
}

// ---------------------------------------------------------------------------
// Liveness
// ---------------------------------------------------------------------------

/// What is known of a registered process.
#[derive(Clone, Copy, PartialEq, Eq, Structural, Debug)]
pub enum Liveness {
    Running,
    Dead,
    /// The platform has no cheap probe, and none is guessed.
    Unknown,
}

/// The state letter of `/proc/<pid>/stat` is `Z`. It is the first character
/// behind the last `") "`: the command name stands in parentheses and may hold
/// anything.
pub open spec fn zombie_spec(stat: Seq<char>) -> bool {
    let at = crate::text::rfind_pair_spec(stat, ')', ' ');
    at >= 0 && at + 2 < stat.len() && stat[at + 2] == 'Z'
}

/// Has the process exited without having been reaped, by its
/// `/proc/<pid>/stat`?
pub fn zombie(stat: &str) -> (yes: bool)
    ensures
        yes == zombie_spec(stat@),
{
    let stat = chars(stat);
    match rfind_pair(&stat, ')', ' ') {
        Some(at) => at + 2 < stat.len() && stat[at + 2] == 'Z',
        None => false,
    }
}

/// What is known of a process that was probed.
pub open spec fn liveness_spec(
    platform: crate::signal::Platform,
    answered: bool,
    zombie: bool,
) -> Liveness {
    match platform {
        crate::signal::Platform::Unix => if answered && !zombie {
            Liveness::Running
        } else {
            Liveness::Dead
        },
        crate::signal::Platform::Windows => Liveness::Unknown,
    }
}

/// Is a process alive? `answered` says whether the null signal could be sent
/// to it, `zombie` whether it has exited without having been reaped.
///
/// A zombie counts as dead: it holds no sockets or files any more and
/// signalling it does nothing. Where there is no probe, nothing is known.
pub fn liveness(platform: crate::signal::Platform, answered: bool, zombie: bool) -> (state: Liveness)
    ensures
        state == liveness_spec(platform, answered, zombie),
        state == (match platform {
            crate::signal::Platform::Unix => if answered && !zombie {
                Liveness::Running
            } else {
                Liveness::Dead
            },
            crate::signal::Platform::Windows => Liveness::Unknown,
        }),
{
    match platform {
        crate::signal::Platform::Unix => if answered && !zombie {
            Liveness::Running
        } else {
            Liveness::Dead
        },
        crate::signal::Platform::Windows => Liveness::Unknown,
    }
}

/// The places of the pid files to remove: those of processes known to be dead.
pub open spec fn dead_files(entries: Seq<(Entry, Liveness)>) -> Seq<usize>
    decreases entries.len(),
{
    if entries.len() == 0 {
        seq![]
    } else {
        let rest = dead_files(entries.drop_last());
        if entries.last().1 == Liveness::Dead {
            rest.push(entries.last().0.file)
        } else {
            rest
        }
    }
}

/// The pid files to remove because their processes are known to be no longer
/// alive: their places in the directory listing. What cannot be probed stays.
pub fn sweep_dead(entries: &Vec<(Entry, Liveness)>) -> (files: Vec<usize>)
    ensures
        files@ == dead_files(entries@),
{
    let mut files: Vec<usize> = Vec::new();
    let mut i: usize = 0;
    while i < entries.len()
        invariant
            i <= entries.len(),
            files@ == dead_files(entries@.take(i as int)),
        decreases entries.len() - i,
    {
        proof {
            assert(entries@.take(i + 1).drop_last() =~= entries@.take(i as int));
        }
        if entries[i].1 == Liveness::Dead {
            files.push(entries[i].0.file);
        }
        i += 1;
    }
    proof {
        assert(entries@.take(entries@.len() as int) =~= entries@);
    }
    files
}

/// A pid file is swept where, and only where, its process is known to be dead.
pub proof fn only_the_known_dead_are_swept(entries: Seq<(Entry, Liveness)>, file: usize)
    ensures
        dead_files(entries).contains(file) <==> exists|i: int|
            0 <= i < entries.len() && (#[trigger] entries[i]).0.file == file && entries[i].1
                == Liveness::Dead,
    decreases entries.len(),
{
    if entries.len() > 0 {
        let shorter = entries.drop_last();
        let rest = dead_files(shorter);
        let n = entries.len() - 1;
        only_the_known_dead_are_swept(shorter, file);
        if dead_files(entries).contains(file) {
            if rest.contains(file) {
                let i = choose|i: int|
                    0 <= i < n && (#[trigger] shorter[i]).0.file == file && shorter[i].1
                        == Liveness::Dead;
                assert(entries[i] == shorter[i]);
            } else {
                assert(entries[n].0.file == file && entries[n].1 == Liveness::Dead);
            }
        }
        if exists|i: int|
            0 <= i < entries.len() && (#[trigger] entries[i]).0.file == file && entries[i].1
                == Liveness::Dead {
            let i = choose|i: int|
                0 <= i < entries.len() && (#[trigger] entries[i]).0.file == file && entries[i].1
                    == Liveness::Dead;
            if i < n {
                assert(shorter[i] == entries[i]);
                let k = choose|k: int| 0 <= k < rest.len() && rest[k] == file;
                assert(dead_files(entries)[k] == file);
            } else {
                assert(dead_files(entries)[rest.len() as int] == file);
            }
        }
    }
}

// ---------------------------------------------------------------------------
// ps
// ---------------------------------------------------------------------------

/// `n` spaces.
pub open spec fn spaces(n: int) -> Seq<char> {
    Seq::new(if n > 0 { n as nat } else { 0 }, |i: int| ' ')
}

/// The text, filled up on the right to `width` characters.
pub open spec fn padded(s: Seq<char>, width: int) -> Seq<char> {
    s + spaces(width - s.len())
}

/// The text, filled up on the left to `width` characters.
pub open spec fn padded_left(s: Seq<char>, width: int) -> Seq<char> {
    spaces(width - s.len()) + s
}

/// A row of the `ps` table.
pub open spec fn table_row(
    label: Seq<char>,
    pid: Seq<char>,
    status: Seq<char>,
    started: Seq<char>,
    detail: Seq<char>,
) -> Seq<char> {
    padded(label, 16) + " "@ + padded_left(pid, 7) + "  "@ + padded(status, 9) + " "@ + padded(
        started,
        19,
    ) + " "@ + detail + "\n"@
}

/// How `ps` names a state.
pub open spec fn status_spec(state: Liveness) -> Seq<char> {
    match state {
        Liveness::Running => "running"@,
        Liveness::Dead => "dead"@,
        Liveness::Unknown => "unknown"@,
    }
}

/// The row of an entry: the command and its log are the last column.
pub open spec fn entry_row(r: Record, state: Liveness) -> Seq<char> {
    table_row(
        r.label,
        crate::text::decimal_spec(r.pid as nat),
        status_spec(state),
        r.started,
        r.cmd + " -> "@ + r.log,
    )
}

/// The `ps` table: a header, then the entries in their order.
pub open spec fn table(entries: Seq<(Entry, Liveness)>) -> Seq<char>
    decreases entries.len(),
{
    if entries.len() == 0 {
        table_row("LABEL"@, "PID"@, "STATUS"@, "STARTED"@, "COMMAND / LOG"@)
    } else {
        table(entries.drop_last()) + entry_row(entries.last().0.record(), entries.last().1)
    }
}

/// What a command prints, and its exit code.
#[derive(Debug)]
pub struct Output {
    pub text: String,
    pub code: i32,
}

fn push_spaces(out: &mut String, width: usize, len: usize)
    ensures
        final(out)@ == old(out)@ + spaces(width - len),
{
    let ghost before = out@;
    let mut i: usize = len;
    proof {
        assert(before + spaces(0) =~= before);
        assert(spaces(width - len) =~= spaces(0) || len < width);
    }
    while i < width
        invariant
            len <= i <= width || (width <= len && i == len),
            before == old(out)@,
            out@ == before + spaces(i - len),
        decreases width - i,
    {
        out.push(' ');
        i += 1;
        proof {
            assert(spaces(i - len) =~= spaces(i - 1 - len).push(' '));
            assert(out@ =~= before + spaces(i - len));
        }
    }
    proof {
        assert(spaces(width - len) =~= spaces(i - len));
    }
}

fn push_row(out: &mut String, label: &str, pid: &str, status: &str, started: &str, detail: &str)
    ensures
        final(out)@ == old(out)@ + table_row(label@, pid@, status@, started@, detail@),
{
    let ghost before = out@;
    out.append(label);
    push_spaces(out, 16, chars(label).len());
    out.append(" ");
    push_spaces(out, 7, chars(pid).len());
    out.append(pid);
    out.append("  ");
    out.append(status);
    push_spaces(out, 9, chars(status).len());
    out.append(" ");
    out.append(started);
    push_spaces(out, 19, chars(started).len());
    out.append(" ");
    out.append(detail);
    out.append("\n");
    proof {
        assert(out@ =~= before + table_row(label@, pid@, status@, started@, detail@));
    }
}

/// What `ps` prints.
pub open spec fn ps_text(entries: Seq<(Entry, Liveness)>) -> Seq<char> {
    if entries.len() == 0 {
        "no processes started by deemo"@ + "\n"@
    } else {
        table(entries)
    }
}

/// The exit code of `ps`.
pub open spec fn ps_code(entries: Seq<(Entry, Liveness)>) -> i32 {
    if entries.len() == 0 {
        1
    } else {
        0
    }
}

/// `deemo ps`: the human table, or a line that says that there is nothing.
/// The exit code is 1 where nothing is listed.
pub fn ps(entries: &Vec<(Entry, Liveness)>) -> (out: Output)
    ensures
        out.text@ == ps_text(entries@),
        out.code == ps_code(entries@),
        entries.len() == 0 ==> out.text@ == "no processes started by deemo"@ + "\n"@ && out.code
            == 1,
        entries.len() > 0 ==> out.text@ == table(entries@) && out.code == 0,
{
    let mut text = String::new();
    if entries.len() == 0 {
        text.append("no processes started by deemo");
        text.append("\n");
        proof {
            assert(text@ =~= "no processes started by deemo"@ + "\n"@);
        }
        return Output { text, code: 1 };
    }
    push_row(&mut text, "LABEL", "PID", "STATUS", "STARTED", "COMMAND / LOG");
    let mut i: usize = 0;
    proof {
        assert(text@ =~= table(entries@.take(0)));
    }
    while i < entries.len()
        invariant
            i <= entries.len(),
            text@ == table(entries@.take(i as int)),
        decreases entries.len() - i,
    {
        let e = &entries[i].0;
        let status = match entries[i].1 {
            Liveness::Running => "running",
            Liveness::Dead => "dead",
            Liveness::Unknown => "unknown",
        };
        let mut detail = String::from_str(e.cmd.as_str());
        detail.append(" -> ");
        detail.append(e.log.as_str());
        let pid = crate::text::decimal(e.pid as u64);
        push_row(
            &mut text,
            e.label.as_str(),
            pid.as_str(),
            status,
            e.started.as_str(),
            detail.as_str(),
        );
        proof {
            assert(entries@.take(i + 1).drop_last() =~= entries@.take(i as int));
        }
        i += 1;
    }
    proof {
        assert(entries@.take(entries@.len() as int) =~= entries@);
    }
    Output { text, code: 0 }
}

/// Every entry has its row in the `ps` table.
pub proof fn every_entry_is_shown(entries: Seq<(Entry, Liveness)>, i: int)
    requires
        0 <= i < entries.len(),
    ensures
        exists|at: int|
            0 <= at <= table(entries).len() - entry_row(
                entries[i].0.record(),
                entries[i].1,
            ).len() && #[trigger] table(entries).subrange(
                at,
                at + entry_row(entries[i].0.record(), entries[i].1).len(),
            ) == entry_row(entries[i].0.record(), entries[i].1),
    decreases entries.len(),
{
    let row = entry_row(entries[i].0.record(), entries[i].1);
    let before = table(entries.drop_last());
    let whole = table(entries);
    if i == entries.len() - 1 {
        assert(whole.subrange(before.len() as int, before.len() as int + row.len()) =~= row);
    } else {
        every_entry_is_shown(entries.drop_last(), i);
        let at = choose|at: int|
            0 <= at <= before.len() - row.len() && #[trigger] before.subrange(at, at + row.len())
                == row;
        assert(whole.subrange(at, at + row.len()) =~= before.subrange(at, at + row.len()));
    }
}

} // verus!
