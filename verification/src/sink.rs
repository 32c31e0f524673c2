//! Log files: where they are, what they are called, which of them stay, and
//! what `deemo logs` shows.

use vstd::prelude::*;

use crate::cli::Timestamp;
use crate::clock::{day_now, has_stamp_shape, run_now};
use crate::order::{is_text_leq, sort};
use crate::registry::Output;
use crate::text::{chars, from_utf8_lossy, part, push_decimal, same, same_text};

verus! {

/// The name of deemo's home in the user's.
pub const DOT_DEEMO: &'static str = ".deemo";

/// The directory of the logs, under deemo's home.
pub const LOGS_DIR: &'static str = "logs";

// ---------------------------------------------------------------------------
// Home
// ---------------------------------------------------------------------------

/// Deemo's home directory: a given one, or `.deemo` in another.
#[derive(Debug)]
pub enum Home<P> {
    At(P),
    DotDeemoIn(P),
}

/// Deemo's home directory, by what was given, set and known.
pub open spec fn home_spec<P>(
    override_dir: Option<P>,
    variable: Option<(P, bool)>,
    user_home: Option<P>,
    here: P,
) -> Home<P> {
    match override_dir {
        Some(dir) => Home::At(dir),
        None => match variable {
            Some((dir, false)) => Home::At(dir),
            _ => Home::DotDeemoIn(
                match user_home {
                    Some(dir) => dir,
                    None => here,
                },
            ),
        },
    }
}

/// Resolves the deemo home directory: `--dir` > `$DEEMO_HOME` > `~/.deemo`.
///
/// `variable` is the value of `$DEEMO_HOME` where it is set, and whether that
/// value is empty, in which case it does not count. Where the user's home is
/// not known, the current directory `here` stands for it.
pub fn resolve_home<P>(
    override_dir: Option<P>,
    variable: Option<(P, bool)>,
    user_home: Option<P>,
    here: P,
) -> (home: Home<P>)
    ensures
        home == home_spec(override_dir, variable, user_home, here),
        home == (match override_dir {
            Some(dir) => Home::At(dir),
            None => match variable {
                Some((dir, false)) => Home::At(dir),
                _ => Home::DotDeemoIn(
                    match user_home {
                        Some(dir) => dir,
                        None => here,
                    },
                ),
            },
        }),
{
    if let Some(dir) = override_dir {
        return Home::At(dir);
    }
    if let Some((dir, empty)) = variable {
        if !empty {
            return Home::At(dir);
        }
    }
    match user_home {
        Some(dir) => Home::DotDeemoIn(dir),
        None => Home::DotDeemoIn(here),
    }
}

// ---------------------------------------------------------------------------
// Names
// ---------------------------------------------------------------------------

/// The log file of a run: its name in the `logs` directory.
#[derive(Debug)]
pub struct Sink {
    pub name: String,
}

/// `<label>.log`.
pub open spec fn plain_log_name(label: Seq<char>) -> Seq<char> {
    label + ".log"@
}

/// `<label>-<stamp>.log`.
pub open spec fn stamped_log_name(label: Seq<char>, stamp: Seq<char>) -> Seq<char> {
    label + "-"@ + stamp + ".log"@
}

/// The name of the log file that a run at this moment writes to.
pub open spec fn log_name(label: Seq<char>, scheme: Timestamp, m: crate::clock::Moment) -> Seq<char> {
    match scheme {
        Timestamp::Off => plain_log_name(label),
        Timestamp::Day => stamped_log_name(label, crate::clock::day_stamp(m)),
        Timestamp::Run => stamped_log_name(label, crate::clock::run_stamp(m)),
    }
}

impl Sink {
    /// This run's log file.
    pub fn open(label: &str, scheme: Timestamp) -> (sink: Sink)
        ensures
            exists|m: crate::clock::Moment| #[trigger]
                m.valid() && sink.name@ == log_name(label@, scheme, m),
    {
        match scheme {
            Timestamp::Off => {
                let sink = Sink::unstamped(label);
                proof {
                    let m = crate::clock::Moment {
                        year: 1970,
                        month: 1,
                        day: 1,
                        hour: 0,
                        minute: 0,
                        second: 0,
                        milli: 0,
                    };
                    assert(m.valid());
                }
                sink
            },
            Timestamp::Day => Sink::stamped(label, day_now().as_str()),
            Timestamp::Run => Sink::stamped(label, run_now().as_str()),
        }
    }

    /// The one log file of a label, without a time in its name.
    pub fn unstamped(label: &str) -> (sink: Sink)
        ensures
            sink.name@ == plain_log_name(label@),
    {
        let mut name = String::from_str(label);
        name.append(".log");
        Sink { name }
    }

    /// The log file of a label with this time in its name.
    pub fn stamped(label: &str, stamp: &str) -> (sink: Sink)
        ensures
            sink.name@ == stamped_log_name(label@, stamp@),
    {
        let mut name = String::from_str(label);
        name.append("-");
        name.append(stamp);
        name.append(".log");
        Sink { name }
    }
}

/// A file deemo would have written for `label`: `<label>.log`, or
/// `<label>-<stamp>.log` with the stamp of a day or of a run.
pub open spec fn belongs_to_spec(name: Seq<char>, label: Seq<char>) -> bool {
    name == plain_log_name(label) || exists|stamp: Seq<char>| #[trigger]
        crate::clock::is_stamp(stamp) && name == stamped_log_name(label, stamp)
}

/// A file deemo would have written for `label`: `<label>.log`, or
/// `<label>-<stamp>.log` with the stamp of a day or of a run. The files of a
/// label that goes on behind a dash are not among them.
pub fn belongs_to(name: &str, label: &str) -> (yes: bool)
    ensures
        yes == belongs_to_spec(name@, label@),
{
    let plain = Sink::unstamped(label);
    if same_text(name, plain.name.as_str()) {
        return true;
    }
    let name = chars(name);
    let label = chars(label);
    let ghost (n, l) = (name@, label@);
    proof {
        reveal_strlit("-");
        reveal_strlit(".log");
        assert forall|stamp: Seq<char>| #[trigger] stamped_log_name(l, stamp) == n implies stamp
            == n.subrange(l.len() as int + 1, n.len() - 4) by {
            assert(stamp =~= stamped_log_name(l, stamp).subrange(
                l.len() as int + 1,
                l.len() as int + 1 + stamp.len(),
            ));
        }
    }
    if name.len() < 5 || label.len() > name.len() - 5 {
        return false;
    }
    let end: usize = name.len() - 4;
    let front = part(&name, 0, label.len());
    let stamp = part(&name, label.len() + 1, end);
    let extension = part(&name, end, name.len());
    let whole = same(&front, &label) && name[label.len()] == '-' && same(&extension, &chars(".log"));
    proof {
        let made = stamped_log_name(l, stamp@);
        if whole {
            assert(n =~= made) by {
                assert forall|i: int| 0 <= i < n.len() implies n[i] == made[i] by {
                    if i < l.len() {
                        assert(front@[i] == n[i]);
                    } else if i >= end {
                        assert(extension@[i - end] == n[i]);
                    }
                }
            }
        } else {
            if n == made {
                assert(front@ =~= l);
                assert(extension@ =~= ".log"@);
            }
        }
    }
    whole && has_stamp_shape(&stamp)
}

// ---------------------------------------------------------------------------
// Pruning
// ---------------------------------------------------------------------------

/// The files of a label.
pub open spec fn files_of(names: Seq<String>, label: Seq<char>) -> Seq<String> {
    names.filter(|name: String| belongs_to_spec(name@, label))
}

/// The files of a label, oldest first.
pub open spec fn oldest_first(sorted: Seq<String>, names: Seq<String>, label: Seq<char>) -> bool {
    crate::order::is_sorted(sorted) && sorted.to_multiset() == files_of(names, label).to_multiset()
}

/// By how many the files are too many.
pub open spec fn excess(count: nat, keep: u32) -> int {
    if count > keep {
        count - keep
    } else {
        0
    }
}

/// The first `n` of the files, but for the current one.
pub open spec fn removed(sorted: Seq<String>, n: int, current: Seq<char>) -> Seq<Seq<char>>
    decreases n,
{
    if n <= 0 {
        seq![]
    } else if sorted[n - 1]@ == current {
        removed(sorted, n - 1, current)
    } else {
        removed(sorted, n - 1, current).push(sorted[n - 1]@)
    }
}

fn select(names: &Vec<String>, label: &str) -> (out: Vec<String>)
    ensures
        out@ == files_of(names@, label@),
{
    let mut out: Vec<String> = Vec::new();
    let mut i: usize = 0;
    proof {
        assert(names@.take(0) =~= Seq::<String>::empty());
        assert(files_of(names@.take(0), label@) =~= Seq::<String>::empty());
    }
    while i < names.len()
        invariant
            i <= names.len(),
            out@ == files_of(names@.take(i as int), label@),
        decreases names.len() - i,
    {
        proof {
            reveal(Seq::filter);
            assert(names@.take(i + 1).drop_last() =~= names@.take(i as int));
        }
        if belongs_to(names[i].as_str(), label) {
            out.push(names[i].clone());
        }
        i += 1;
    }
    proof {
        assert(names@.take(names@.len() as int) =~= names@);
    }
    out
}

/// The log files to delete: the oldest of the same label, so that at most
/// `keep` files stay in total, the current one included (its name carries the
/// newest timestamp, so it sorts last). The current file is never among them.
/// `keep == 0` means unlimited.
pub fn prune_old_logs(names: &Vec<String>, label: &str, keep: u32, current: &str) -> (old: Vec<
    String,
>)
    ensures
        keep == 0 ==> old@.len() == 0,
        keep > 0 ==> exists|sorted: Seq<String>| #[trigger]
            oldest_first(sorted, names@, label@) && crate::text::texts(old@) == removed(
                sorted,
                excess(sorted.len(), keep),
                current@,
            ),
{
    let mut old: Vec<String> = Vec::new();
    if keep == 0 {
        return old;
    }
    let files = select(names, label);
    let sorted = sort(files);
    let count = sorted.len();
    let too_many: usize = if count as u64 > keep as u64 {
        (count as u64 - keep as u64) as usize
    } else {
        0
    };
    let mut i: usize = 0;
    proof {
        assert(oldest_first(sorted@, names@, label@));
        assert(crate::text::texts(old@) =~= removed(sorted@, 0, current@));
    }
    while i < too_many
        invariant
            i <= too_many <= sorted.len(),
            crate::text::texts(old@) == removed(sorted@, i as int, current@),
        decreases too_many - i,
    {
        if !same_text(sorted[i].as_str(), current) {
            proof {
                crate::text::texts_push(old@, sorted@[i as int]);
            }
            old.push(sorted[i].clone());
        }
        i += 1;
    }
    old
}

// ---------------------------------------------------------------------------
// The newest log
// ---------------------------------------------------------------------------

/// The file is the newest of its label: the greatest name.
pub open spec fn newest(name: Seq<char>, names: Seq<Seq<char>>, label: Seq<char>) -> bool {
    &&& names.contains(name)
    &&& belongs_to_spec(name, label)
    &&& forall|i: int|
        0 <= i < names.len() && belongs_to_spec(#[trigger] names[i], label)
            ==> crate::order::text_leq(names[i], name)
}

/// Newest log for a label. Names embed the timestamp, so the greatest name is
/// the newest run. `--timestamp off` is the single `<label>.log` file.
pub fn latest_log(names: &Vec<String>, label: &str) -> (best: Option<String>)
    ensures
        match best {
            Some(name) => newest(name@, crate::text::texts(names@), label@),
            None => forall|i: int|
                0 <= i < names@.len() ==> !belongs_to_spec((#[trigger] names@[i])@, label@),
        },
{
    let mut best: Option<usize> = None;
    let mut i: usize = 0;
    while i < names.len()
        invariant
            i <= names.len(),
            match best {
                Some(b) => {
                    &&& b < i
                    &&& belongs_to_spec(names@[b as int]@, label@)
                    &&& forall|k: int|
                        0 <= k < i && belongs_to_spec((#[trigger] names@[k])@, label@)
                            ==> crate::order::text_leq(names@[k]@, names@[b as int]@)
                },
                None => forall|k: int|
                    0 <= k < i ==> !belongs_to_spec((#[trigger] names@[k])@, label@),
            },
        decreases names.len() - i,
    {
        if belongs_to(names[i].as_str(), label) {
            let newer = match best {
                None => true,
                Some(b) => !is_text_leq(names[i].as_str(), names[b].as_str()),
            };
            if newer {
                proof {
                    if let Some(b) = best {
                        crate::order::text_leq_total(names@[i as int]@, names@[b as int]@);
                        assert forall|k: int|
                            0 <= k < i + 1 && belongs_to_spec(
                                (#[trigger] names@[k])@,
                                label@,
                            ) implies crate::order::text_leq(names@[k]@, names@[i as int]@) by {
                            if k < i {
                                crate::order::text_leq_trans(
                                    names@[k]@,
                                    names@[b as int]@,
                                    names@[i as int]@,
                                );
                            } else {
                                crate::order::text_leq_refl(names@[k]@);
                            }
                        }
                    } else {
                        crate::order::text_leq_refl(names@[i as int]@);
                    }
                }
                best = Some(i);
            }
        }
        i += 1;
    }
    match best {
        Some(b) => {
            proof {
                let all = crate::text::texts(names@);
                assert(all[b as int] == names@[b as int]@);
                assert forall|k: int|
                    0 <= k < all.len() && belongs_to_spec(#[trigger] all[k], label@) implies
                    crate::order::text_leq(all[k], names@[b as int]@) by {
                    assert(all[k] == names@[k]@);
                }
            }
            Some(names[b].clone())
        },
        None => None,
    }
}

/// The line for a label without a log.
pub open spec fn no_log_message(label: Seq<char>) -> Seq<char> {
    "deemo: no log file found for label '"@ + label + "'"@
}

/// `deemo logs <LABEL>`: the log file to show. Without one, what to say and
/// the exit code.
pub fn logs(names: &Vec<String>, label: &str) -> (found: Result<String, Output>)
    ensures
        match found {
            Ok(name) => newest(name@, crate::text::texts(names@), label@),
            Err(out) => {
                &&& out.text@ == no_log_message(label@)
                &&& out.code == 1
                &&& forall|i: int|
                    0 <= i < names@.len() ==> !belongs_to_spec((#[trigger] names@[i])@, label@)
            },
        },
{
    match latest_log(names, label) {
        Some(name) => Ok(name),
        None => {
            let mut text = String::from_str("deemo: no log file found for label '");
            text.append(label);
            text.append("'");
            Err(Output { text, code: 1 })
        },
    }
}

// ---------------------------------------------------------------------------
// Showing a log
// ---------------------------------------------------------------------------

/// How many bytes of a log are shown at most.
pub const TAIL: u64 = 4096;

/// Where the part of a log that is shown begins.
pub open spec fn tail_start_spec(len: u64) -> int {
    if len > TAIL {
        len - TAIL
    } else {
        0
    }
}

/// Where the part of a log that is shown begins.
pub fn tail_start(len: u64) -> (start: u64)
    ensures
        start == tail_start_spec(len),
        start == if len > TAIL {
            len - TAIL
        } else {
            0
        },
{
    if len > TAIL {
        len - TAIL
    } else {
        0
    }
}

/// What `deemo logs` prints, given the text of the tail.
pub open spec fn shown(path: Seq<char>, len: u64, tail: Seq<u8>, text: Seq<char>) -> Seq<char> {
    let head = path + "\n"@;
    let note = if len > TAIL {
        "… (showing last "@ + crate::text::decimal_spec(tail.len()) + " of "@
            + crate::text::decimal_spec(len as nat) + " bytes)"@ + "\n"@
    } else {
        seq![]
    };
    let end = if tail.len() > 0 && tail.last() == 10u8 {
        seq![]
    } else {
        "\n"@
    };
    head + note + text + end
}

/// What `deemo logs` prints of a file of `len` bytes, given the bytes of its
/// tail and their text.
pub fn show_text(path: &str, len: u64, tail: &Vec<u8>, text: &str) -> (out: String)
    ensures
        out@ == shown(path@, len, tail@, text@),
{
    let mut out = String::from_str(path);
    out.append("\n");
    if tail_start(len) > 0 {
        out.append("… (showing last ");
        push_decimal(&mut out, tail.len() as u64);
        out.append(" of ");
        push_decimal(&mut out, len);
        out.append(" bytes)");
        out.append("\n");
    }
    out.append(text);
    if !(tail.len() > 0 && tail[tail.len() - 1] == 10u8) {
        out.append("\n");
    }
    proof {
        assert(out@ =~= shown(path@, len, tail@, text@));
    }
    out
}

/// What `deemo logs` prints of a file of `len` bytes: its path and the last
/// ~4 KiB of it, which the caller has read.
pub fn show_log(path: &str, len: u64, tail: &Vec<u8>) -> (out: String)
    ensures
        out@ == shown(path@, len, tail@, crate::text::utf8_lossy(tail@)),
        vstd::utf8::valid_utf8(tail@) ==> out@ == shown(
            path@,
            len,
            tail@,
            vstd::utf8::decode_utf8(tail@),
        ),
{
    let text = from_utf8_lossy(tail);
    show_text(path, len, tail, text.as_str())
}

/// What `deemo logs` prints of the log that it found, and its exit code, given
/// the length of the file and the bytes of its tail, or why they could not be
/// read.
pub fn log_output(path: &str, read: &Result<(u64, Vec<u8>), String>) -> (out: Output)
    ensures
        match *read {
            Ok((len, tail)) => out.code == 0 && out.text@ == shown(
                path@,
                len,
                tail@,
                crate::text::utf8_lossy(tail@),
            ),
            Err(e) => out.code == 1 && out.text@ == "deemo: "@ + e@,
        },
{
    match read {
        Ok((len, tail)) => Output { text: show_log(path, *len, tail), code: 0 },
        Err(e) => {
            let mut text = String::from_str("deemo: ");
            text.append(e.as_str());
            Output { text, code: 1 }
        },
    }
}

// ---------------------------------------------------------------------------
// Laws
// ---------------------------------------------------------------------------

/// The log file of a run counts among the files of its label.
pub proof fn a_log_belongs_to_its_label(
    label: Seq<char>,
    scheme: Timestamp,
    m: crate::clock::Moment,
)
    requires
        m.valid(),
    ensures
        belongs_to_spec(log_name(label, scheme, m), label),
{
    crate::clock::stamps_have_their_shape(m);
    match scheme {
        Timestamp::Off => {},
        Timestamp::Day => {
            assert(crate::clock::is_stamp(crate::clock::day_stamp(m)));
        },
        Timestamp::Run => {
            assert(crate::clock::is_stamp(crate::clock::run_stamp(m)));
        },
    }
}

/// The label goes on from the other with a dash and a stamp, so that its
/// `<label>.log` is also the name of a stamped log of the other.
pub open spec fn goes_on_with_a_stamp(label: Seq<char>, other: Seq<char>) -> bool {
    exists|stamp: Seq<char>| #[trigger]
        crate::clock::is_stamp(stamp) && label == other + "-"@ + stamp
}

/// Nothing that ends a stamp behind a dash is a stamp.
proof fn no_stamp_in_a_stamp(s: Seq<char>, t: Seq<char>)
    requires
        crate::clock::is_stamp(s),
        crate::clock::is_stamp(t),
        t.len() < s.len(),
        s[s.len() - t.len() - 1] == '-',
    ensures
        s.skip(s.len() - t.len()) != t,
{
    let at = s.len() - t.len() - 1;
    let rest = s.skip(s.len() - t.len());
    if crate::clock::is_day_stamp(s) {
        assert('0' <= s[at] <= '9' || s[at] == '+');
    } else {
        let day = s.len() - 11;
        if at < day {
            let front = s.take(day);
            assert(front[at] == s[at]);
            assert('0' <= front[at] <= '9' || front[at] == '+');
        } else {
            assert(at == day);
            assert(t.len() == 10);
            assert(rest[0] == s[day + 1]);
            assert(rest[6] == s[day + 7]);
        }
    }
}

/// Two stamped names are the same only for the same label.
proof fn stamped_names_differ(a: Seq<char>, t: Seq<char>, b: Seq<char>, s: Seq<char>)
    requires
        crate::clock::is_stamp(t),
        crate::clock::is_stamp(s),
        stamped_log_name(a, t) == stamped_log_name(b, s),
    ensures
        a == b,
{
    reveal_strlit("-");
    reveal_strlit(".log");
    let name = stamped_log_name(a, t);
    let n = name.len() - 4;
    assert(name.take(n) =~= a + "-"@ + t);
    assert(name.take(n) =~= b + "-"@ + s);
    if t.len() == s.len() {
        assert(a =~= name.take(n - t.len() - 1));
        assert(b =~= name.take(n - t.len() - 1));
    } else if t.len() < s.len() {
        assert(s =~= name.subrange(n - s.len(), n));
        assert(t =~= name.subrange(n - t.len(), n));
        assert(s.skip(s.len() - t.len()) =~= t);
        assert(s[s.len() - t.len() - 1] == name[a.len() as int]);
        no_stamp_in_a_stamp(s, t);
    } else {
        assert(s =~= name.subrange(n - s.len(), n));
        assert(t =~= name.subrange(n - t.len(), n));
        assert(t.skip(t.len() - s.len()) =~= s);
        assert(t[t.len() - s.len() - 1] == name[b.len() as int]);
        no_stamp_in_a_stamp(t, s);
    }
}

/// The log files of another label are ignored. The one exception is a name
/// that both labels give: where one label is the other with a dash and a stamp
/// behind it.
pub proof fn other_labels_are_ignored(
    a: Seq<char>,
    b: Seq<char>,
    scheme: Timestamp,
    m: crate::clock::Moment,
)
    requires
        m.valid(),
        a != b,
        scheme == Timestamp::Off ==> !goes_on_with_a_stamp(b, a),
        scheme != Timestamp::Off ==> !goes_on_with_a_stamp(a, b),
    ensures
        !belongs_to_spec(log_name(b, scheme, m), a),
{
    reveal_strlit(".log");
    crate::clock::stamps_have_their_shape(m);
    let name = log_name(b, scheme, m);
    let n = name.len() - 4;
    if scheme == Timestamp::Off {
        assert(name.take(n) =~= b);
        if name == plain_log_name(a) {
            assert(name.take(n) =~= a);
        }
        assert forall|t: Seq<char>| #[trigger] crate::clock::is_stamp(t) implies name
            != stamped_log_name(a, t) by {
            if name == stamped_log_name(a, t) {
                assert(name.take(n) =~= a + "-"@ + t);
            }
        }
    } else {
        let s = if scheme == Timestamp::Day {
            crate::clock::day_stamp(m)
        } else {
            crate::clock::run_stamp(m)
        };
        assert(crate::clock::is_stamp(s));
        assert(name.take(n) =~= b + "-"@ + s);
        if name == plain_log_name(a) {
            assert(name.take(n) =~= a);
        }
        assert forall|t: Seq<char>| #[trigger] crate::clock::is_stamp(t) implies name
            != stamped_log_name(a, t) by {
            if name == stamped_log_name(a, t) {
                stamped_names_differ(a, t, b, s);
            }
        }
    }
}

/// The names of a label's log files sort in time order, for a single scheme
/// and up to the year 9999.
pub proof fn names_sort_in_time_order(
    label: Seq<char>,
    scheme: Timestamp,
    a: crate::clock::Moment,
    b: crate::clock::Moment,
)
    requires
        a.valid(),
        b.valid(),
        a.year <= 9999,
        b.year <= 9999,
        a.before(b),
    ensures
        crate::order::text_leq(log_name(label, scheme, a), log_name(label, scheme, b)),
        scheme == Timestamp::Run ==> log_name(label, scheme, a) != log_name(label, scheme, b),
{
    crate::clock::stamps_sort_in_time_order(a, b);
    crate::clock::stamps_have_one_length(a);
    crate::clock::stamps_have_one_length(b);
    match scheme {
        Timestamp::Off => {
            crate::order::text_leq_refl(plain_log_name(label));
        },
        Timestamp::Day => {
            if a.date() < b.date() {
                stamped_names_grow(label, crate::clock::day_stamp(a), crate::clock::day_stamp(b));
            } else {
                assert(a.year == b.year && a.month == b.month && a.day == b.day);
                crate::order::text_leq_refl(log_name(label, scheme, a));
            }
        },
        Timestamp::Run => {
            stamped_names_grow(label, crate::clock::run_stamp(a), crate::clock::run_stamp(b));
        },
    }
}

proof fn stamped_names_grow(label: Seq<char>, a: Seq<char>, b: Seq<char>)
    requires
        a.len() == b.len(),
        crate::order::text_lt(a, b),
    ensures
        crate::order::text_lt(stamped_log_name(label, a), stamped_log_name(label, b)),
{
    crate::clock::front_decides(a, b, ".log"@, ".log"@);
    crate::clock::rest_decides(label + "-"@, a + ".log"@, b + ".log"@);
    assert(stamped_log_name(label, a) =~= label + "-"@ + (a + ".log"@));
    assert(stamped_log_name(label, b) =~= label + "-"@ + (b + ".log"@));
}

/// The file that is being written to is never deleted.
pub proof fn the_current_log_is_never_pruned(sorted: Seq<String>, n: int, current: Seq<char>)
    ensures
        !removed(sorted, n, current).contains(current),
    decreases n,
{
    if n > 0 {
        the_current_log_is_never_pruned(sorted, n - 1, current);
    }
}

proof fn removed_is_old(sorted: Seq<String>, n: int, current: Seq<char>, k: int)
    requires
        0 <= k < removed(sorted, n, current).len(),
        n <= sorted.len(),
    ensures
        exists|i: int| 0 <= i < n && (#[trigger] sorted[i])@ == removed(sorted, n, current)[k],
    decreases n,
{
    let r = removed(sorted, n, current);
    if n > 0 {
        if sorted[n - 1]@ != current && k == r.len() - 1 {
            assert(sorted[n - 1]@ == r[k]);
        } else {
            assert(removed(sorted, n - 1, current)[k] == r[k]);
            removed_is_old(sorted, n - 1, current, k);
        }
    }
}

/// Nothing but files of the label goes.
pub proof fn only_files_of_the_label_go(
    sorted: Seq<String>,
    names: Seq<String>,
    label: Seq<char>,
    keep: u32,
    current: Seq<char>,
    k: int,
)
    requires
        oldest_first(sorted, names, label),
        0 <= k < removed(sorted, excess(sorted.len(), keep), current).len(),
    ensures
        belongs_to_spec(removed(sorted, excess(sorted.len(), keep), current)[k], label),
{
    let n = excess(sorted.len(), keep);
    let p = |name: String| belongs_to_spec(name@, label);
    removed_is_old(sorted, n, current, k);
    let i = choose|i: int| 0 <= i < n && (#[trigger] sorted[i])@ == removed(sorted, n, current)[k];
    sorted.to_multiset_ensures();
    files_of(names, label).to_multiset_ensures();
    assert(sorted.contains(sorted[i]));
    assert(sorted.to_multiset().count(sorted[i]) > 0);
    let files = names.filter(p);
    assert(files.contains(sorted[i]));
    let j = choose|j: int| 0 <= j < files.len() && files[j] == sorted[i];
    names.lemma_filter_pred(p, j);
    assert(p(files[j]));
}

/// No file that stays, but for the current one, is older than one that goes.
pub proof fn the_oldest_go_first(sorted: Seq<String>, keep: u32, current: Seq<char>, k: int, j: int)
    requires
        crate::order::is_sorted(sorted),
        0 <= k < removed(sorted, excess(sorted.len(), keep), current).len(),
        excess(sorted.len(), keep) <= j < sorted.len(),
    ensures
        crate::order::text_leq(
            removed(sorted, excess(sorted.len(), keep), current)[k],
            sorted[j]@,
        ),
{
    let n = excess(sorted.len(), keep);
    removed_is_old(sorted, n, current, k);
    let i = choose|i: int| 0 <= i < n && (#[trigger] sorted[i])@ == removed(sorted, n, current)[k];
    assert(crate::order::Ranked::leq(sorted[i], sorted[j]));
}

proof fn removes_all_but_current(sorted: Seq<String>, n: int, current: Seq<char>)
    requires
        0 <= n <= sorted.len(),
        forall|i: int| 0 <= i < n ==> (#[trigger] sorted[i])@ != current,
    ensures
        removed(sorted, n, current).len() == n,
    decreases n,
{
    if n > 0 {
        removes_all_but_current(sorted, n - 1, current);
    }
}

/// With the current file last in order and every name once, exactly those
/// beyond `keep` go, and `keep` stay.
pub proof fn keep_files_stay(sorted: Seq<String>, keep: u32, current: Seq<char>)
    requires
        crate::order::is_sorted(sorted),
        keep > 0,
        forall|i: int, j: int|
            0 <= i < j < sorted.len() ==> (#[trigger] sorted[i])@ != (#[trigger] sorted[j])@,
        forall|i: int|
            0 <= i < sorted.len() ==> crate::order::text_leq((#[trigger] sorted[i])@, current),
    ensures
        removed(sorted, excess(sorted.len(), keep), current).len() == excess(sorted.len(), keep),
{
    let n = excess(sorted.len(), keep);
    assert forall|i: int| 0 <= i < n implies (#[trigger] sorted[i])@ != current by {
        let last = sorted.len() - 1;
        assert(i < last);
        assert(crate::order::Ranked::leq(sorted[i], sorted[last]));
        if sorted[i]@ == current {
            crate::order::text_leq_antisym(sorted[i]@, sorted[last]@);
        }
    }
    removes_all_but_current(sorted, n, current);
}

/// What `deemo logs` shows is the newest run: no run of the label whose log is
/// there came after it.
pub proof fn the_newest_run_is_shown(
    names: Seq<Seq<char>>,
    label: Seq<char>,
    a: crate::clock::Moment,
    b: crate::clock::Moment,
)
    requires
        a.valid(),
        b.valid(),
        a.year <= 9999,
        b.year <= 9999,
        newest(log_name(label, Timestamp::Run, a), names, label),
        names.contains(log_name(label, Timestamp::Run, b)),
    ensures
        !a.before(b),
{
    let (x, y) = (log_name(label, Timestamp::Run, a), log_name(label, Timestamp::Run, b));
    a_log_belongs_to_its_label(label, Timestamp::Run, b);
    let i = choose|i: int| 0 <= i < names.len() && names[i] == y;
    assert(crate::order::text_leq(names[i], x));
    if a.before(b) {
        names_sort_in_time_order(label, Timestamp::Run, a, b);
        crate::order::text_leq_antisym(x, y);
    }
}

} // verus!
