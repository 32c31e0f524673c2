//! Which files are a label's logs, which of them go, and what is shown.

use vstd::prelude::*;

use crate::order::Ranked;
use crate::sink::Home;

verus! {

/// A directory that is given is the home, whatever else is set; without one the
/// variable is, unless it is empty; and without that `.deemo` in the user's own
/// home, or here where that is not known.
pub proof fn the_home_is_what_was_asked_for<P>(
    dir: P,
    variable: Option<(P, bool)>,
    user_home: Option<P>,
    here: P,
)
    ensures
        crate::sink::home_spec(Some(dir), variable, user_home, here) == Home::At(dir),
        crate::sink::home_spec(None, Some((dir, false)), user_home, here) == Home::At(dir),
        crate::sink::home_spec(None, Some((dir, true)), user_home, here) == crate::sink::home_spec(
            None,
            None,
            user_home,
            here,
        ),
        crate::sink::home_spec(None, None, Some(dir), here) == Home::DotDeemoIn(dir),
        crate::sink::home_spec(None, None, None, here) == Home::DotDeemoIn(here),
{
}

// ---------------------------------------------------------------------------
// Names
// ---------------------------------------------------------------------------

/// A name belongs to a label where it is `<label>.log`, or where a stamp
/// stands between the label and `.log`, behind a dash.
pub proof fn a_name_belongs_by_its_shape(name: Seq<char>, label: Seq<char>)
    ensures
        crate::sink::belongs_to_spec(name, label) <==> (name == label + ".log"@
            || exists|stamp: Seq<char>| #[trigger]
            crate::clock::is_stamp(stamp) && name == label + "-"@ + stamp + ".log"@),
{
}

/// The log of a run carries the time of the run in its name, or none, as the
/// scheme says.
pub proof fn a_log_is_named_by_its_scheme(label: Seq<char>, m: crate::clock::Moment)
    ensures
        crate::sink::log_name(label, crate::cli::Timestamp::Off, m) == label + ".log"@,
        crate::sink::log_name(label, crate::cli::Timestamp::Day, m) == label + "-"@
            + crate::clock::day_stamp(m) + ".log"@,
        crate::sink::log_name(label, crate::cli::Timestamp::Run, m) == label + "-"@
            + crate::clock::run_stamp(m) + ".log"@,
{
}

/// The files of a label are those of the names that belong to it, each as
/// often as it is there, in their order.
pub proof fn the_files_of_a_label_are_selected(names: Seq<String>, name: String, label: Seq<char>)
    ensures
        crate::sink::files_of(Seq::empty(), label).len() == 0,
        crate::sink::files_of(names.push(name), label) == if crate::sink::belongs_to_spec(
            name@,
            label,
        ) {
            crate::sink::files_of(names, label).push(name)
        } else {
            crate::sink::files_of(names, label)
        },
{
    let p = |name: String| crate::sink::belongs_to_spec(name@, label);
    reveal(Seq::filter);
    let all = names.push(name);
    assert(all.drop_last() =~= names);
    assert(all.last() == name);
    assert(Seq::<String>::empty().filter(p).len() == 0);
}

// ---------------------------------------------------------------------------
// Pruning
// ---------------------------------------------------------------------------

proof fn what_is_removed(sorted: Seq<String>, n: int, current: Seq<char>, x: Seq<char>)
    requires
        n <= sorted.len(),
    ensures
        crate::sink::removed(sorted, n, current).contains(x) <==> x != current && exists|i: int|
            0 <= i < n && (#[trigger] sorted[i])@ == x,
    decreases n,
{
    let all = crate::sink::removed(sorted, n, current);
    if n > 0 {
        let before = crate::sink::removed(sorted, n - 1, current);
        what_is_removed(sorted, n - 1, current, x);
        if all.contains(x) {
            let k = choose|k: int| 0 <= k < all.len() && all[k] == x;
            if k < before.len() {
                assert(before[k] == x);
            } else {
                assert(sorted[n - 1]@ == x);
            }
        }
        if x != current && exists|i: int| 0 <= i < n && (#[trigger] sorted[i])@ == x {
            let i = choose|i: int| 0 <= i < n && (#[trigger] sorted[i])@ == x;
            if i < n - 1 {
                let k = choose|k: int| 0 <= k < before.len() && before[k] == x;
                assert(all[k] == x);
            } else {
                assert(all[before.len() as int] == x);
            }
        }
    }
}

proof fn how_many_are_removed(sorted: Seq<String>, n: int, current: Seq<char>, at: int)
    requires
        0 <= n <= sorted.len(),
        forall|i: int| 0 <= i < n && i != at ==> (#[trigger] sorted[i])@ != current,
    ensures
        n - 1 <= crate::sink::removed(sorted, n, current).len() <= n,
        !(0 <= at < n) ==> crate::sink::removed(sorted, n, current).len() == n,
    decreases n,
{
    if n > 0 {
        how_many_are_removed(sorted, n - 1, current, at);
        if n - 1 == at {
            how_many_are_removed(sorted, n - 1, current, -1);
        }
    }
}

/// The files of a label are put in the order of their names, all of them and no
/// others.
pub proof fn the_files_are_put_in_order(
    sorted: Seq<String>,
    names: Seq<String>,
    label: Seq<char>,
    i: int,
    j: int,
)
    requires
        crate::sink::oldest_first(sorted, names, label),
        0 <= i < sorted.len(),
    ensures
        sorted.len() == crate::sink::files_of(names, label).len(),
        crate::sink::files_of(names, label).contains(sorted[i]),
        i < j < sorted.len() ==> crate::order::text_leq(sorted[i]@, sorted[j]@),
{
    let files = crate::sink::files_of(names, label);
    sorted.to_multiset_ensures();
    files.to_multiset_ensures();
    assert(sorted.contains(sorted[i]));
    assert(sorted.to_multiset().count(sorted[i]) > 0);
    if i < j < sorted.len() {
        assert(sorted[i].leq(sorted[j]));
    }
}

/// A file goes exactly where at least `keep` files of its label come behind it
/// in order and it is not the one that is being written to.
pub proof fn a_file_goes_where_enough_are_newer(
    sorted: Seq<String>,
    names: Seq<String>,
    label: Seq<char>,
    keep: u32,
    current: Seq<char>,
    x: Seq<char>,
)
    requires
        keep > 0,
        crate::sink::oldest_first(sorted, names, label),
    ensures
        crate::sink::removed(
            sorted,
            crate::sink::excess(sorted.len(), keep),
            current,
        ).contains(x) <==> x != current && exists|i: int|
            0 <= i < sorted.len() && sorted.len() - i > keep && (#[trigger] sorted[i])@ == x,
{
    let n = crate::sink::excess(sorted.len(), keep);
    what_is_removed(sorted, n, current, x);
    if x != current && exists|i: int|
        0 <= i < sorted.len() && sorted.len() - i > keep && (#[trigger] sorted[i])@ == x {
        let i = choose|i: int|
            0 <= i < sorted.len() && sorted.len() - i > keep && (#[trigger] sorted[i])@ == x;
        assert(i < n);
    }
    if crate::sink::removed(sorted, n, current).contains(x) {
        let i = choose|i: int| 0 <= i < n && (#[trigger] sorted[i])@ == x;
        assert(sorted.len() - i > keep);
    }
}

/// Of a label's files no more than `keep` stay, and no fewer, where there are
/// so many: with every name once, exactly as many go as there are too many. One
/// more stays only where the file that is being written to is an old one.
#[verifier::spinoff_prover]
pub proof fn no_more_than_keep_stay(
    sorted: Seq<String>,
    names: Seq<String>,
    label: Seq<char>,
    keep: u32,
    current: Seq<char>,
)
    requires
        keep > 0,
        crate::sink::oldest_first(sorted, names, label),
        forall|i: int, j: int|
            0 <= i < j < sorted.len() ==> (#[trigger] sorted[i])@ != (#[trigger] sorted[j])@,
    ensures
        ({
            let count = crate::sink::files_of(names, label).len();
            let stay = count - crate::sink::removed(
                sorted,
                crate::sink::excess(sorted.len(), keep),
                current,
            ).len();
            &&& count <= keep ==> stay == count
            &&& count > keep ==> keep <= stay <= keep + 1
            &&& (count > keep && forall|i: int|
                0 <= i < sorted.len() ==> crate::order::text_leq((#[trigger] sorted[i])@, current))
                ==> stay == keep
            &&& (count > keep && forall|i: int|
                0 <= i < sorted.len() ==> (#[trigger] sorted[i])@ != current) ==> stay == keep
        }),
{
    let n = crate::sink::excess(sorted.len(), keep);
    let files = crate::sink::files_of(names, label);
    sorted.to_multiset_ensures();
    files.to_multiset_ensures();
    assert(sorted.len() == files.len());
    if exists|i: int| 0 <= i < sorted.len() && (#[trigger] sorted[i])@ == current {
        let at = choose|i: int| 0 <= i < sorted.len() && (#[trigger] sorted[i])@ == current;
        assert forall|i: int| 0 <= i < n && i != at implies (#[trigger] sorted[i])@ != current by {
            if i < at {
                assert(sorted[i]@ != sorted[at]@);
            } else {
                assert(sorted[at]@ != sorted[i]@);
            }
        }
        how_many_are_removed(sorted, n, current, at);
        if forall|i: int|
            0 <= i < sorted.len() ==> crate::order::text_leq((#[trigger] sorted[i])@, current) {
            let last = sorted.len() - 1;
            if at < last {
                assert(sorted[at].leq(sorted[last]));
                crate::order::text_leq_antisym(sorted[at]@, sorted[last]@);
                assert(sorted[at]@ != sorted[last]@);
            }
        }
    } else {
        how_many_are_removed(sorted, n, current, -1);
    }
}

// ---------------------------------------------------------------------------
// Showing
// ---------------------------------------------------------------------------

/// The newest log of a label is one of the names, belongs to the label, and no
/// other name that does comes behind it in order.
pub proof fn the_newest_is_the_last_in_order(
    name: Seq<char>,
    names: Seq<Seq<char>>,
    label: Seq<char>,
    other: Seq<char>,
)
    requires
        crate::sink::newest(name, names, label),
        names.contains(other),
        crate::sink::belongs_to_spec(other, label),
    ensures
        names.contains(name),
        crate::sink::belongs_to_spec(name, label),
        crate::order::text_leq(other, name),
{
    let i = choose|i: int| 0 <= i < names.len() && names[i] == other;
    assert(crate::sink::belongs_to_spec(names[i], label));
}

/// A label has one newest log.
pub proof fn the_newest_is_one(
    a: Seq<char>,
    b: Seq<char>,
    names: Seq<Seq<char>>,
    label: Seq<char>,
)
    requires
        crate::sink::newest(a, names, label),
        crate::sink::newest(b, names, label),
    ensures
        a == b,
{
    the_newest_is_the_last_in_order(a, names, label, b);
    the_newest_is_the_last_in_order(b, names, label, a);
    crate::order::text_leq_antisym(a, b);
}

/// A log is shown from its start where it has no more than 4096 bytes, else the
/// last 4096 of them.
pub proof fn the_last_bytes_are_shown(len: u64)
    ensures
        0 <= crate::sink::tail_start_spec(len) <= len,
        len <= 4096 ==> crate::sink::tail_start_spec(len) == 0,
        len > 4096 ==> len - crate::sink::tail_start_spec(len) == 4096,
{
}

/// What is shown of a log is a line with its path, then all of the text that
/// was read, down to its last character. In between stands a line of its own
/// only where the log is longer than 4096 bytes, and what is shown ends its
/// last line.
#[verifier::spinoff_prover]
pub proof fn the_whole_tail_is_shown(path: Seq<char>, len: u64, tail: Seq<u8>, text: Seq<char>)
    ensures
        ({
            let out = crate::sink::shown(path, len, tail, text);
            let ended = tail.len() > 0 && tail.last() == 10u8;
            let front = out.len() - text.len() - if ended {
                0int
            } else {
                1
            };
            &&& out.take(path.len() as int) == path
            &&& out[path.len() as int] == '\n'
            &&& path.len() + 1 <= front
            &&& out.subrange(front, front + text.len()) == text
            &&& !ended ==> out.last() == '\n'
            &&& len <= 4096 ==> front == path.len() + 1
            &&& len > 4096 ==> exists|a: Seq<char>, b: Seq<char>, c: Seq<char>|
                out.subrange(path.len() as int + 1, front) == #[trigger] (a
                    + crate::text::decimal_spec(tail.len()) + b + crate::text::decimal_spec(
                    len as nat,
                ) + c) && c.last() == '\n' && forall|i: int|
                    0 <= i < b.len() ==> !('0' <= #[trigger] b[i] <= '9')
        }),
{
    reveal_strlit("\n");
    reveal_strlit("… (showing last ");
    reveal_strlit(" of ");
    reveal_strlit(" bytes)");
    let out = crate::sink::shown(path, len, tail, text);
    let ended = tail.len() > 0 && tail.last() == 10u8;
    let head = path + "\n"@;
    let (a, b, c) = ("… (showing last "@, " of "@, " bytes)"@ + "\n"@);
    let note = if len > 4096 {
        a + crate::text::decimal_spec(tail.len()) + b + crate::text::decimal_spec(len as nat) + c
    } else {
        seq![]
    };
    let end = if ended {
        seq![]
    } else {
        "\n"@
    };
    assert(out =~= head + note + text + end);
    let front = head.len() + note.len();
    assert(out.take(path.len() as int) =~= path);
    assert(out.subrange(front as int, (front + text.len()) as int) =~= text);
    assert(out.subrange(path.len() as int + 1, front as int) =~= note);
    assert(c.last() == '\n');
}

/// Where one more text is read behind another, it is shown behind it.
pub proof fn what_is_read_is_shown_in_order(
    path: Seq<char>,
    len: u64,
    tail: Seq<u8>,
    text: Seq<char>,
    c: char,
)
    ensures
        crate::sink::shown(path, len, tail, text.push(c)).len() == crate::sink::shown(
            path,
            len,
            tail,
            text,
        ).len() + 1,
{
}

/// What is said where a label has no log names the label.
pub proof fn a_label_without_log_is_named(label: Seq<char>)
    ensures
        crate::sink::no_log_message(label) == "deemo: no log file found for label '"@ + label
            + "'"@,
{
}

} // verus!
