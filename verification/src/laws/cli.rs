//! The label of a run.

use vstd::prelude::*;

verus! {

/// A label that is given is the label, whatever the command is.
pub proof fn a_given_label_is_the_label(label: Seq<char>, command: Seq<Seq<char>>)
    ensures
        crate::cli::label_spec(Some(label), command) == label,
{
}

/// Without a label, and without a program that has a name, it is `session`.
pub proof fn a_run_without_a_name_is_a_session(command: Seq<Seq<char>>)
    requires
        command.len() == 0 || crate::cli::file_name_spec(command[0]) is None,
    ensures
        crate::cli::label_spec(None, command) == "session"@,
{
}

/// Only the program decides about the label, not its arguments.
pub proof fn arguments_do_not_name_a_run(
    program: Seq<char>,
    a: Seq<Seq<char>>,
    b: Seq<Seq<char>>,
)
    ensures
        crate::cli::label_spec(None, seq![program] + a) == crate::cli::label_spec(
            None,
            seq![program] + b,
        ),
{
}

/// The name of a file is a component of its path: it is not empty, has no `/`,
/// is neither `.` nor `..`, and stands in the path.
pub proof fn a_file_name_is_a_component(path: Seq<char>)
    ensures
        match crate::cli::file_name_spec(path) {
            Some(name) => {
                &&& name.len() > 0
                &&& name != "."@
                &&& name != ".."@
                &&& forall|i: int| 0 <= i < name.len() ==> #[trigger] name[i] != '/'
                &&& exists|at: int|
                    0 <= at <= path.len() - name.len() && name == #[trigger] path.subrange(
                        at,
                        at + name.len(),
                    )
            },
            None => true,
        },
    decreases path.len(),
{
    crate::text::rfind_bounds(path, '/');
    let at = crate::text::rfind_spec(path, '/');
    let last = path.skip(at + 1);
    if path.len() > 0 {
        if last.len() == 0 || last == "."@ {
            if 0 <= at < path.len() {
                let front = path.take(at);
                a_file_name_is_a_component(front);
                if let Some(name) = crate::cli::file_name_spec(front) {
                    let k = choose|k: int|
                        0 <= k <= front.len() - name.len() && name == #[trigger] front.subrange(
                            k,
                            k + name.len(),
                        );
                    assert(path.subrange(k, k + name.len()) =~= name);
                }
            }
        } else if last != ".."@ {
            assert(path.subrange(at + 1, at + 1 + last.len()) =~= last);
            assert forall|i: int| 0 <= i < last.len() implies #[trigger] last[i] != '/' by {
                assert(path[at + 1 + i] != '/');
            }
        }
    }
}

/// A `/` behind a path, or a `/.`, changes nothing about its file name; one that
/// ends in `..` has none, nor has one that is nothing but that or a `.`.
pub proof fn trailing_dots_and_slashes(path: Seq<char>)
    ensures
        crate::cli::file_name_spec(path + "/"@) == crate::cli::file_name_spec(path),
        crate::cli::file_name_spec(path + "/."@) == crate::cli::file_name_spec(path),
        crate::cli::file_name_spec(path + "/.."@) is None,
        crate::cli::file_name_spec(".."@) is None,
        crate::cli::file_name_spec("."@) is None,
        crate::cli::file_name_spec(Seq::empty()) is None,
{
    reveal_strlit("/");
    reveal_strlit("/.");
    reveal_strlit("/..");
    reveal_strlit(".");
    reveal_strlit("..");
    let n = path.len() as int;
    let a = path + "/"@;
    crate::text::rfind_is(a, '/', n);
    assert(a.take(n) =~= path);
    assert(a.skip(n + 1) =~= Seq::<char>::empty());
    let b = path + "/."@;
    crate::text::rfind_is(b, '/', n);
    assert(b.take(n) =~= path);
    assert(b.skip(n + 1) =~= "."@);
    let c = path + "/.."@;
    crate::text::rfind_is(c, '/', n);
    assert(c.skip(n + 1) =~= ".."@);
    assert(c.skip(n + 1).len() == 2);
    crate::text::rfind_is(".."@, '/', -1);
    assert(".."@.skip(0) =~= ".."@);
    crate::text::rfind_is("."@, '/', -1);
    assert("."@.skip(0) =~= "."@);
}

} // verus!
