//! The command line, parsed.

use vstd::prelude::*;

use crate::text::{chars, part, rfind, same, string};

verus! {

/// `std::path::PathBuf`, carried through unread.
#[verifier::external_type_specification]
#[verifier::external_body]
pub struct ExPathBuf(std::path::PathBuf);

/// Log file naming scheme.
#[derive(Clone, Copy, PartialEq, Eq, Structural, Debug)]
pub enum Timestamp {
    /// None (just `<label>.log`, later runs append to it).
    Off,
    /// `<label>-YYYYmmdd.log` (one file per day, later runs append).
    Day,
    /// `<label>-YYYYmmdd-HHMMSS.mmm.log` (one file per run; the default).
    Run,
}

/// Management subcommands.
#[derive(Debug)]
pub enum Manage {
    /// List processes started by deemo (detached ones may still be running).
    Ps,
    /// Stop detached process(es) by label or pid.
    Stop { targets: Vec<String> },
    /// Stop whatever is bound to the port(s).
    Kill { ports: Vec<u16>, signal: Option<String>, dry_run: bool },
    /// Show the newest log file of a label: its path plus the last ~4 KiB.
    Logs { label: String },
}

/// A parsed command line.
#[derive(Debug)]
pub struct Cli {
    /// Label used for the log filename and `deemo stop`.
    pub label: Option<String>,
    /// Passthrough only; do not write any log files.
    pub yolo: bool,
    /// Log directory.
    pub dir: Option<std::path::PathBuf>,
    /// Log file naming scheme.
    pub timestamp: Timestamp,
    /// Keep at most this many newest log files with the same label (0 =
    /// unlimited).
    pub keep: u32,
    /// Do not echo the stream to stdout (only write the log).
    pub quiet: bool,
    /// Pipe mode: fork to the background and return to the shell at once.
    pub background: bool,
    /// Stay attached to this terminal instead of detaching.
    pub foreground: bool,
    /// Command to run.
    pub command: Vec<String>,
    /// Management subcommand.
    pub manage: Option<Manage>,
}

/// The last component of a path with `/` between its components, where it has
/// one that is a name: empty components and `.` do not count.
pub open spec fn file_name_spec(path: Seq<char>) -> Option<Seq<char>>
    decreases path.len(),
{
    let at = crate::text::rfind_spec(path, '/');
    let last = path.skip(at + 1);
    if path.len() == 0 {
        None
    } else if last.len() == 0 || last == "."@ {
        if 0 <= at < path.len() {
            file_name_spec(path.take(at))
        } else {
            None
        }
    } else if last == ".."@ {
        None
    } else {
        Some(last)
    }
}

/// The last component of a path with `/` between its components.
pub fn file_name(path: &str) -> (name: Option<String>)
    ensures
        match name {
            Some(n) => file_name_spec(path@) == Some(n@),
            None => file_name_spec(path@) is None,
        },
{
    let all = chars(path);
    let here = chars(".");
    let up = chars("..");
    let mut end: usize = all.len();
    proof {
        assert(all@.take(all@.len() as int) =~= all@);
    }
    while end > 0
        invariant
            end <= all.len(),
            all@ == path@,
            here@ == "."@,
            up@ == ".."@,
            file_name_spec(path@) == file_name_spec(path@.take(end as int)),
        decreases end,
    {
        let front = part(&all, 0, end);
        proof {
            assert(front@ =~= path@.take(end as int));
            crate::text::rfind_bounds(front@, '/');
        }
        match rfind(&front, '/') {
            Some(at) => {
                let last = part(&front, at + 1, front.len());
                proof {
                    assert(last@ =~= front@.skip(at + 1));
                    assert(front@.take(at as int) =~= path@.take(at as int));
                }
                if last.len() == 0 || same(&last, &here) {
                    end = at;
                } else if same(&last, &up) {
                    return None;
                } else {
                    return Some(string(&last));
                }
            },
            None => {
                proof {
                    assert(front@.skip(0) =~= front@);
                }
                if same(&front, &here) || same(&front, &up) {
                    return None;
                }
                return Some(string(&front));
            },
        }
    }
    None
}

/// The label of a run: the one given, else the program's name, else `session`.
pub open spec fn label_spec(label: Option<Seq<char>>, command: Seq<Seq<char>>) -> Seq<char> {
    match label {
        Some(label) => label,
        None => if command.len() > 0 && file_name_spec(command[0]) is Some {
            file_name_spec(command[0])->0
        } else {
            "session"@
        },
    }
}

impl Cli {
    /// The label of this run.
    pub open spec fn label_of(self) -> Seq<char> {
        label_spec(
            match self.label {
                Some(label) => Some(label@),
                None => None,
            },
            crate::text::texts(self.command@),
        )
    }

    /// Resolved log label: `--label` > child program name > `session`.
    pub fn label_string(&self) -> (label: String)
        ensures
            label@ == self.label_of(),
    {
        match &self.label {
            Some(label) => String::from_str(label.as_str()),
            None => {
                if self.command.len() > 0 {
                    if let Some(name) = file_name(self.command[0].as_str()) {
                        return name;
                    }
                }
                "session".to_string()
            },
        }
    }
}

/// A program that is not given a label runs under its own name, wherever it
/// is.
pub proof fn a_program_is_its_own_label(dir: Seq<char>, name: Seq<char>, arguments: Seq<Seq<char>>)
    requires
        name.len() > 0,
        forall|i: int| 0 <= i < name.len() ==> #[trigger] name[i] != '/',
        name != "."@,
        name != ".."@,
    ensures
        label_spec(None, seq![name] + arguments) == name,
        label_spec(None, seq![dir + "/"@ + name] + arguments) == name,
{
    reveal_strlit("/");
    crate::text::rfind_is(name, '/', -1);
    assert(name.skip(0) =~= name);
    let path = dir + "/"@ + name;
    crate::text::rfind_is(path, '/', dir.len() as int);
    assert(path.skip(dir.len() as int + 1) =~= name);
    assert((seq![name] + arguments)[0] == name);
    assert((seq![path] + arguments)[0] == path);
}

} // verus!
