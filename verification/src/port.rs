//! Which processes hold a TCP/UDP port.
//!
//! Only sockets whose **local** address carries the port are reported: a
//! client that merely connects *to* the port has some random local port and
//! must not be caught in the blast radius.
//!
//! The socket tables come in as text, the way each platform offers them:
//! `/proc` on Linux, `lsof -F pn` on macOS and the BSDs, `netstat -ano` on
//! Windows.

use vstd::prelude::*;

use crate::text::{
    chars, ends_with, fields, find_pair, from_utf8_lossy, lines, parse_number, part, rfind, rows, same, starts_with,
    string, texts, trim,
};

verus! {

// ---------------------------------------------------------------------------
// Addresses
// ---------------------------------------------------------------------------

/// The first field of a text, or nothing.
pub open spec fn first_field(s: Seq<char>) -> Seq<char> {
    let f = crate::text::fields_spec(s);
    if f.len() > 0 {
        f[0]
    } else {
        seq![]
    }
}

/// The side of an address that the process bound itself to: what stands
/// before white space and before a `->`.
pub open spec fn local_side(addr: Seq<char>) -> Seq<char> {
    let first = first_field(addr);
    first.take(crate::text::find_pair_spec(first, '-', '>'))
}

/// What stands behind the last colon.
pub open spec fn after_colon(s: Seq<char>) -> Option<Seq<char>> {
    let at = crate::text::rfind_spec(s, ':');
    if at < 0 {
        None
    } else {
        Some(s.skip(at + 1))
    }
}

/// The local side of the address names the port in decimal.
pub open spec fn local_port_spec(addr: Seq<char>, port: int) -> bool {
    match after_colon(local_side(addr)) {
        Some(p) => crate::text::numeral_upto(p, false, u16::MAX as int) == Some(port),
        None => false,
    }
}

fn behind_last_colon(s: &Vec<char>) -> (out: Option<Vec<char>>)
    ensures
        match out {
            Some(p) => after_colon(s@) == Some(p@),
            None => after_colon(s@) is None,
        },
{
    match rfind(s, ':') {
        Some(at) => {
            let p = part(s, at + 1, s.len());
            proof {
                assert(p@ =~= s@.skip(at + 1));
            }
            Some(p)
        },
        None => None,
    }
}

fn names_port(addr: &Vec<char>, port: u16) -> (yes: bool)
    ensures
        yes == local_port_spec(addr@, port as int),
{
    let list = fields(addr);
    let first: Vec<char> = if list.len() > 0 {
        proof {
            assert(rows(list@)[0] == list@[0]@);
        }
        part(&list[0], 0, list[0].len())
    } else {
        Vec::new()
    };
    proof {
        assert(first@ =~= first_field(addr@));
    }
    let end = find_pair(&first, '-', '>');
    let local = part(&first, 0, end);
    proof {
        assert(local@ =~= local_side(addr@));
    }
    match behind_last_colon(&local) {
        Some(p) => match parse_number(&p, false, u16::MAX as u64) {
            Some(n) => n == port as u64,
            None => false,
        },
        None => false,
    }
}

/// The local side of an address spec names `port`?
///
/// Accepts what the three sources emit: `*:8000`, `127.0.0.1:8000`,
/// `[::1]:8000`, a peer after `->` and a trailing state such as `(LISTEN)`.
/// Only the part *before* `->` counts: that is the side the process bound
/// itself to.
pub fn local_port(addr: &str, port: u16) -> (yes: bool)
    ensures
        yes == local_port_spec(addr@, port as int),
{
    names_port(&chars(addr), port)
}

// ---------------------------------------------------------------------------
// lsof -F pn
// ---------------------------------------------------------------------------

/// The process that the records so far have opened: the number on the last
/// `p` line.
pub open spec fn lsof_pid(rows: Seq<Seq<char>>) -> Option<int>
    decreases rows.len(),
{
    if rows.len() == 0 {
        None
    } else if rows.last().len() > 0 && rows.last()[0] == 'p' {
        crate::text::numeral_upto(rows.last().skip(1), false, u32::MAX as int)
    } else {
        lsof_pid(rows.drop_last())
    }
}

/// The processes with an `n` line whose local side names the port, one for
/// each such line.
pub open spec fn lsof_pids(rows: Seq<Seq<char>>, port: int) -> Seq<u32>
    decreases rows.len(),
{
    if rows.len() == 0 {
        seq![]
    } else {
        let before = lsof_pids(rows.drop_last(), port);
        let line = rows.last();
        match lsof_pid(rows.drop_last()) {
            Some(pid) => if line.len() > 0 && line[0] == 'n' && local_port_spec(
                line.skip(1),
                port,
            ) {
                before.push(pid as u32)
            } else {
                before
            },
            None => before,
        }
    }
}

/// Parses `lsof -F pn` output: `p<pid>` opens a record, `n<address>` names one
/// file of that process.
pub fn pids_from_lsof(text: &str, port: u16) -> (pids: Vec<u32>)
    ensures
        pids@ == lsof_pids(crate::text::lines_spec(text@), port as int),
{
    let list = lines(&chars(text));
    let ghost all = rows(list@);
    let mut pids: Vec<u32> = Vec::new();
    let mut pid: Option<u32> = None;
    let mut i: usize = 0;
    proof {
        assert(all.take(0) =~= Seq::<Seq<char>>::empty());
    }
    while i < list.len()
        invariant
            i <= list.len(),
            all == rows(list@),
            all == crate::text::lines_spec(text@),
            pids@ == lsof_pids(all.take(i as int), port as int),
            match pid {
                Some(p) => lsof_pid(all.take(i as int)) == Some(p as int),
                None => lsof_pid(all.take(i as int)) is None,
            },
        decreases list.len() - i,
    {
        let line = &list[i];
        proof {
            assert(all.take(i + 1).drop_last() =~= all.take(i as int));
            assert(all.take(i + 1).last() == line@);
        }
        if line.len() > 0 {
            let rest = part(line, 1, line.len());
            proof {
                assert(rest@ =~= line@.skip(1));
            }
            if line[0] == 'p' {
                pid =
                match parse_number(&rest, false, u32::MAX as u64) {
                    Some(n) => Some(n as u32),
                    None => None,
                };
                proof {
                    crate::text::numeral_not_negative(rest@, false);
                }
            } else if line[0] == 'n' {
                if let Some(p) = pid {
                    if names_port(&rest, port) {
                        pids.push(p);
                    }
                }
            }
        }
        i += 1;
    }
    proof {
        assert(all.take(list@.len() as int) =~= all);
    }
    pids
}

// ---------------------------------------------------------------------------
// netstat -ano
// ---------------------------------------------------------------------------

/// The process on one `netstat -ano` line whose local address names the port:
/// the last field.
pub open spec fn netstat_pid(line: Seq<char>, port: int) -> Option<int> {
    let f = crate::text::fields_spec(line);
    if f.len() >= 2 && local_port_spec(f[1], port) {
        crate::text::numeral_upto(f.last(), false, u32::MAX as int)
    } else {
        None
    }
}

/// The processes on the lines whose local address names the port.
pub open spec fn netstat_pids(rows: Seq<Seq<char>>, port: int) -> Seq<u32>
    decreases rows.len(),
{
    if rows.len() == 0 {
        seq![]
    } else {
        let before = netstat_pids(rows.drop_last(), port);
        match netstat_pid(rows.last(), port) {
            Some(pid) => before.push(pid as u32),
            None => before,
        }
    }
}

/// Parses `netstat -ano`: proto, local address, remote address, [state,] pid.
pub fn pids_from_netstat(text: &str, port: u16) -> (pids: Vec<u32>)
    ensures
        pids@ == netstat_pids(crate::text::lines_spec(text@), port as int),
{
    let list = lines(&chars(text));
    let ghost all = rows(list@);
    let mut pids: Vec<u32> = Vec::new();
    let mut i: usize = 0;
    proof {
        assert(all.take(0) =~= Seq::<Seq<char>>::empty());
    }
    while i < list.len()
        invariant
            i <= list.len(),
            all == rows(list@),
            all == crate::text::lines_spec(text@),
            pids@ == netstat_pids(all.take(i as int), port as int),
        decreases list.len() - i,
    {
        let f = fields(&list[i]);
        proof {
            assert(all.take(i + 1).drop_last() =~= all.take(i as int));
            assert(all.take(i + 1).last() == list@[i as int]@);
        }
        if f.len() >= 2 {
            proof {
                assert(rows(f@)[1] == f@[1]@);
                assert(rows(f@).last() == f@[f@.len() - 1]@);
                crate::text::numeral_not_negative(f@[f@.len() - 1]@, false);
            }
            if names_port(&f[1], port) {
                if let Some(pid) = parse_number(&f[f.len() - 1], false, u32::MAX as u64) {
                    pids.push(pid as u32);
                }
            }
        }
        i += 1;
    }
    proof {
        assert(all.take(list@.len() as int) =~= all);
    }
    pids
}

// ---------------------------------------------------------------------------
// /proc
// ---------------------------------------------------------------------------

/// The inode on one line of a `/proc/net` table whose local address, field 1,
/// carries the port in hexadecimal: field 9.
pub open spec fn table_inode(line: Seq<char>, port: int) -> Option<Seq<char>> {
    let f = crate::text::fields_spec(line);
    if f.len() < 2 {
        None
    } else {
        match after_colon(f[1]) {
            Some(hex) => if crate::text::numeral_upto(hex, true, u16::MAX as int) == Some(port)
                && f.len() >= 10 {
                Some(f[9])
            } else {
                None
            },
            None => None,
        }
    }
}

/// The inodes on the lines of a table.
pub open spec fn line_inodes(rows: Seq<Seq<char>>, port: int) -> Seq<Seq<char>>
    decreases rows.len(),
{
    if rows.len() == 0 {
        seq![]
    } else {
        let before = line_inodes(rows.drop_last(), port);
        match table_inode(rows.last(), port) {
            Some(inode) => before.push(inode),
            None => before,
        }
    }
}

/// The inodes in a table: its first line is the header.
pub open spec fn inodes_in_table(table: Seq<char>, port: int) -> Seq<Seq<char>> {
    let all = crate::text::lines_spec(table);
    line_inodes(
        if all.len() > 0 {
            all.drop_first()
        } else {
            all
        },
        port,
    )
}

fn inode_on_line(line: &Vec<char>, port: u16) -> (inode: Option<Vec<char>>)
    ensures
        match inode {
            Some(i) => table_inode(line@, port as int) == Some(i@),
            None => table_inode(line@, port as int) is None,
        },
{
    let f = fields(line);
    if f.len() < 2 {
        return None;
    }
    proof {
        assert(rows(f@)[1] == f@[1]@);
    }
    match behind_last_colon(&f[1]) {
        Some(hex) => {
            match parse_number(&hex, true, u16::MAX as u64) {
                Some(n) => {
                    if n == port as u64 && f.len() >= 10 {
                        proof {
                            assert(rows(f@)[9] == f@[9]@);
                        }
                        let inode = part(&f[9], 0, f[9].len());
                        proof {
                            assert(inode@ =~= f@[9]@);
                        }
                        Some(inode)
                    } else {
                        None
                    }
                },
                None => None,
            }
        },
        None => None,
    }
}

/// Socket inodes in one `/proc/net/*` table bound locally to `port`.
/// Line 0 is the header; `local_address` (field 1) is `<hex addr>:<hex port>`,
/// the inode is field 9.
pub fn socket_inodes(table: &str, port: u16) -> (inodes: Vec<String>)
    ensures
        texts(inodes@) == inodes_in_table(table@, port as int),
{
    let list = lines(&chars(table));
    let ghost all = rows(list@);
    let ghost body = if all.len() > 0 { all.drop_first() } else { all };
    let mut inodes: Vec<String> = Vec::new();
    let mut i: usize = 1;
    proof {
        assert(body.take(0) =~= Seq::<Seq<char>>::empty());
        assert(texts(inodes@) =~= Seq::<Seq<char>>::empty());
    }
    while i < list.len()
        invariant
            1 <= i,
            i <= list.len() || (i == 1 && list.len() == 0),
            all == rows(list@),
            body == (if all.len() > 0 { all.drop_first() } else { all }),
            texts(inodes@) == line_inodes(body.take(i - 1), port as int),
        decreases list.len() - i,
    {
        proof {
            assert(body.take(i as int).drop_last() =~= body.take(i - 1));
            assert(body.take(i as int).last() == list@[i as int]@);
        }
        if let Some(inode) = inode_on_line(&list[i], port) {
            let s = string(&inode);
            proof {
                crate::text::texts_push(inodes@, s);
            }
            inodes.push(s);
        }
        i += 1;
    }
    proof {
        assert(body.take(i - 1) =~= body);
    }
    inodes
}

/// A process directory: its name under `/proc` and where its file descriptors
/// point.
pub struct Process {
    pub name: String,
    pub links: Vec<String>,
}

/// The inode of a descriptor that reads `socket:[<inode>]`.
pub open spec fn link_inode(link: Seq<char>) -> Option<Seq<char>> {
    let prefix = "socket:["@;
    let rest = link.skip(prefix.len() as int);
    if crate::text::starts_with_spec(link, prefix) && crate::text::ends_with_spec(rest, "]"@) {
        Some(rest.take(rest.len() - 1))
    } else {
        None
    }
}

/// Some descriptor is one of these sockets.
pub open spec fn holds_socket(links: Seq<Seq<char>>, inodes: Seq<Seq<char>>) -> bool {
    exists|k: int|
        0 <= k < links.len() && link_inode(#[trigger] links[k]) is Some && inodes.contains(
            link_inode(links[k])->0,
        )
}

/// The processes that own one of these sockets: the names that are numbers.
pub open spec fn socket_pids(processes: Seq<Process>, inodes: Seq<Seq<char>>) -> Seq<u32>
    decreases processes.len(),
{
    if processes.len() == 0 {
        seq![]
    } else {
        let before = socket_pids(processes.drop_last(), inodes);
        let p = processes.last();
        match crate::text::numeral_upto(p.name@, false, u32::MAX as int) {
            Some(pid) => if holds_socket(texts(p.links@), inodes) {
                before.push(pid as u32)
            } else {
                before
            },
            None => before,
        }
    }
}

fn has_text(list: &Vec<String>, wanted: &Vec<char>) -> (yes: bool)
    ensures
        yes == texts(list@).contains(wanted@),
{
    let mut i: usize = 0;
    while i < list.len()
        invariant
            i <= list.len(),
            forall|k: int| 0 <= k < i ==> list@[k]@ != wanted@,
        decreases list.len() - i,
    {
        if same(&chars(list[i].as_str()), wanted) {
            proof {
                assert(texts(list@)[i as int] == wanted@);
            }
            return true;
        }
        i += 1;
    }
    proof {
        assert forall|k: int| 0 <= k < texts(list@).len() implies texts(list@)[k] != wanted@ by {
            assert(texts(list@)[k] == list@[k]@);
        }
    }
    false
}

fn inode_of_link(link: &str) -> (inode: Option<Vec<char>>)
    ensures
        match inode {
            Some(i) => link_inode(link@) == Some(i@),
            None => link_inode(link@) is None,
        },
{
    let all = chars(link);
    let prefix = chars("socket:[");
    let suffix = chars("]");
    if !starts_with(&all, &prefix) {
        return None;
    }
    let rest = part(&all, prefix.len(), all.len());
    proof {
        reveal_strlit("]");
        assert(rest@ =~= link@.skip(prefix@.len() as int));
    }
    if !ends_with(&rest, &suffix) {
        return None;
    }
    let inode = part(&rest, 0, rest.len() - 1);
    proof {
        assert(inode@ =~= rest@.take(rest@.len() - 1));
    }
    Some(inode)
}

fn process_holds(links: &Vec<String>, inodes: &Vec<String>) -> (yes: bool)
    ensures
        yes == holds_socket(texts(links@), texts(inodes@)),
{
    let mut i: usize = 0;
    while i < links.len()
        invariant
            i <= links.len(),
            forall|k: int|
                0 <= k < i ==> !(link_inode(#[trigger] links@[k]@) is Some && texts(
                    inodes@,
                ).contains(link_inode(links@[k]@)->0)),
        decreases links.len() - i,
    {
        if let Some(inode) = inode_of_link(links[i].as_str()) {
            if has_text(inodes, &inode) {
                proof {
                    assert(texts(links@)[i as int] == links@[i as int]@);
                }
                return true;
            }
        }
        i += 1;
    }
    proof {
        let l = texts(links@);
        assert forall|k: int| 0 <= k < l.len() implies !(link_inode(#[trigger] l[k]) is Some
            && texts(inodes@).contains(link_inode(l[k])->0)) by {
            assert(l[k] == links@[k]@);
        }
    }
    false
}

/// The processes owning any of these socket inodes (a descriptor that is a
/// socket reads `socket:[<inode>]`), in the order they were listed. Names that
/// are no number are not process directories.
pub fn pids_with_sockets(inodes: &Vec<String>, processes: &Vec<Process>) -> (pids: Vec<u32>)
    ensures
        pids@ == socket_pids(processes@, texts(inodes@)),
{
    let mut pids: Vec<u32> = Vec::new();
    let mut i: usize = 0;
    proof {
        assert(processes@.take(0) =~= Seq::<Process>::empty());
    }
    while i < processes.len()
        invariant
            i <= processes.len(),
            pids@ == socket_pids(processes@.take(i as int), texts(inodes@)),
        decreases processes.len() - i,
    {
        let p = &processes[i];
        proof {
            assert(processes@.take(i + 1).drop_last() =~= processes@.take(i as int));
            assert(processes@.take(i + 1).last() == p);
            crate::text::numeral_not_negative(p.name@, false);
        }
        if let Some(pid) = parse_number(&chars(p.name.as_str()), false, u32::MAX as u64) {
            if process_holds(&p.links, inodes) {
                pids.push(pid as u32);
            }
        }
        i += 1;
    }
    proof {
        assert(processes@.take(processes@.len() as int) =~= processes@);
    }
    pids
}

// ---------------------------------------------------------------------------
// Holders
// ---------------------------------------------------------------------------

/// How an attempt to run `lsof` ended.
pub enum LsofRun {
    /// No such program.
    NotFound,
    /// It could not be run, and why.
    Failed(String),
    /// What it printed.
    Ran { stdout: String, stderr: String },
}

impl LsofRun {
    /// What `lsof` printed.
    pub fn ran(stdout: &Vec<u8>, stderr: &Vec<u8>) -> (run: LsofRun)
        ensures
            run is Ran,
            run->stdout@ == crate::text::utf8_lossy(stdout@),
            run->stderr@ == crate::text::utf8_lossy(stderr@),
            crate::text::decodes(run->stdout@, stdout@),
            crate::text::decodes(run->stderr@, stderr@),
    {
        LsofRun::Ran { stdout: from_utf8_lossy(stdout), stderr: from_utf8_lossy(stderr) }
    }
}

/// What the platform shows of its sockets.
pub enum Sockets {
    /// The `/proc/net` tables, those that could be read, and the processes.
    Procfs { tables: Vec<Option<String>>, processes: Vec<Process> },
    /// `lsof -nP -F pn -i :PORT`.
    Lsof(LsofRun),
    /// `netstat -ano`: what it printed, or why it could not be run.
    Netstat(Result<String, String>),
}

impl Sockets {
    /// What `netstat` printed.
    pub fn netstat(stdout: &Vec<u8>) -> (sockets: Sockets)
        ensures
            sockets matches Sockets::Netstat(Ok(text)) && text@ == crate::text::utf8_lossy(stdout@)
                && crate::text::decodes(text@, stdout@),
    {
        Sockets::Netstat(Ok(from_utf8_lossy(stdout)))
    }
}

/// The inodes in all the tables that could be read.
pub open spec fn inodes_in_tables(tables: Seq<Option<String>>, port: int) -> Seq<Seq<char>>
    decreases tables.len(),
{
    if tables.len() == 0 {
        seq![]
    } else {
        let before = inodes_in_tables(tables.drop_last(), port);
        match tables.last() {
            Some(table) => before + inodes_in_table(table@, port),
            None => before,
        }
    }
}

/// Some table could be read.
pub open spec fn any_table(tables: Seq<Option<String>>) -> bool {
    exists|k: int| 0 <= k < tables.len() && #[trigger] tables[k] is Some
}

/// The sockets of the tables that are bound to the port; an error where no
/// table could be read.
pub fn procfs_inodes(tables: &Vec<Option<String>>, port: u16) -> (inodes: Result<
    Vec<String>,
    String,
>)
    ensures
        match inodes {
            Ok(list) => any_table(tables@) && texts(list@) == inodes_in_tables(
                tables@,
                port as int,
            ),
            Err(e) => !any_table(tables@) && e@
                == "/proc/net/* is not readable, so port holders cannot be listed"@,
        },
{
    let mut list: Vec<String> = Vec::new();
    let mut any = false;
    let mut i: usize = 0;
    proof {
        assert(tables@.take(0) =~= Seq::<Option<String>>::empty());
        assert(texts(list@) =~= Seq::<Seq<char>>::empty());
    }
    while i < tables.len()
        invariant
            i <= tables.len(),
            any == any_table(tables@.take(i as int)),
            texts(list@) == inodes_in_tables(tables@.take(i as int), port as int),
        decreases tables.len() - i,
    {
        let ghost head = tables@.take(i as int);
        proof {
            assert(tables@.take(i + 1).drop_last() =~= head);
            assert(tables@.take(i + 1).last() == tables@[i as int]);
            assert forall|k: int| 0 <= k < i implies head[k] == tables@.take(i + 1)[k] by {}
        }
        if let Some(table) = &tables[i] {
            let mut more = socket_inodes(table.as_str(), port);
            let ghost a = list@;
            let ghost b = more@;
            list.append(&mut more);
            proof {
                assert(texts(a + b) =~= texts(a) + texts(b));
                assert(tables@.take(i + 1)[i as int] is Some);
            }
            any = true;
        } else {
            proof {
                if any_table(tables@.take(i + 1)) {
                    let k = choose|k: int|
                        0 <= k < tables@.take(i + 1).len() && #[trigger] tables@.take(i + 1)[k] is Some;
                    assert(head[k] is Some);
                }
                if any {
                    let k = choose|k: int| 0 <= k < head.len() && #[trigger] head[k] is Some;
                    assert(tables@.take(i + 1)[k] is Some);
                }
            }
        }
        i += 1;
    }
    proof {
        assert(tables@.take(tables@.len() as int) =~= tables@);
    }
    if any {
        Ok(list)
    } else {
        Err("/proc/net/* is not readable, so port holders cannot be listed".to_string())
    }
}

/// The processes that the platform shows on the port, in the order and as
/// often as it shows them, or why it cannot.
pub open spec fn listed(sockets: Sockets, port: int) -> Result<Seq<u32>, Seq<char>> {
    match sockets {
        Sockets::Procfs { tables, processes } => if any_table(tables@) {
            Ok(socket_pids(processes@, inodes_in_tables(tables@, port)))
        } else {
            Err("/proc/net/* is not readable, so port holders cannot be listed"@)
        },
        Sockets::Lsof(run) => match run {
            LsofRun::NotFound => Err(
                "lsof not found in PATH (needed to list port holders on this platform)"@,
            ),
            LsofRun::Failed(e) => Err(e@),
            LsofRun::Ran { stdout, stderr } => if stdout@.len() == 0 && stderr@.len() > 0 {
                Err("lsof: "@ + crate::text::trim_spec(stderr@))
            } else {
                Ok(lsof_pids(crate::text::lines_spec(stdout@), port))
            },
        },
        Sockets::Netstat(run) => match run {
            Ok(text) => Ok(netstat_pids(crate::text::lines_spec(text@), port)),
            Err(e) => Err("cannot run netstat: "@ + e@),
        },
    }
}

/// Strictly ascending: sorted, and nothing twice.
pub open spec fn ascending(s: Seq<u32>) -> bool {
    forall|i: int, j: int| 0 <= i < j < s.len() ==> #[trigger] s[i] < #[trigger] s[j]
}

fn sort_dedup(pids: &Vec<u32>) -> (out: Vec<u32>)
    ensures
        ascending(out@),
        out@.to_set() == pids@.to_set(),
{
    let mut out: Vec<u32> = Vec::new();
    let mut i: usize = 0;
    proof {
        assert(out@.to_set() =~= pids@.take(0).to_set());
    }
    while i < pids.len()
        invariant
            i <= pids.len(),
            ascending(out@),
            out@.to_set() == pids@.take(i as int).to_set(),
        decreases pids.len() - i,
    {
        let pid = pids[i];
        let mut at: usize = 0;
        while at < out.len() && out[at] < pid
            invariant
                at <= out.len(),
                forall|k: int| 0 <= k < at ==> out@[k] < pid,
            decreases out.len() - at,
        {
            at += 1;
        }
        let ghost before = out@;
        let ghost head = pids@.take(i as int);
        proof {
            assert(pids@.take(i + 1) =~= head.push(pid));
            head.lemma_push_to_set_commute(pid);
        }
        if at == out.len() || out[at] != pid {
            out.insert(at, pid);
            proof {
                assert forall|a: int, b: int| 0 <= a < b < out@.len() implies #[trigger] out@[a]
                    < #[trigger] out@[b] by {
                    let sa = if a < at { a } else { a - 1 };
                    let sb = if b < at { b } else { b - 1 };
                    if a == at {
                        assert(out@[b] == before[sb]);
                        if sb > at {
                            assert(before[at as int] < before[sb]);
                        }
                    } else if b == at {
                        assert(out@[a] == before[sa]);
                    } else {
                        assert(out@[a] == before[sa] && out@[b] == before[sb]);
                    }
                }
                assert forall|x: u32| out@.to_set().contains(x) == before.to_set().insert(
                    pid,
                ).contains(x) by {
                    if out@.contains(x) && x != pid {
                        let k = choose|k: int| 0 <= k < out@.len() && out@[k] == x;
                        assert(before[if k < at { k } else { k - 1 }] == x);
                    }
                    if before.contains(x) {
                        let k = choose|k: int| 0 <= k < before.len() && before[k] == x;
                        assert(out@[if k < at { k } else { k + 1 }] == x);
                    }
                    if x == pid {
                        assert(out@[at as int] == pid);
                    }
                }
                assert(out@.to_set() =~= before.to_set().insert(pid));
            }
        } else {
            proof {
                assert(before[at as int] == pid);
                assert(before.contains(pid));
                assert(before.to_set().insert(pid) =~= before.to_set());
            }
        }
        i += 1;
    }
    proof {
        assert(pids@.take(pids@.len() as int) =~= pids@);
    }
    out
}

fn listed_pids(port: u16, sockets: &Sockets) -> (found: Result<Vec<u32>, String>)
    ensures
        match found {
            Ok(pids) => listed(*sockets, port as int) == Ok::<Seq<u32>, Seq<char>>(pids@),
            Err(e) => listed(*sockets, port as int) == Err::<Seq<u32>, Seq<char>>(e@),
        },
{
    match sockets {
        Sockets::Procfs { tables, processes } => match procfs_inodes(tables, port) {
            Ok(inodes) => Ok(pids_with_sockets(&inodes, processes)),
            Err(e) => Err(e),
        },
        Sockets::Lsof(run) => match run {
            LsofRun::NotFound => Err(
                "lsof not found in PATH (needed to list port holders on this platform)".to_string(),
            ),
            LsofRun::Failed(e) => Err(e.clone()),
            LsofRun::Ran { stdout, stderr } => {
                if stdout.as_str().is_empty() && !stderr.as_str().is_empty() {
                    let mut e = "lsof: ".to_string();
                    e.append(string(&trim(&chars(stderr.as_str()))).as_str());
                    Err(e)
                } else {
                    Ok(pids_from_lsof(stdout.as_str(), port))
                }
            },
        },
        Sockets::Netstat(run) => match run {
            Ok(text) => Ok(pids_from_netstat(text.as_str(), port)),
            Err(e) => {
                let mut s = "cannot run netstat: ".to_string();
                s.append(e.as_str());
                Err(s)
            },
        },
    }
}

/// Pids of every process with a socket bound locally to `port` (TCP + UDP,
/// IPv4 + IPv6, any state), sorted and deduplicated.
pub fn holders(port: u16, sockets: &Sockets) -> (found: Result<Vec<u32>, String>)
    ensures
        match found {
            Ok(pids) => {
                &&& listed(*sockets, port as int) is Ok
                &&& ascending(pids@)
                &&& pids@.to_set() == listed(*sockets, port as int)->Ok_0.to_set()
            },
            Err(e) => listed(*sockets, port as int) == Err::<Seq<u32>, Seq<char>>(e@),
        },
{
    match listed_pids(port, sockets) {
        Ok(pids) => Ok(sort_dedup(&pids)),
        Err(e) => Err(e),
    }
}

// ---------------------------------------------------------------------------
// Laws
// ---------------------------------------------------------------------------

/// Two strictly ascending lists of the same pids are the same list.
pub proof fn holders_are_determined(a: Seq<u32>, b: Seq<u32>)
    requires
        ascending(a),
        ascending(b),
        a.to_set() == b.to_set(),
    ensures
        a == b,
    decreases a.len(),
{
    if a.len() == 0 {
        if b.len() > 0 {
            assert(b.to_set().contains(b[0]));
            assert(a.contains(b[0]));
        }
        assert(a =~= b);
    } else {
        assert(a.to_set().contains(a.last()));
        assert(b.contains(a.last()));
        assert(b.to_set().contains(b.last()));
        assert(a.contains(b.last()));
        let i = choose|i: int| 0 <= i < b.len() && b[i] == a.last();
        let j = choose|j: int| 0 <= j < a.len() && a[j] == b.last();
        assert(a.last() == b.last());
        let x = a.drop_last();
        let y = b.drop_last();
        assert forall|v: u32| x.to_set().contains(v) == y.to_set().contains(v) by {
            if x.contains(v) {
                let k = choose|k: int| 0 <= k < x.len() && x[k] == v;
                assert(a[k] == v && a[k] < a.last());
                assert(a.to_set().contains(v));
                assert(b.contains(v));
                let m = choose|m: int| 0 <= m < b.len() && b[m] == v;
                assert(y[m] == v);
            }
            if y.contains(v) {
                let k = choose|k: int| 0 <= k < y.len() && y[k] == v;
                assert(b[k] == v && b[k] < b.last());
                assert(b.to_set().contains(v));
                assert(a.contains(v));
                let m = choose|m: int| 0 <= m < a.len() && a[m] == v;
                assert(x[m] == v);
            }
        }
        assert(x.to_set() =~= y.to_set());
        holders_are_determined(x, y);
        assert(a =~= x.push(a.last()));
        assert(b =~= y.push(b.last()));
    }
}

/// A text of one word: no white space.
pub open spec fn one_word(s: Seq<char>) -> bool {
    forall|k: int| 0 <= k < s.len() ==> !crate::text::is_space(#[trigger] s[k])
}

proof fn word_before(word: Seq<char>, rest: Seq<char>)
    requires
        one_word(word),
    ensures
        crate::text::word_len(word + rest) == word.len() + crate::text::word_len(rest),
    decreases word.len(),
{
    if word.len() == 0 {
        assert(word + rest =~= rest);
    } else {
        assert((word + rest).drop_first() =~= word.drop_first() + rest);
        assert(!crate::text::is_space(word[0]));
        assert forall|k: int| 0 <= k < word.drop_first().len() implies !crate::text::is_space(
            #[trigger] word.drop_first()[k],
        ) by {
            assert(word.drop_first()[k] == word[k + 1]);
        }
        word_before(word.drop_first(), rest);
    }
}

proof fn pair_behind(local: Seq<char>, rest: Seq<char>)
    requires
        crate::text::find_pair_spec(local, '-', '>') == local.len(),
        rest.len() >= 2,
        rest[0] == '-',
        rest[1] == '>',
    ensures
        crate::text::find_pair_spec(local + rest, '-', '>') == local.len(),
    decreases local.len(),
{
    let s = local + rest;
    if local.len() == 0 {
        assert(s =~= rest);
    } else {
        assert(s.drop_first() =~= local.drop_first() + rest);
        if local.len() == 1 {
            assert(s[1] == '-');
        } else {
            assert(s[0] == local[0] && s[1] == local[1]);
        }
        crate::text::find_pair_bounds(local.drop_first(), '-', '>');
        pair_behind(local.drop_first(), rest);
    }
}

/// The peer of a connection never counts: an address with a peer names a port
/// exactly when its own local side does. A client that connects *to* a port
/// has another local port, and is left alone.
pub proof fn a_peer_never_counts(local: Seq<char>, peer: Seq<char>, port: int)
    requires
        one_word(local),
        crate::text::find_pair_spec(local, '-', '>') == local.len(),
    ensures
        local_port_spec(local + seq!['-', '>'] + peer, port) == local_port_spec(local, port),
{
    let rest = seq!['-', '>'] + peer;
    let addr = local + rest;
    assert(local + seq!['-', '>'] + peer =~= addr);
    word_before(local, rest);
    word_before(seq!['-', '>'], peer);
    crate::text::word_len_bounds(peer);
    let n = crate::text::word_len(addr);
    let first = first_field(addr);
    assert(first =~= addr.take(n));
    let tail = rest.take(n - local.len());
    assert(first =~= local + tail);
    pair_behind(local, tail);
    assert(local_side(addr) =~= local);
    if local.len() == 0 {
        assert(local_side(local) =~= local);
    } else {
        word_before(local, seq![]);
        assert(local + Seq::<char>::empty() =~= local);
        assert(first_field(local) =~= local);
        assert(local_side(local) =~= local);
    }
}

/// What follows white space never counts: a trailing state such as `(LISTEN)`
/// is ignored.
pub proof fn a_state_never_counts(addr: Seq<char>, state: Seq<char>, port: int)
    requires
        one_word(addr),
        addr.len() > 0,
    ensures
        local_port_spec(addr + seq![' '] + state, port) == local_port_spec(addr, port),
{
    let rest = seq![' '] + state;
    assert(addr + seq![' '] + state =~= addr + rest);
    word_before(addr, rest);
    word_before(addr, seq![]);
    assert(addr + Seq::<char>::empty() =~= addr);
    assert(first_field(addr + rest) =~= addr);
    assert(first_field(addr) =~= addr);
}

/// In the tables of the kernel and of `netstat`, nothing but the local address
/// decides whether a line counts: two lines with the same local address, and
/// the same inode or pid, count alike, whatever their peers and states are.
pub proof fn only_the_local_address_counts(a: Seq<char>, b: Seq<char>, port: int)
    requires
        crate::text::fields_spec(a).len() >= 2,
        crate::text::fields_spec(b).len() >= 2,
        crate::text::fields_spec(a)[1] == crate::text::fields_spec(b)[1],
    ensures
        crate::text::fields_spec(a).len() >= 10 && crate::text::fields_spec(b).len() >= 10
            && crate::text::fields_spec(a)[9] == crate::text::fields_spec(b)[9] ==> table_inode(
            a,
            port,
        ) == table_inode(b, port),
        crate::text::fields_spec(a).last() == crate::text::fields_spec(b).last() ==> netstat_pid(
            a,
            port,
        ) == netstat_pid(b, port),
{
}

proof fn netstat_pids_of_parts(a: Seq<Seq<char>>, b: Seq<Seq<char>>, port: int)
    ensures
        netstat_pids(a + b, port) == netstat_pids(a, port) + netstat_pids(b, port),
    decreases b.len(),
{
    if b.len() == 0 {
        assert(a + b =~= a);
        assert(netstat_pids(a, port) + netstat_pids(b, port) =~= netstat_pids(a, port));
    } else {
        netstat_pids_of_parts(a, b.drop_last(), port);
        assert((a + b).drop_last() =~= a + b.drop_last());
        assert((a + b).last() == b.last());
        assert(netstat_pids(a + b, port) =~= netstat_pids(a, port) + netstat_pids(b, port));
    }
}

/// The lines of `netstat` stand for themselves: the pids of a text that is put
/// together at the end of a line are those of its parts, in order and as often
/// as they occur.
pub proof fn netstat_lines_are_independent(a: Seq<char>, b: Seq<char>, port: int)
    requires
        a.len() == 0 || a.last() == '\n',
    ensures
        netstat_pids(crate::text::lines_spec(a + b), port) == netstat_pids(
            crate::text::lines_spec(a),
            port,
        ) + netstat_pids(crate::text::lines_spec(b), port),
{
    crate::text::lines_of_parts(a, b);
    netstat_pids_of_parts(crate::text::lines_spec(a), crate::text::lines_spec(b), port);
}

/// A single line of `netstat` gives the pid in its last field, where its local
/// address names the port and that field is a pid; else it gives nothing.
pub proof fn a_netstat_line_gives_its_pid(line: Seq<char>, port: int)
    requires
        forall|i: int| 0 <= i < line.len() ==> #[trigger] line[i] != '\n',
    ensures
        ({
            let f = crate::text::fields_spec(line);
            netstat_pids(crate::text::lines_spec(line), port) == if f.len() >= 2 && local_port_spec(
                f[1],
                port,
            ) && crate::text::numeral_upto(f.last(), false, u32::MAX as int) is Some {
                seq![crate::text::numeral_upto(f.last(), false, u32::MAX as int)->0 as u32]
            } else {
                Seq::<u32>::empty()
            }
        }),
{
    crate::text::one_line_alone(line);
    reveal_with_fuel(netstat_pids, 2);
    if line.len() > 0 {
        assert(seq![line].drop_last() =~= Seq::<Seq<char>>::empty());
        assert(netstat_pids(seq![line].drop_last(), port) =~= Seq::<u32>::empty());
    }
}

} // verus!
