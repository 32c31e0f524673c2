//! Who holds a port.

use vstd::prelude::*;

use crate::port::{LsofRun, Process, Sockets};

verus! {

// ---------------------------------------------------------------------------
// Addresses
// ---------------------------------------------------------------------------

/// No `->` in the text.
pub open spec fn has_no_arrow(s: Seq<char>) -> bool {
    forall|k: int| 0 <= k < s.len() - 1 ==> !(#[trigger] s[k] == '-' && s[k + 1] == '>')
}

proof fn no_arrow_is_found(s: Seq<char>)
    requires
        has_no_arrow(s),
    ensures
        crate::text::find_pair_spec(s, '-', '>') == s.len(),
{
    crate::text::find_pair_bounds(s, '-', '>');
    let f = crate::text::find_pair_spec(s, '-', '>');
    if f < s.len() {
        assert(s[f] == '-');
    }
}

proof fn one_word_is_its_field(word: Seq<char>)
    requires
        word.len() > 0,
        forall|k: int| 0 <= k < word.len() ==> !crate::text::is_space(#[trigger] word[k]),
    ensures
        crate::port::first_field(word) == word,
{
    assert(crate::text::is_space(' '));
    crate::laws::text::fields_stand_between_white_space(word, ' ', seq![]);
}

/// An address `<host>:<port>` names the port that stands in decimal behind its
/// last colon, and no other.
pub proof fn an_address_names_its_port(host: Seq<char>, digits: Seq<char>, port: u16)
    requires
        forall|k: int| 0 <= k < host.len() ==> !crate::text::is_space(#[trigger] host[k]),
        forall|k: int| 0 <= k < digits.len() ==> '0' <= #[trigger] digits[k] <= '9',
        digits.len() > 0,
        has_no_arrow(host),
    ensures
        crate::port::local_port_spec(host + seq![':'] + digits, port as int) <==>
            crate::text::numeral(digits, false) == Some(port as int),
{
    let word = host + seq![':'] + digits;
    let n = host.len() as int;
    assert forall|k: int| 0 <= k < word.len() implies !crate::text::is_space(
        #[trigger] word[k],
    ) by {
        if k < n {
            assert(word[k] == host[k]);
        } else if k > n {
            assert(word[k] == digits[k - n - 1]);
        }
    }
    one_word_is_its_field(word);
    assert forall|k: int| 0 <= k < word.len() - 1 implies !(#[trigger] word[k] == '-' && word[k + 1]
        == '>') by {
        if k < n {
            assert(word[k] == host[k]);
            if k + 1 < n {
                assert(word[k + 1] == host[k + 1]);
            }
        } else if k > n {
            assert(word[k] == digits[k - n - 1]);
        }
    }
    no_arrow_is_found(word);
    assert(word.take(word.len() as int) =~= word);
    assert forall|k: int| n < k < word.len() implies word[k] != ':' by {
        assert(word[k] == digits[k - n - 1]);
    }
    crate::text::rfind_is(word, ':', n);
    assert(word.skip(n + 1) =~= digits);
}

/// An address without a colon names no port.
pub proof fn an_address_without_a_colon_names_none(word: Seq<char>, port: u16)
    requires
        forall|k: int|
            0 <= k < word.len() ==> #[trigger] word[k] != ':' && !crate::text::is_space(word[k]),
    ensures
        !crate::port::local_port_spec(word, port as int),
{
    if word.len() > 0 {
        one_word_is_its_field(word);
    } else {
        assert(crate::port::first_field(word) =~= word);
    }
    crate::text::find_pair_bounds(word, '-', '>');
    let local = word.take(crate::text::find_pair_spec(word, '-', '>'));
    crate::text::rfind_is(local, ':', -1);
}

/// White space in front of an address does not count.
pub proof fn white_space_in_front_does_not_count(space: char, address: Seq<char>, port: u16)
    requires
        crate::text::is_space(space),
    ensures
        crate::port::local_port_spec(seq![space] + address, port as int)
            == crate::port::local_port_spec(address, port as int),
{
    assert(!crate::text::is_space('a'));
    crate::laws::text::fields_stand_between_white_space(seq!['a'], space, address);
}

// ---------------------------------------------------------------------------
// lsof -F pn
// ---------------------------------------------------------------------------

/// The record that is open before row `k` is that of the process `pid`: the
/// last `p` row in front of it carries this number.
pub open spec fn belongs_to_pid(rows: Seq<Seq<char>>, k: int, pid: int) -> bool {
    exists|j: int| #[trigger] opens_record(rows, j, k, pid)
}

/// Row `j` is `p<pid>`, and no `p` row stands between it and row `k`.
pub open spec fn opens_record(rows: Seq<Seq<char>>, j: int, k: int, pid: int) -> bool {
    &&& 0 <= j < k
    &&& rows[j].len() > 0
    &&& rows[j][0] == 'p'
    &&& crate::text::numeral(rows[j].skip(1), false) == Some(pid)
    &&& pid <= u32::MAX
    &&& forall|m: int| j < m < k ==> !((#[trigger] rows[m]).len() > 0 && rows[m][0] == 'p')
}

/// Row `k` is `n<address>`, the address names the port, and it stands in the
/// record of this process.
pub open spec fn shows_holder(rows: Seq<Seq<char>>, k: int, port: int, pid: int) -> bool {
    &&& 0 <= k < rows.len()
    &&& rows[k].len() > 0
    &&& rows[k][0] == 'n'
    &&& crate::port::local_port_spec(rows[k].skip(1), port)
    &&& belongs_to_pid(rows, k, pid)
}

proof fn the_open_record(rows: Seq<Seq<char>>, pid: int)
    ensures
        crate::port::lsof_pid(rows) == Some(pid) <==> belongs_to_pid(rows, rows.len() as int, pid),
    decreases rows.len(),
{
    let n = rows.len() as int;
    if n > 0 {
        let front = rows.drop_last();
        the_open_record(front, pid);
        if rows.last().len() > 0 && rows.last()[0] == 'p' {
            if crate::port::lsof_pid(rows) == Some(pid) {
                assert(opens_record(rows, n - 1, n, pid));
            }
            if belongs_to_pid(rows, n, pid) {
                let j = choose|j: int| #[trigger] opens_record(rows, j, n, pid);
                if j < n - 1 {
                    assert(!(rows[n - 1].len() > 0 && rows[n - 1][0] == 'p'));
                }
            }
        } else {
            if belongs_to_pid(front, n - 1, pid) {
                let j = choose|j: int| #[trigger] opens_record(front, j, n - 1, pid);
                assert forall|m: int| j < m < n implies !((#[trigger] rows[m]).len() > 0
                    && rows[m][0] == 'p') by {
                    if m < n - 1 {
                        assert(front[m] == rows[m]);
                    }
                }
                assert(rows[j] == front[j]);
                assert(opens_record(rows, j, n, pid));
            }
            if belongs_to_pid(rows, n, pid) {
                let j = choose|j: int| #[trigger] opens_record(rows, j, n, pid);
                assert(j < n - 1);
                assert(front[j] == rows[j]);
                assert forall|m: int| j < m < n - 1 implies !((#[trigger] front[m]).len() > 0
                    && front[m][0] == 'p') by {
                    assert(front[m] == rows[m]);
                }
                assert(opens_record(front, j, n - 1, pid));
            }
        }
    } else if belongs_to_pid(rows, n, pid) {
        let j = choose|j: int| #[trigger] opens_record(rows, j, n, pid);
    }
}

proof fn a_record_looks_back(rows: Seq<Seq<char>>, k: int, pid: int)
    requires
        0 <= k < rows.len(),
    ensures
        belongs_to_pid(rows, k, pid) <==> belongs_to_pid(rows.take(k), k, pid),
{
    let front = rows.take(k);
    if belongs_to_pid(rows, k, pid) {
        let j = choose|j: int| #[trigger] opens_record(rows, j, k, pid);
        assert(front[j] == rows[j]);
        assert forall|m: int| j < m < k implies !((#[trigger] front[m]).len() > 0 && front[m][0]
            == 'p') by {
            assert(front[m] == rows[m]);
        }
        assert(opens_record(front, j, k, pid));
    }
    if belongs_to_pid(front, k, pid) {
        let j = choose|j: int| #[trigger] opens_record(front, j, k, pid);
        assert(front[j] == rows[j]);
        assert forall|m: int| j < m < k implies !((#[trigger] rows[m]).len() > 0 && rows[m][0]
            == 'p') by {
            assert(front[m] == rows[m]);
        }
        assert(opens_record(rows, j, k, pid));
    }
}

/// What `lsof` prints names a process exactly where one of its records shows
/// an address on the port.
pub proof fn lsof_names_whoever_shows_the_port(rows: Seq<Seq<char>>, port: u16, pid: u32)
    ensures
        crate::port::lsof_pids(rows, port as int).contains(pid) <==> exists|k: int|
            #[trigger] shows_holder(rows, k, port as int, pid as int),
    decreases rows.len(),
{
    let n = rows.len() as int;
    let all = crate::port::lsof_pids(rows, port as int);
    if n > 0 {
        let front = rows.drop_last();
        let before = crate::port::lsof_pids(front, port as int);
        lsof_names_whoever_shows_the_port(front, port, pid);
        the_open_record(front, pid as int);
        assert(rows.take(n - 1) =~= front);
        a_record_looks_back(rows, n - 1, pid as int);
        if all.contains(pid) {
            let i = choose|i: int| 0 <= i < all.len() && all[i] == pid;
            if i < before.len() {
                assert(before[i] == pid);
                let k = choose|k: int| #[trigger] shows_holder(front, k, port as int, pid as int);
                assert(rows[k] == front[k]);
                assert(front.take(k) =~= rows.take(k));
                a_record_looks_back(front, k, pid as int);
                a_record_looks_back(rows, k, pid as int);
                assert(shows_holder(rows, k, port as int, pid as int));
            } else {
                let open = crate::port::lsof_pid(front)->0;
                the_open_record(front, open);
                let j = choose|j: int| #[trigger] opens_record(front, j, n - 1, open);
                crate::text::numeral_not_negative(front[j].skip(1), false);
                assert(open as u32 == pid);
                assert(shows_holder(rows, n - 1, port as int, pid as int));
            }
        }
        if exists|k: int| #[trigger] shows_holder(rows, k, port as int, pid as int) {
            let k = choose|k: int| #[trigger] shows_holder(rows, k, port as int, pid as int);
            if k < n - 1 {
                assert(rows[k] == front[k]);
                assert(front.take(k) =~= rows.take(k));
                a_record_looks_back(front, k, pid as int);
                a_record_looks_back(rows, k, pid as int);
                assert(shows_holder(front, k, port as int, pid as int));
                let i = choose|i: int| 0 <= i < before.len() && before[i] == pid;
                assert(all[i] == pid);
            } else {
                assert(all[before.len() as int] == pid);
            }
        }
    }
}

/// Each row that `lsof` prints adds at most one process, behind those before.
pub proof fn lsof_rows_add_up(rows: Seq<Seq<char>>, row: Seq<char>, port: u16)
    ensures
        ({
            let before = crate::port::lsof_pids(rows, port as int);
            let after = crate::port::lsof_pids(rows.push(row), port as int);
            after == before || (after.len() == before.len() + 1 && after.drop_last() == before)
        }),
{
    assert(rows.push(row).drop_last() =~= rows);
    let before = crate::port::lsof_pids(rows, port as int);
    assert forall|x: u32| #[trigger] before.push(x).drop_last() == before by {
        assert(before.push(x).drop_last() =~= before);
    }
}

// ---------------------------------------------------------------------------
// netstat -ano
// ---------------------------------------------------------------------------

/// The line's second field names the port, and its last is this number.
pub open spec fn netstat_shows(line: Seq<char>, port: int, pid: int) -> bool {
    let f = crate::text::fields_spec(line);
    &&& f.len() >= 2
    &&& crate::port::local_port_spec(f[1], port)
    &&& crate::text::numeral(f[f.len() - 1], false) == Some(pid)
}

/// What `netstat` prints names a process exactly where a line shows it with
/// the port as its local one.
pub proof fn netstat_names_whoever_shows_the_port(rows: Seq<Seq<char>>, port: u16, pid: u32)
    ensures
        crate::port::netstat_pids(rows, port as int).contains(pid) <==> exists|k: int|
            0 <= k < rows.len() && netstat_shows(#[trigger] rows[k], port as int, pid as int),
    decreases rows.len(),
{
    let n = rows.len() as int;
    let all = crate::port::netstat_pids(rows, port as int);
    if n > 0 {
        let front = rows.drop_last();
        let before = crate::port::netstat_pids(front, port as int);
        netstat_names_whoever_shows_the_port(front, port, pid);
        let f = crate::text::fields_spec(rows.last());
        if f.len() > 0 {
            crate::text::numeral_not_negative(f.last(), false);
        }
        if all.contains(pid) {
            let i = choose|i: int| 0 <= i < all.len() && all[i] == pid;
            if i < before.len() {
                assert(before[i] == pid);
                let k = choose|k: int|
                    0 <= k < front.len() && netstat_shows(
                        #[trigger] front[k],
                        port as int,
                        pid as int,
                    );
                assert(rows[k] == front[k]);
            } else {
                assert(netstat_shows(rows[n - 1], port as int, pid as int));
            }
        }
        if exists|k: int|
            0 <= k < rows.len() && netstat_shows(#[trigger] rows[k], port as int, pid as int) {
            let k = choose|k: int|
                0 <= k < rows.len() && netstat_shows(#[trigger] rows[k], port as int, pid as int);
            if k < n - 1 {
                assert(rows[k] == front[k]);
                let i = choose|i: int| 0 <= i < before.len() && before[i] == pid;
                assert(all[i] == pid);
            } else {
                assert(all[before.len() as int] == pid);
            }
        }
    }
}

// ---------------------------------------------------------------------------
// /proc
// ---------------------------------------------------------------------------

/// The line of a table is that of a socket bound to the port: its second field
/// is `<address>:<port in hexadecimal>`, and its tenth is the inode.
pub open spec fn is_bound(line: Seq<char>, port: int, inode: Seq<char>) -> bool {
    let f = crate::text::fields_spec(line);
    &&& f.len() >= 10
    &&& f[9] == inode
    &&& exists|at: int| #[trigger] hex_port_behind(f[1], at, port)
}

/// Behind the last colon, at `at`, stands the port in hexadecimal.
pub open spec fn hex_port_behind(s: Seq<char>, at: int, port: int) -> bool {
    &&& 0 <= at < s.len()
    &&& s[at] == ':'
    &&& forall|m: int| at < m < s.len() ==> #[trigger] s[m] != ':'
    &&& crate::text::numeral(s.skip(at + 1), true) == Some(port)
}

proof fn a_bound_line_gives_its_inode(line: Seq<char>, port: u16, inode: Seq<char>)
    ensures
        crate::port::table_inode(line, port as int) == Some(inode) <==> is_bound(
            line,
            port as int,
            inode,
        ),
{
    let f = crate::text::fields_spec(line);
    if f.len() >= 2 {
        crate::text::rfind_bounds(f[1], ':');
        let at = crate::text::rfind_spec(f[1], ':');
        if crate::port::table_inode(line, port as int) == Some(inode) {
            assert(hex_port_behind(f[1], at, port as int));
        }
        if is_bound(line, port as int, inode) {
            let b = choose|b: int| #[trigger] hex_port_behind(f[1], b, port as int);
            crate::text::rfind_is(f[1], ':', b);
        }
    }
}

proof fn bound_lines_give_their_inodes(rows: Seq<Seq<char>>, port: u16, inode: Seq<char>)
    ensures
        crate::port::line_inodes(rows, port as int).contains(inode) <==> exists|k: int|
            0 <= k < rows.len() && is_bound(#[trigger] rows[k], port as int, inode),
    decreases rows.len(),
{
    let n = rows.len() as int;
    let all = crate::port::line_inodes(rows, port as int);
    if n > 0 {
        let front = rows.drop_last();
        let before = crate::port::line_inodes(front, port as int);
        bound_lines_give_their_inodes(front, port, inode);
        a_bound_line_gives_its_inode(rows.last(), port, inode);
        if all.contains(inode) {
            let i = choose|i: int| 0 <= i < all.len() && all[i] == inode;
            if i < before.len() {
                assert(before[i] == inode);
                let k = choose|k: int|
                    0 <= k < front.len() && is_bound(#[trigger] front[k], port as int, inode);
                assert(rows[k] == front[k]);
            } else {
                assert(is_bound(rows[n - 1], port as int, inode));
            }
        }
        if exists|k: int| 0 <= k < rows.len() && is_bound(#[trigger] rows[k], port as int, inode) {
            let k = choose|k: int|
                0 <= k < rows.len() && is_bound(#[trigger] rows[k], port as int, inode);
            if k < n - 1 {
                assert(rows[k] == front[k]);
                let i = choose|i: int| 0 <= i < before.len() && before[i] == inode;
                assert(all[i] == inode);
            } else {
                assert(all[before.len() as int] == inode);
            }
        }
    }
}

/// Some line of the table other than the first, which is the header, is that
/// of this socket.
pub open spec fn table_shows(table: Seq<char>, port: int, inode: Seq<char>) -> bool {
    exists|k: int|
        1 <= k < crate::text::lines_spec(table).len() && is_bound(
            #[trigger] crate::text::lines_spec(table)[k],
            port,
            inode,
        )
}

/// A table gives the inodes of the sockets bound to the port, all of them and
/// no others. Its header line is no socket.
pub proof fn a_table_gives_what_is_bound(table: Seq<char>, port: u16, inode: Seq<char>)
    ensures
        crate::port::inodes_in_table(table, port as int).contains(inode) <==> table_shows(
            table,
            port as int,
            inode,
        ),
{
    let all = crate::text::lines_spec(table);
    if all.len() > 0 {
        let body = all.drop_first();
        bound_lines_give_their_inodes(body, port, inode);
        if crate::port::inodes_in_table(table, port as int).contains(inode) {
            let k = choose|k: int|
                0 <= k < body.len() && is_bound(#[trigger] body[k], port as int, inode);
            assert(all[k + 1] == body[k]);
        }
        if table_shows(table, port as int, inode) {
            let k = choose|k: int|
                1 <= k < all.len() && is_bound(#[trigger] all[k], port as int, inode);
            assert(body[k - 1] == all[k]);
        }
    } else {
        bound_lines_give_their_inodes(all, port, inode);
    }
}

/// One of the tables could be read and shows this socket.
pub open spec fn tables_show(tables: Seq<Option<String>>, port: int, inode: Seq<char>) -> bool {
    exists|k: int|
        0 <= k < tables.len() && (#[trigger] tables[k] matches Some(table) && table_shows(
            table@,
            port,
            inode,
        ))
}

/// Every table that could be read counts, wherever it stands among the others:
/// a socket is found exactly where one of them shows it.
pub proof fn every_readable_table_counts(
    tables: Seq<Option<String>>,
    port: u16,
    inode: Seq<char>,
)
    ensures
        crate::port::inodes_in_tables(tables, port as int).contains(inode) <==> tables_show(
            tables,
            port as int,
            inode,
        ),
    decreases tables.len(),
{
    let n = tables.len() as int;
    let all = crate::port::inodes_in_tables(tables, port as int);
    if n > 0 {
        let front = tables.drop_last();
        let before = crate::port::inodes_in_tables(front, port as int);
        every_readable_table_counts(front, port, inode);
        if let Some(table) = tables.last() {
            let more = crate::port::inodes_in_table(table@, port as int);
            a_table_gives_what_is_bound(table@, port, inode);
            if all.contains(inode) {
                let i = choose|i: int| 0 <= i < all.len() && all[i] == inode;
                if i < before.len() {
                    assert(before[i] == inode);
                } else {
                    assert(more[i - before.len()] == inode);
                    assert(tables[n - 1] == Some(table));
                }
            }
            if before.contains(inode) {
                let i = choose|i: int| 0 <= i < before.len() && before[i] == inode;
                assert(all[i] == inode);
            }
            if more.contains(inode) {
                let i = choose|i: int| 0 <= i < more.len() && more[i] == inode;
                assert(all[before.len() + i] == inode);
            }
        }
        if tables_show(front, port as int, inode) {
            let k = choose|k: int|
                0 <= k < front.len() && (#[trigger] front[k] matches Some(table) && table_shows(
                    table@,
                    port as int,
                    inode,
                ));
            assert(tables[k] == front[k]);
        }
        if tables_show(tables, port as int, inode) {
            let k = choose|k: int|
                0 <= k < tables.len() && (#[trigger] tables[k] matches Some(table) && table_shows(
                    table@,
                    port as int,
                    inode,
                ));
            if k < n - 1 {
                assert(tables[k] == front[k]);
            }
        }
    }
}

/// The sockets of two lists of tables are those of the one and those of the
/// other.
pub proof fn tables_add_up(a: Seq<Option<String>>, b: Seq<Option<String>>, port: u16)
    ensures
        crate::port::inodes_in_tables(a + b, port as int) == crate::port::inodes_in_tables(
            a,
            port as int,
        ) + crate::port::inodes_in_tables(b, port as int),
    decreases b.len(),
{
    if b.len() == 0 {
        assert(a + b =~= a);
    } else {
        assert((a + b).drop_last() =~= a + b.drop_last());
        tables_add_up(a, b.drop_last(), port);
    }
}

/// A descriptor is a socket exactly where it reads `socket:[<inode>]`.
pub proof fn a_socket_link_names_its_inode(link: Seq<char>, inode: Seq<char>)
    ensures
        crate::port::link_inode(link) == Some(inode) <==> link == "socket:["@ + inode + "]"@,
{
    reveal_strlit("socket:[");
    reveal_strlit("]");
    let rest = link.skip(8);
    if crate::port::link_inode(link) == Some(inode) {
        assert(link =~= "socket:["@ + rest);
        assert(rest =~= inode + "]"@);
        assert("socket:["@ + (inode + "]"@) =~= "socket:["@ + inode + "]"@);
    }
    if link == "socket:["@ + inode + "]"@ {
        assert(link.take(8) =~= "socket:["@);
        assert(rest =~= inode + "]"@);
        assert(rest.skip(rest.len() - 1) =~= "]"@);
        assert(rest.take(rest.len() - 1) =~= inode);
    }
}

/// One of the process's descriptors is this socket.
pub open spec fn holds(process: Process, inode: Seq<char>) -> bool {
    exists|l: int|
        0 <= l < process.links@.len() && (#[trigger] process.links@[l])@ == "socket:["@ + inode
            + "]"@
}

/// The directory is that of the process `pid`, and one of its descriptors is
/// one of these sockets.
pub open spec fn owns_one(process: Process, inodes: Seq<Seq<char>>, pid: int) -> bool {
    &&& crate::text::numeral(process.name@, false) == Some(pid)
    &&& exists|i: int| 0 <= i < inodes.len() && holds(process, #[trigger] inodes[i])
}

proof fn holding_is_having_a_link(process: Process, inodes: Seq<Seq<char>>)
    ensures
        crate::port::holds_socket(crate::text::texts(process.links@), inodes) <==> exists|i: int|
            0 <= i < inodes.len() && holds(process, #[trigger] inodes[i]),
{
    let links = crate::text::texts(process.links@);
    if crate::port::holds_socket(links, inodes) {
        let k = choose|k: int|
            0 <= k < links.len() && crate::port::link_inode(#[trigger] links[k]) is Some
                && inodes.contains(crate::port::link_inode(links[k])->0);
        let inode = crate::port::link_inode(links[k])->0;
        a_socket_link_names_its_inode(links[k], inode);
        let i = choose|i: int| 0 <= i < inodes.len() && inodes[i] == inode;
        assert(process.links@[k]@ == "socket:["@ + inodes[i] + "]"@);
        assert(holds(process, inodes[i]));
    }
    if exists|i: int| 0 <= i < inodes.len() && holds(process, #[trigger] inodes[i]) {
        let i = choose|i: int| 0 <= i < inodes.len() && holds(process, #[trigger] inodes[i]);
        let l = choose|l: int|
            0 <= l < process.links@.len() && (#[trigger] process.links@[l])@ == "socket:["@
                + inodes[i] + "]"@;
        a_socket_link_names_its_inode(links[l], inodes[i]);
        assert(inodes.contains(crate::port::link_inode(links[l])->0));
    }
}

/// The processes that own a socket are those with a descriptor that points at
/// it, all of them and no others.
pub proof fn owners_have_a_descriptor(
    processes: Seq<Process>,
    inodes: Seq<Seq<char>>,
    pid: u32,
)
    ensures
        crate::port::socket_pids(processes, inodes).contains(pid) <==> exists|k: int|
            0 <= k < processes.len() && owns_one(#[trigger] processes[k], inodes, pid as int),
    decreases processes.len(),
{
    let n = processes.len() as int;
    let all = crate::port::socket_pids(processes, inodes);
    if n > 0 {
        let front = processes.drop_last();
        let before = crate::port::socket_pids(front, inodes);
        owners_have_a_descriptor(front, inodes, pid);
        holding_is_having_a_link(processes.last(), inodes);
        crate::text::numeral_not_negative(processes.last().name@, false);
        if all.contains(pid) {
            let i = choose|i: int| 0 <= i < all.len() && all[i] == pid;
            if i < before.len() {
                assert(before[i] == pid);
                let k = choose|k: int|
                    0 <= k < front.len() && owns_one(#[trigger] front[k], inodes, pid as int);
                assert(processes[k] == front[k]);
            } else {
                assert(owns_one(processes[n - 1], inodes, pid as int));
            }
        }
        if exists|k: int|
            0 <= k < processes.len() && owns_one(#[trigger] processes[k], inodes, pid as int) {
            let k = choose|k: int|
                0 <= k < processes.len() && owns_one(#[trigger] processes[k], inodes, pid as int);
            if k < n - 1 {
                assert(processes[k] == front[k]);
                let i = choose|i: int| 0 <= i < before.len() && before[i] == pid;
                assert(all[i] == pid);
            } else {
                assert(all[before.len() as int] == pid);
            }
        }
    }
}

/// A process directory has a descriptor on a socket that one of the tables
/// shows on the port.
pub open spec fn holds_port(
    process: Process,
    tables: Seq<Option<String>>,
    port: int,
    pid: int,
) -> bool {
    &&& crate::text::numeral(process.name@, false) == Some(pid)
    &&& exists|inode: Seq<char>| #[trigger]
        holds(process, inode) && tables_show(tables, port, inode)
}

/// On Linux a process is listed exactly where it has a descriptor on a socket
/// that some readable table shows bound to the port. Nobody can be listed
/// exactly where no table could be read.
pub proof fn procfs_lists_whoever_holds_the_port(
    tables: Vec<Option<String>>,
    processes: Vec<Process>,
    port: u16,
    pid: u32,
)
    ensures
        ({
            let found = crate::port::listed(Sockets::Procfs { tables, processes }, port as int);
            &&& found is Ok <==> exists|k: int|
                0 <= k < tables@.len() && #[trigger] tables@[k] is Some
            &&& found matches Ok(pids) ==> (pids.contains(pid) <==> exists|k: int|
                0 <= k < processes@.len() && holds_port(
                    #[trigger] processes@[k],
                    tables@,
                    port as int,
                    pid as int,
                ))
        }),
{
    let inodes = crate::port::inodes_in_tables(tables@, port as int);
    owners_have_a_descriptor(processes@, inodes, pid);
    assert forall|p: Process| #[trigger]
        owns_one(p, inodes, pid as int) <==> holds_port(p, tables@, port as int, pid as int) by {
        if owns_one(p, inodes, pid as int) {
            let i = choose|i: int| 0 <= i < inodes.len() && holds(p, #[trigger] inodes[i]);
            assert(inodes.contains(inodes[i]));
            every_readable_table_counts(tables@, port, inodes[i]);
        }
        if holds_port(p, tables@, port as int, pid as int) {
            let inode = choose|inode: Seq<char>| #[trigger]
                holds(p, inode) && tables_show(tables@, port as int, inode);
            every_readable_table_counts(tables@, port, inode);
            let i = choose|i: int| 0 <= i < inodes.len() && inodes[i] == inode;
            assert(holds(p, inodes[i]));
        }
    }
    if exists|k: int|
        0 <= k < processes@.len() && owns_one(#[trigger] processes@[k], inodes, pid as int) {
        let k = choose|k: int|
            0 <= k < processes@.len() && owns_one(#[trigger] processes@[k], inodes, pid as int);
        assert(holds_port(processes@[k], tables@, port as int, pid as int));
    }
    if exists|k: int|
        0 <= k < processes@.len() && holds_port(
            #[trigger] processes@[k],
            tables@,
            port as int,
            pid as int,
        ) {
        let k = choose|k: int|
            0 <= k < processes@.len() && holds_port(
                #[trigger] processes@[k],
                tables@,
                port as int,
                pid as int,
            );
        assert(owns_one(processes@[k], inodes, pid as int));
    }
}

/// The owners among two lists of processes are those among the one and those
/// among the other, at most one for each process.
pub proof fn owners_add_up(a: Seq<Process>, b: Seq<Process>, inodes: Seq<Seq<char>>)
    ensures
        crate::port::socket_pids(a + b, inodes) == crate::port::socket_pids(a, inodes)
            + crate::port::socket_pids(b, inodes),
        crate::port::socket_pids(b, inodes).len() <= b.len(),
    decreases b.len(),
{
    if b.len() == 0 {
        assert(a + b =~= a);
        assert(crate::port::socket_pids(b, inodes) =~= Seq::<u32>::empty());
        assert(crate::port::socket_pids(a, inodes) + Seq::<u32>::empty()
            =~= crate::port::socket_pids(a, inodes));
    } else {
        assert((a + b).drop_last() =~= a + b.drop_last());
        assert((a + b).last() == b.last());
        owners_add_up(a, b.drop_last(), inodes);
        assert(crate::port::socket_pids(a + b, inodes) =~= crate::port::socket_pids(a, inodes)
            + crate::port::socket_pids(b, inodes));
    }
}

/// The sockets on two lists of lines are those on the one and those on the
/// other, at most one for each line.
pub proof fn lines_of_a_table_add_up(a: Seq<Seq<char>>, b: Seq<Seq<char>>, port: u16)
    ensures
        crate::port::line_inodes(a + b, port as int) == crate::port::line_inodes(a, port as int)
            + crate::port::line_inodes(b, port as int),
        crate::port::line_inodes(b, port as int).len() <= b.len(),
    decreases b.len(),
{
    if b.len() == 0 {
        assert(a + b =~= a);
        assert(crate::port::line_inodes(b, port as int) =~= Seq::<Seq<char>>::empty());
        assert(crate::port::line_inodes(a, port as int) + Seq::<Seq<char>>::empty()
            =~= crate::port::line_inodes(a, port as int));
    } else {
        assert((a + b).drop_last() =~= a + b.drop_last());
        assert((a + b).last() == b.last());
        lines_of_a_table_add_up(a, b.drop_last(), port);
        assert(crate::port::line_inodes(a + b, port as int) =~= crate::port::line_inodes(
            a,
            port as int,
        ) + crate::port::line_inodes(b, port as int));
    }
}

// ---------------------------------------------------------------------------
// Failures
// ---------------------------------------------------------------------------

/// `lsof` answers wherever it ran, but for a run that printed nothing and
/// complained; a silent run found nobody. Whatever kept it from answering is
/// in the error.
pub proof fn lsof_fails_only_with_a_reason(run: LsofRun, port: u16)
    ensures
        ({
            let found = crate::port::listed(Sockets::Lsof(run), port as int);
            &&& found is Ok <==> (run matches LsofRun::Ran { stdout, stderr } && (stdout@.len() > 0
                || stderr@.len() == 0))
            &&& (run matches LsofRun::Ran { stdout, stderr } && stdout@.len() == 0 && stderr@.len()
                == 0) ==> found == Ok::<Seq<u32>, Seq<char>>(seq![])
            &&& run matches LsofRun::Failed(e) ==> found == Err::<Seq<u32>, Seq<char>>(e@)
            &&& (found is Err && run is Ran) ==> exists|head: Seq<char>|
                found == Err::<Seq<u32>, Seq<char>>(
                    #[trigger] (head + crate::text::trim_spec(run->stderr@)),
                )
        }),
{
    if let LsofRun::Ran { stdout, stderr } = run {
        if stdout@.len() == 0 {
            assert(stdout@ =~= Seq::<char>::empty());
            assert(crate::text::lines_spec(stdout@).len() == 0);
            if stderr@.len() > 0 {
                let head = "lsof: "@;
                assert(crate::port::listed(Sockets::Lsof(run), port as int) == Err::<
                    Seq<u32>,
                    Seq<char>,
                >(head + crate::text::trim_spec(run->stderr@)));
            }
        }
    }
}

/// What is said where nobody can be listed: what is missing, or why it could not
/// be run.
pub proof fn why_nobody_can_be_listed(
    tables: Vec<Option<String>>,
    processes: Vec<Process>,
    e: String,
    port: u16,
)
    ensures
        (forall|k: int| 0 <= k < tables@.len() ==> #[trigger] tables@[k] is None)
            ==> crate::port::listed(Sockets::Procfs { tables, processes }, port as int) == Err::<
            Seq<u32>,
            Seq<char>,
        >("/proc/net/* is not readable, so port holders cannot be listed"@),
        crate::port::listed(Sockets::Lsof(LsofRun::NotFound), port as int) == Err::<
            Seq<u32>,
            Seq<char>,
        >("lsof not found in PATH (needed to list port holders on this platform)"@),
        crate::port::listed(Sockets::Netstat(Err(e)), port as int) == Err::<Seq<u32>, Seq<char>>(
            "cannot run netstat: "@ + e@,
        ),
{
}

/// What a list of holders in ascending order says: each process stands there
/// once, the smaller before the larger.
pub proof fn ascending_names_each_once(s: Seq<u32>, i: int, j: int)
    requires
        crate::port::ascending(s),
        0 <= i < j < s.len(),
    ensures
        s[i] < s[j],
{
}

} // verus!
