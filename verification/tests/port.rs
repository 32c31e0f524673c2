use deemo::port::{
    holders, local_port, pids_from_lsof, pids_from_netstat, pids_with_sockets, procfs_inodes,
    socket_inodes, LsofRun, Process, Sockets,
};

#[test]
fn local_port_matches_only_the_binding_side() {
    assert!(local_port("*:8000", 8000));
    assert!(local_port("127.0.0.1:8000", 8000));
    assert!(local_port("[::1]:8000 (LISTEN)", 8000));
    assert!(local_port("*:8000->10.0.0.9:53144 (ESTABLISHED)", 8000));
    assert!(!local_port("*:8001", 8000));
    assert!(!local_port("*:18000", 8000), "suffix match is not enough");
    // a client that connects TO the port has a random local port
    assert!(!local_port("127.0.0.1:53144->127.0.0.1:8000", 8000));
    assert!(!local_port("PIPE", 8000));
    assert!(!local_port("", 8000));
}

#[test]
fn lsof_field_output_reports_binders_not_clients() {
    let out = "\
p101
n*:8000
p102
n127.0.0.1:53144->127.0.0.1:8000
p103
n127.0.0.1:8000->10.0.0.9:53144
n/Users/you/.deemo
";
    assert_eq!(pids_from_lsof(out, 8000), vec![101, 103]);
    assert!(pids_from_lsof(out, 9000).is_empty());
}

#[test]
fn netstat_output_reports_binders_not_clients() {
    let out = "\
Active Connections\n\
\n\
  TCP    0.0.0.0:8000              0.0.0.0:0              LISTENING       111\n\
  TCP    127.0.0.1:8000            127.0.0.1:53144        ESTABLISHED     222\n\
  TCP    127.0.0.1:53145           127.0.0.1:8000         ESTABLISHED     333\n\
  UDP    0.0.0.0:5000              *:*                                    444\n";
    assert_eq!(pids_from_netstat(out, 8000), vec![111, 222]); // 333 is a client
    assert_eq!(pids_from_netstat(out, 5000), vec![444]);
    assert!(pids_from_netstat(out, 9000).is_empty());
}

const TABLE: &str = "\
  sl  local_address rem_address   st tx_queue rx_queue tr tm->when retrnsmt   uid  timeout inode\n\
   0: 0100007F:1F90 00000000:0000 0A 00000000:00000000 00:00000000 00000000     0        0 123456\n\
   1: 0100007F:0016 0100007F:C001 01 00000000:00000000 00:00000000 00000000     0        0 654321\n";

#[test]
fn procfs_ports_are_read_in_hexadecimal() {
    // 0x1F90 = 8080, 0x0016 = 22
    assert_eq!(socket_inodes(TABLE, 8080), vec!["123456".to_string()]);
    assert_eq!(socket_inodes(TABLE, 22), vec!["654321".to_string()]);
    assert!(socket_inodes(TABLE, 8001).is_empty());
    assert!(
        socket_inodes(TABLE, 0xC001).is_empty(),
        "the remote port does not count"
    );
}

fn process(name: &str, links: &[&str]) -> Process {
    Process {
        name: name.to_string(),
        links: links.iter().map(|l| l.to_string()).collect(),
    }
}

#[test]
fn processes_are_found_by_their_socket_links() {
    let inodes = vec!["123456".to_string()];
    let processes = vec![
        process("self", &["socket:[123456]"]),
        process("42", &["/dev/null", "socket:[123456]", "socket:[123456]"]),
        process("43", &["socket:[999]", "pipe:[123456]"]),
        process("7", &["socket:[123456]"]),
    ];
    assert_eq!(pids_with_sockets(&inodes, &processes), vec![42, 7]);
}

#[test]
fn holders_are_sorted_and_listed_once() {
    let sockets = Sockets::Procfs {
        tables: vec![Some(TABLE.to_string()), None, Some(TABLE.to_string())],
        processes: vec![
            process("42", &["socket:[123456]"]),
            process("7", &["socket:[123456]"]),
            process("42", &["socket:[123456]"]),
        ],
    };
    assert_eq!(holders(8080, &sockets), Ok(vec![7, 42]));
    assert_eq!(holders(8001, &sockets), Ok(vec![]));
}

#[test]
fn lookup_failures_are_reported() {
    let unreadable = vec![None, None, None, None];
    assert_eq!(
        procfs_inodes(&unreadable, 80).unwrap_err(),
        "/proc/net/* is not readable, so port holders cannot be listed"
    );
    assert_eq!(
        holders(
            80,
            &Sockets::Procfs {
                tables: unreadable,
                processes: vec![]
            }
        ),
        Err("/proc/net/* is not readable, so port holders cannot be listed".to_string())
    );
    assert_eq!(
        holders(80, &Sockets::Lsof(LsofRun::NotFound)),
        Err("lsof not found in PATH (needed to list port holders on this platform)".to_string())
    );
    assert_eq!(
        holders(80, &Sockets::Lsof(LsofRun::Failed("denied".to_string()))),
        Err("denied".to_string())
    );
    assert_eq!(
        holders(
            80,
            &Sockets::Lsof(LsofRun::Ran {
                stdout: String::new(),
                stderr: " no permission \n".to_string()
            })
        ),
        Err("lsof: no permission".to_string())
    );
    assert_eq!(
        holders(
            80,
            &Sockets::Lsof(LsofRun::Ran {
                stdout: String::new(),
                stderr: String::new()
            })
        ),
        Ok(vec![])
    );
    assert_eq!(
        holders(80, &Sockets::Netstat(Err("gone".to_string()))),
        Err("cannot run netstat: gone".to_string())
    );
}

#[test]
fn kill_targets_binders_not_clients_connected_to_the_port() {
    // The server on 8000 (0x1F40) and a client connected to it from 0xC001.
    let table = "\
  sl  local_address rem_address   st tx_queue rx_queue tr tm->when retrnsmt   uid  timeout inode\n\
   0: 0100007F:1F40 00000000:0000 0A 00000000:00000000 00:00000000 00000000     0        0 1000\n\
   1: 0100007F:C001 0100007F:1F40 01 00000000:00000000 00:00000000 00000000     0        0 2000\n";
    let sockets = Sockets::Procfs {
        tables: vec![Some(table.to_string())],
        processes: vec![
            process("100", &["socket:[1000]"]),
            process("200", &["socket:[2000]"]),
        ],
    };
    assert_eq!(
        holders(8000, &sockets),
        Ok(vec![100]),
        "only the binder is a target, never the client"
    );
}

#[test]
fn what_the_tools_print_may_hold_any_bytes() {
    let mut out = b"p101\nn*:8000\nn/odd/".to_vec();
    out.push(0xff);
    out.extend(b"\np102\nn*:8000\n");
    assert_eq!(
        holders(8000, &Sockets::Lsof(LsofRun::ran(&out, &vec![]))),
        Ok(vec![101, 102])
    );
    assert_eq!(
        holders(8000, &Sockets::Lsof(LsofRun::ran(&vec![], &b"oops\n".to_vec()))),
        Err("lsof: oops".to_string())
    );
    let rows = b"  TCP  0.0.0.0:8000  0.0.0.0:0  ABH\xd6REN  111\r\n".to_vec();
    assert_eq!(holders(8000, &Sockets::netstat(&rows)), Ok(vec![111]));
}

#[test]
fn netstat_lines_stand_for_themselves() {
    let a = "  TCP  0.0.0.0:80  0.0.0.0:0  LISTENING  7\n  UDP  *:80  *:*  7\n";
    let b = "  TCP  [::]:80  [::]:0  LISTENING  9";
    let mut both = pids_from_netstat(a, 80);
    both.extend(pids_from_netstat(b, 80));
    assert_eq!(both, vec![7, 7, 9]);
    assert_eq!(pids_from_netstat(&format!("{a}{b}"), 80), both);
    assert!(pids_from_netstat("TCP", 80).is_empty());
    assert!(pids_from_netstat("TCP 0.0.0.0:80 x", 80).is_empty());
}
