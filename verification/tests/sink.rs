use deemo::cli::Timestamp;
use deemo::sink::{
    belongs_to, latest_log, log_output, logs, prune_old_logs, resolve_home, show_log, show_text, tail_start,
    Home, Sink,
};

fn names(list: &[&str]) -> Vec<String> {
    list.iter().map(|n| n.to_string()).collect()
}

#[test]
fn newest_name_wins_and_other_labels_do_not() {
    let logs = names(&[
        "srv-20200101-000000.000.log",
        "srv-20260922-120000.000.log",
        "other-20260922-120000.000.log",
    ]);
    let path = latest_log(&logs, "srv").unwrap();
    assert_eq!(path, "srv-20260922-120000.000.log");
}

#[test]
fn logs_shows_the_newest_log_of_a_label() {
    let dir = names(&[
        "lg-20260916-111528.000.log",
        "lg-20260916-111527.491.log",
        "lgx-20990101-000000.000.log",
    ]);
    let newest = logs(&dir, "lg").unwrap();
    assert_eq!(newest, "lg-20260916-111528.000.log");
    let shown = show_log(&newest, 8, &b"run-two\n".to_vec());
    assert_eq!(shown, "lg-20260916-111528.000.log\nrun-two\n");
}

#[test]
fn logs_shows_newest_log_of_label() {
    let dir = names(&["lg-20260916-111527.491.log", "lg-20260916-111528.000.log"]);
    assert_eq!(logs(&dir, "lg").unwrap(), "lg-20260916-111528.000.log");
}

#[test]
fn logs_without_a_file_for_the_label_exits_1() {
    let out = logs(&names(&["other.log"]), "no-such-label").unwrap_err();
    assert_eq!(out.code, 1);
    assert_eq!(
        out.text,
        "deemo: no log file found for label 'no-such-label'"
    );
}

#[test]
fn logs_tails_only_the_last_4_kib_of_a_big_file() {
    let head = "HEAD-MARKER\n";
    let pad = "x".repeat(10_000);
    let tail = "TAIL-MARKER\n";
    let file = format!("{head}{pad}{tail}").into_bytes();
    let start = tail_start(file.len() as u64);
    assert_eq!(start, 5928);
    let out = show_log("big.log", file.len() as u64, &file[start as usize..].to_vec());
    assert!(out.contains("TAIL-MARKER"));
    assert!(out.contains("… (showing last 4096"));
    assert!(out.contains("of 10024 bytes"));
    assert!(!out.contains("HEAD-MARKER"));
}

#[test]
fn a_log_is_shown_with_its_path_and_a_final_newline() {
    assert_eq!(tail_start(4096), 0);
    assert_eq!(tail_start(4097), 1);
    assert_eq!(tail_start(0), 0);
    assert_eq!(show_log("/l/a.log", 0, &vec![]), "/l/a.log\n\n");
    assert_eq!(
        show_log("/l/a.log", 2, &b"hi".to_vec()),
        "/l/a.log\nhi\n"
    );
    assert_eq!(
        show_log("/l/a.log", 5000, &b"t\n".to_vec()),
        "/l/a.log\n… (showing last 2 of 5000 bytes)\nt\n"
    );
    assert_eq!(
        show_text("p", 3, &vec![104, 105, 10], "HI\n"),
        "p\nHI\n"
    );
}

#[test]
fn a_shown_log_exits_0_and_an_unreadable_one_1() {
    let out = log_output("/l/a.log", &Ok((3, b"hi\n".to_vec())));
    assert_eq!((out.text.as_str(), out.code), ("/l/a.log\nhi\n", 0));
    let out = log_output("/l/a.log", &Err("cannot open /l/a.log: denied".to_string()));
    assert_eq!(
        (out.text.as_str(), out.code),
        ("deemo: cannot open /l/a.log: denied", 1)
    );
}

#[test]
fn bytes_that_are_no_text_are_replaced() {
    assert_eq!(
        show_log("p", 3, &vec![b'a', 0xff, b'\n']),
        "p\na\u{fffd}\n"
    );
    assert_eq!(
        show_log("p", 6, &"äöü".as_bytes().to_vec()),
        "p\näöü\n"
    );
}

#[test]
fn timestamp_day_naming() {
    let name = Sink::open("d", Timestamp::Day).name;
    let date = &name["d-".len()..name.len() - ".log".len()];
    assert_eq!(date.len(), 8, "YYYYmmdd expected, got {name:?}");
    assert!(date.bytes().all(|b| b.is_ascii_digit()), "{name:?}");
}

#[test]
fn timestamp_off_is_a_single_file() {
    assert_eq!(Sink::open("off", Timestamp::Off).name, "off.log");
    assert_eq!(Sink::unstamped("off").name, "off.log");
}

#[test]
fn a_run_log_carries_date_time_and_milliseconds() {
    let name = Sink::open("r", Timestamp::Run).name;
    assert!(name.starts_with("r-") && name.ends_with(".log"), "{name:?}");
    let stamp = &name["r-".len()..name.len() - ".log".len()];
    assert_eq!(stamp.len(), 19, "YYYYmmdd-HHMMSS.mmm expected, got {name:?}");
    for (i, b) in stamp.bytes().enumerate() {
        match i {
            8 => assert_eq!(b, b'-'),
            15 => assert_eq!(b, b'.'),
            _ => assert!(b.is_ascii_digit(), "{name:?}"),
        }
    }
    assert!(belongs_to(&name, "r"));
    assert_eq!(
        Sink::stamped("python", "20260916-111527.491").name,
        "python-20260916-111527.491.log"
    );
}

#[test]
fn contract_home_logs_keep_prunes_old_files() {
    let current = "kp-20260922-120000.000.log";
    let dir = names(&[
        "kp-20200103-000000.000.log",
        "kp-20200101-000000.000.log",
        current,
        "kp-20200104-000000.000.log",
        "kp-20200102-000000.000.log",
    ]);
    assert_eq!(
        prune_old_logs(&dir, "kp", 2, current),
        names(&[
            "kp-20200101-000000.000.log",
            "kp-20200102-000000.000.log",
            "kp-20200103-000000.000.log",
        ]),
        "the newest seeded file stays, plus the new one"
    );
}

#[test]
fn keep_leaves_other_labels_alone() {
    let current = "kp2-20260922-120000.000.log";
    let dir = names(&[
        "kp2-20200101-000000.000.log",
        "kp2-20200102-000000.000.log",
        "kp2-20200103-000000.000.log",
        "other-20200101-000000.000.log",
        "other-20200102-000000.000.log",
        current,
    ]);
    let gone = prune_old_logs(&dir, "kp2", 1, current);
    assert_eq!(gone.len(), 3, "keep 1 leaves only the new file");
    assert!(gone.iter().all(|n| n.starts_with("kp2-") && n != current));
}

#[test]
fn nothing_is_pruned_without_a_limit_or_within_it() {
    let dir = names(&["a-20200101.log", "a-20200102.log"]);
    assert!(prune_old_logs(&dir, "a", 0, "a-20200102.log").is_empty());
    assert!(prune_old_logs(&dir, "a", 2, "a-20200102.log").is_empty());
    assert!(prune_old_logs(&dir, "a", u32::MAX, "a-20200102.log").is_empty());
}

#[test]
fn the_current_log_stays_even_where_it_sorts_first() {
    let dir = names(&["a-20200101.log", "a-20200102.log", "a-20200103.log"]);
    assert_eq!(
        prune_old_logs(&dir, "a", 1, "a-20200101.log"),
        names(&["a-20200102.log"])
    );
}

#[test]
fn a_label_with_a_dash_keeps_its_own_files() {
    let current = "srv-20260922-120000.000.log";
    let dir = names(&[current, "srv-1-20200101-000000.000.log", "srv-api.log"]);
    assert!(prune_old_logs(&dir, "srv", 1, current).is_empty());
    assert_eq!(latest_log(&dir, "srv").as_deref(), Some(current));
    assert_eq!(
        latest_log(&dir, "srv-1").as_deref(),
        Some("srv-1-20200101-000000.000.log")
    );
    assert_eq!(latest_log(&dir, "srv-api").as_deref(), Some("srv-api.log"));
}

#[test]
fn a_file_belongs_to_the_label_that_would_write_it() {
    assert!(belongs_to("srv.log", "srv"));
    assert!(belongs_to("srv-20260101.log", "srv"));
    assert!(belongs_to("srv-20260101-000000.000.log", "srv"));
    assert!(belongs_to("srv-+100000101.log", "srv"));
    assert!(belongs_to("srv-+100000101-000000.000.log", "srv"));
    assert!(belongs_to("-20260101.log", ""));
    assert!(!belongs_to("srv2.log", "srv"));
    assert!(!belongs_to("srv-20260101.txt", "srv"));
    assert!(!belongs_to("srv-2026010.log", "srv"));
    assert!(!belongs_to("srv-202601011.log", "srv"));
    assert!(!belongs_to("srv-20260101-000000000.log", "srv"));
    assert!(!belongs_to("srv-20260101_000000.000.log", "srv"));
    assert!(!belongs_to("srv-20260101-20260101.log", "srv"));
    assert!(!belongs_to("srv-.log", "srv"));
    assert!(!belongs_to("srv-api.log", "srv"));
    assert!(!belongs_to("srv-api-20260101.log", "srv"));
    assert!(!belongs_to("other.log", "srv"));
    assert!(!belongs_to(".log", "srv"));
    assert!(!belongs_to("", ""));
    // two labels that truly give one name
    assert!(belongs_to("srv-20260101.log", "srv-20260101"));
}

#[test]
fn dir_flag_overrides_deemo_home_env() {
    match resolve_home(Some("b"), Some(("a", false)), Some("/home/me"), ".") {
        Home::At(dir) => assert_eq!(dir, "b", "--dir wins over $DEEMO_HOME"),
        other => panic!("{other:?}"),
    }
}

#[test]
fn deemo_home_env_and_dir_override() {
    match resolve_home(None, Some(("a", false)), Some("/home/me"), ".") {
        Home::At(dir) => assert_eq!(dir, "a"),
        other => panic!("{other:?}"),
    }
    match resolve_home(Some("b"), Some(("a", false)), None, ".") {
        Home::At(dir) => assert_eq!(dir, "b", "--dir wins over $DEEMO_HOME"),
        other => panic!("{other:?}"),
    }
}

#[test]
fn home_defaults_to_dot_deemo_under_home() {
    match resolve_home(None, None, Some("/home/me"), ".") {
        Home::DotDeemoIn(dir) => assert_eq!(dir, "/home/me"),
        other => panic!("{other:?}"),
    }
    match resolve_home(None, None, None, ".") {
        Home::DotDeemoIn(dir) => assert_eq!(dir, "."),
        other => panic!("{other:?}"),
    }
}

#[test]
fn empty_deemo_home_falls_back_to_the_default() {
    match resolve_home(None, Some(("", true)), Some("/home/me"), ".") {
        Home::DotDeemoIn(dir) => assert_eq!(dir, "/home/me"),
        other => panic!("{other:?}"),
    }
}

#[test]
fn names_of_one_scheme_sort_in_time_order() {
    let stamps = [
        "19991231-235959.999",
        "20200101-000000.000",
        "20200101-000000.001",
        "20200101-000001.000",
        "20200101-010000.000",
        "20200109-000000.000",
        "20200110-000000.000",
        "20201001-000000.000",
    ];
    let made: Vec<String> = stamps.iter().map(|s| Sink::stamped("x", s).name).collect();
    let mut sorted = made.clone();
    sorted.sort();
    assert_eq!(made, sorted);
    assert_eq!(latest_log(&made, "x").as_ref(), made.last());
}
