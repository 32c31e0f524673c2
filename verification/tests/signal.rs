use deemo::signal::{
    display, display_on, display_with, parse, parse_on, parse_with, unknown_signal, Platform,
};

#[test]
fn parses_names_prefixes_aliases_and_numbers() {
    assert_eq!(parse("TERM").unwrap(), libc::SIGTERM);
    assert_eq!(parse("SIGTERM").unwrap(), libc::SIGTERM);
    assert_eq!(parse("sigterm").unwrap(), libc::SIGTERM);
    assert_eq!(parse("-TERM").unwrap(), libc::SIGTERM);
    assert_eq!(parse("HUP").unwrap(), libc::SIGHUP);
    assert_eq!(parse("9").unwrap(), 9);
    assert_eq!(parse("-9").unwrap(), 9);
    assert_eq!(parse("IOT").unwrap(), libc::SIGABRT, "alias resolves");
}

#[test]
fn rejects_nonsense_and_the_existence_probe() {
    assert!(parse("NOPE").is_err());
    assert!(parse("0").is_err(), "signal 0 is kill's liveness probe");
    assert!(parse("65").is_err());
    assert!(parse("").is_err());
}

#[test]
fn displays_the_canonical_name() {
    assert_eq!(display(libc::SIGTERM), "SIGTERM");
    assert_eq!(display(9), "SIGKILL");
    assert_eq!(display(42), "signal 42");
}

#[test]
fn every_name_reaches_its_number() {
    let table = [
        ("HUP", libc::SIGHUP),
        ("INT", libc::SIGINT),
        ("QUIT", libc::SIGQUIT),
        ("ILL", libc::SIGILL),
        ("TRAP", libc::SIGTRAP),
        ("ABRT", libc::SIGABRT),
        ("IOT", libc::SIGABRT),
        ("BUS", libc::SIGBUS),
        ("FPE", libc::SIGFPE),
        ("KILL", libc::SIGKILL),
        ("USR1", libc::SIGUSR1),
        ("SEGV", libc::SIGSEGV),
        ("USR2", libc::SIGUSR2),
        ("PIPE", libc::SIGPIPE),
        ("ALRM", libc::SIGALRM),
        ("TERM", libc::SIGTERM),
        ("CHLD", libc::SIGCHLD),
        ("CLD", libc::SIGCHLD),
        ("CONT", libc::SIGCONT),
        ("STOP", libc::SIGSTOP),
        ("TSTP", libc::SIGTSTP),
        ("TTIN", libc::SIGTTIN),
        ("TTOU", libc::SIGTTOU),
        ("URG", libc::SIGURG),
        ("XCPU", libc::SIGXCPU),
        ("XFSZ", libc::SIGXFSZ),
        ("VTALRM", libc::SIGVTALRM),
        ("PROF", libc::SIGPROF),
        ("WINCH", libc::SIGWINCH),
        ("IO", libc::SIGIO),
        ("POLL", libc::SIGIO),
        ("SYS", libc::SIGSYS),
    ];
    for (name, number) in table {
        assert_eq!(parse(name), Ok(number), "{name}");
        assert_eq!(parse(&format!("SIG{name}")), Ok(number), "{name}");
        assert_eq!(parse(&format!("-{name}")), Ok(number), "{name}");
        assert_eq!(parse(&format!("-sig{}", name.to_lowercase())), Ok(number), "{name}");
        assert_eq!(parse(&display(number)), Ok(number), "shown name is read back");
    }
    assert_eq!(display(libc::SIGABRT), "SIGABRT", "canonical name first");
    assert_eq!(display(libc::SIGIO), "SIGIO");
}

#[test]
fn errors_say_what_is_wrong() {
    assert_eq!(
        parse("65").unwrap_err(),
        "signal number 65 is out of range (1-64)"
    );
    assert_eq!(
        parse("0").unwrap_err(),
        "signal number 0 is out of range (1-64)"
    );
    assert_eq!(
        parse("NOPE").unwrap_err(),
        "unknown signal \"NOPE\" (try TERM, HUP, KILL, or a number)"
    );
    assert_eq!(
        parse(" a\"b ").unwrap_err(),
        "unknown signal \" a\\\"b \" (try TERM, HUP, KILL, or a number)",
        "the argument as it was given, quoted"
    );
    assert_eq!(
        unknown_signal("\"X\""),
        "unknown signal \"X\" (try TERM, HUP, KILL, or a number)"
    );
    // too large for a number: a name, and an unknown one
    assert_eq!(
        parse("99999999999").unwrap_err(),
        "unknown signal \"99999999999\" (try TERM, HUP, KILL, or a number)"
    );
    assert!(parse("SIG").is_err());
    assert!(parse("SIGSIGTERM").is_err());
}

#[test]
fn white_space_dashes_and_plus_do_not_count() {
    assert_eq!(parse(" term \n"), Ok(libc::SIGTERM));
    assert_eq!(parse("--9"), Ok(9));
    assert_eq!(parse("+9"), Ok(9));
    assert_eq!(parse("64"), Ok(64));
    assert_eq!(parse("1"), Ok(1));
}

#[test]
fn the_platform_s_numbers_decide() {
    let mut numbers = [0; 29];
    for (i, n) in numbers.iter_mut().enumerate() {
        *n = 30 + i as i32;
    }
    assert_eq!(parse_with(&numbers, "HUP"), Ok(30));
    assert_eq!(parse_with(&numbers, "sys"), Ok(58));
    assert_eq!(parse_with(&numbers, "CLD"), parse_with(&numbers, "CHLD"));
    assert_eq!(display_with(&numbers, 30), "SIGHUP");
    assert_eq!(display_with(&numbers, 1), "signal 1");
    assert_eq!(display_with(&numbers, -1), "signal -1");
}

#[test]
fn without_signals_none_is_sent_or_named() {
    assert_eq!(
        parse_on(Platform::Windows, "TERM").unwrap_err(),
        "sending an explicit signal needs a unix platform (drop -s)"
    );
    assert_eq!(parse_on(Platform::Unix, "TERM"), Ok(libc::SIGTERM));
    assert_eq!(display_on(Platform::Windows, 15), "signal 15");
    assert_eq!(display_on(Platform::Unix, 15), "SIGTERM");
}

#[test]
fn some_signals_are_the_same_everywhere() {
    for (number, name) in [
        (1, "SIGHUP"),
        (2, "SIGINT"),
        (3, "SIGQUIT"),
        (4, "SIGILL"),
        (6, "SIGABRT"),
        (8, "SIGFPE"),
        (9, "SIGKILL"),
        (11, "SIGSEGV"),
        (14, "SIGALRM"),
        (15, "SIGTERM"),
    ] {
        assert_eq!(display(number), name);
        assert_eq!(parse(name), Ok(number));
    }
}

#[test]
fn any_word_is_read_alike_with_prefix_dash_and_case() {
    for word in ["TERM", "usr1", "Nope", "x9", "RTMIN", "si", "9a", ""] {
        let read = parse(word).ok();
        for text in [
            format!("SIG{word}"),
            format!("sig{word}"),
            format!("-{word}"),
            word.to_ascii_lowercase(),
            word.to_ascii_uppercase(),
        ] {
            assert_eq!(parse(&text).ok(), read, "{text:?}");
        }
    }
}

#[test]
fn every_number_is_read_and_only_names_are_read_back() {
    for s in 1..=64 {
        assert_eq!(parse(&s.to_string()), Ok(s));
        let shown = display(s);
        if shown.starts_with("SIG") {
            assert_eq!(parse(&shown), Ok(s));
            assert_eq!(parse(&shown[3..]), Ok(s));
        } else {
            assert_eq!(shown, format!("signal {s}"));
            assert!(parse(&shown).is_err());
        }
    }
}
