use clap::{Arg, ArgAction, ArgMatches, Command};
use deemo::cli::{file_name, Cli, Manage, Timestamp};

fn grammar() -> Command {
    Command::new("deemo")
        .arg(Arg::new("label").short('l').long("label"))
        .arg(Arg::new("yolo").long("yolo").action(ArgAction::SetTrue))
        .arg(Arg::new("dir").short('d').long("dir"))
        .arg(Arg::new("timestamp").long("timestamp").default_value("run"))
        .arg(Arg::new("keep").long("keep").default_value("0"))
        .arg(Arg::new("quiet").long("quiet").action(ArgAction::SetTrue))
        .arg(
            Arg::new("background")
                .short('B')
                .long("background")
                .action(ArgAction::SetTrue),
        )
        .arg(
            Arg::new("foreground")
                .short('F')
                .long("foreground")
                .action(ArgAction::SetTrue),
        )
        .arg(
            Arg::new("command")
                .action(ArgAction::Append)
                .num_args(1..)
                .trailing_var_arg(true)
                .allow_hyphen_values(true),
        )
        .subcommand(Command::new("ps"))
        .subcommand(
            Command::new("stop").arg(
                Arg::new("targets")
                    .action(ArgAction::Append)
                    .num_args(1..)
                    .required(true),
            ),
        )
        .subcommand(
            Command::new("kill")
                .arg(
                    Arg::new("ports")
                        .action(ArgAction::Append)
                        .num_args(1..)
                        .required(true),
                )
                .arg(Arg::new("signal").short('s').long("signal"))
                .arg(Arg::new("dry_run").long("dry-run").action(ArgAction::SetTrue)),
        )
        .subcommand(Command::new("logs").arg(Arg::new("label").required(true)))
}

fn texts(m: &ArgMatches, id: &str) -> Vec<String> {
    m.get_many::<String>(id)
        .map(|values| values.cloned().collect())
        .unwrap_or_default()
}

fn manage(m: &ArgMatches) -> Option<Manage> {
    match m.subcommand() {
        Some(("ps", _)) => Some(Manage::Ps),
        Some(("stop", s)) => Some(Manage::Stop {
            targets: texts(s, "targets"),
        }),
        Some(("kill", s)) => Some(Manage::Kill {
            ports: texts(s, "ports")
                .iter()
                .map(|p| p.parse().unwrap())
                .collect(),
            signal: s.get_one::<String>("signal").cloned(),
            dry_run: s.get_flag("dry_run"),
        }),
        Some(("logs", s)) => Some(Manage::Logs {
            label: s.get_one::<String>("label").unwrap().clone(),
        }),
        _ => None,
    }
}

fn try_cli(args: &[&str]) -> Result<Cli, i32> {
    let m = grammar()
        .try_get_matches_from(std::iter::once("deemo").chain(args.iter().copied()))
        .map_err(|e| e.exit_code())?;
    Ok(Cli {
        label: m.get_one::<String>("label").cloned(),
        yolo: m.get_flag("yolo"),
        dir: m.get_one::<String>("dir").map(std::path::PathBuf::from),
        timestamp: match m.get_one::<String>("timestamp").unwrap().as_str() {
            "off" => Timestamp::Off,
            "day" => Timestamp::Day,
            _ => Timestamp::Run,
        },
        keep: m.get_one::<String>("keep").unwrap().parse().unwrap(),
        quiet: m.get_flag("quiet"),
        background: m.get_flag("background"),
        foreground: m.get_flag("foreground"),
        command: texts(&m, "command"),
        manage: manage(&m),
    })
}

fn cli(args: &[&str]) -> Cli {
    try_cli(args).unwrap()
}

#[test]
fn label_defaults() {
    assert_eq!(cli(&[]).label_string(), "session"); // pipe mode
    assert_eq!(
        cli(&["--", "python3", "-m", "http.server"]).label_string(),
        "python3"
    ); // child program name
    assert_eq!(cli(&["--label", "x", "--", "sh"]).label_string(), "x");
}

#[test]
fn subcommands_parse() {
    assert!(matches!(cli(&["ps"]).manage, Some(Manage::Ps)));
    assert!(matches!(
        cli(&["stop", "a", "b"]).manage,
        Some(Manage::Stop { .. })
    ));
    assert!(matches!(
        cli(&["logs", "a"]).manage,
        Some(Manage::Logs { .. })
    ));
}

#[test]
fn double_dash_escapes_subcommand_names() {
    // `deemo -- ps` must run the program `ps`, not the management command.
    let parsed = cli(&["--", "ps", "-ef"]);
    assert!(parsed.manage.is_none());
    assert_eq!(parsed.command, vec!["ps", "-ef"]);
}

#[test]
fn kill_takes_ports_a_signal_and_dry_run() {
    match cli(&["kill", "8000", "3000", "-s", "HUP", "--dry-run"]).manage {
        Some(Manage::Kill {
            ports,
            signal,
            dry_run,
        }) => {
            assert_eq!(ports, vec![8000, 3000]);
            assert_eq!(signal.as_deref(), Some("HUP"));
            assert!(dry_run);
        }
        other => panic!("{other:?}"),
    }
}

#[test]
fn job_kill_kill_without_a_port_is_a_usage_error() {
    assert_eq!(try_cli(&["kill"]).unwrap_err(), 2);
}

#[test]
fn cli_kill_without_a_port_is_a_usage_error() {
    assert_eq!(try_cli(&["kill"]).unwrap_err(), 2);
}

#[test]
fn job_detach_detach_default_label_is_program_name() {
    let parsed = cli(&["--", "sh", "-c", "exit 0"]);
    assert_eq!(parsed.label_string(), "sh");
    assert_eq!(
        cli(&["--", "/usr/local/bin/foo"]).label_string(),
        "foo",
        "a path is reduced to its file name"
    );
}

#[test]
fn cli_detach_default_label_is_program_name() {
    assert_eq!(cli(&["--", "sh", "-c", "exit 0"]).label_string(), "sh");
}

#[test]
fn a_path_names_its_last_component() {
    assert_eq!(file_name("foo").as_deref(), Some("foo"));
    assert_eq!(file_name("/usr/bin/env").as_deref(), Some("env"));
    assert_eq!(file_name("./run.sh").as_deref(), Some("run.sh"));
    assert_eq!(file_name("bin/tool/").as_deref(), Some("tool"));
    assert_eq!(file_name("bin/tool/.").as_deref(), Some("tool"));
    assert_eq!(file_name("bin//tool").as_deref(), Some("tool"));
    assert_eq!(file_name(""), None);
    assert_eq!(file_name("/"), None);
    assert_eq!(file_name("."), None);
    assert_eq!(file_name("./."), None);
    assert_eq!(file_name(".."), None);
    assert_eq!(file_name("bin/.."), None);
    // std agrees
    for path in ["foo", "/usr/bin/env", "./run.sh", "a/", "a/.", "a//b", "", "/", ".", "./.", "..", "a/..", "...", "a/.../", ".hidden", "//x//./"] {
        let expected = std::path::Path::new(path)
            .file_name()
            .map(|n| n.to_string_lossy().into_owned());
        assert_eq!(file_name(path), expected, "{path:?}");
    }
}

#[test]
fn a_program_without_a_name_runs_as_session() {
    assert_eq!(cli(&["--", ".."]).label_string(), "session");
    assert_eq!(cli(&["--", "/"]).label_string(), "session");
}
