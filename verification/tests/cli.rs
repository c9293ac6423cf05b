use fbm::browser::BrowserKind;
use fbm::cli::{
    help_text, parse_categorize_args, parse_export_args, parse_init_args, parse_listen_args,
    parse_messages_args, parse_search_args, parse_send_args, parse_sync_args, parse_threads_args,
    Cli, CliEnv, Commands, ExportFormat, Invocation,
};
use fbm::flags::{parse_usize, take_value, value_at, value_or_short_at};

fn words(list: &[&str]) -> Vec<String> {
    list.iter().map(|s| s.to_string()).collect()
}

fn no_env() -> CliEnv {
    CliEnv {
        config: None,
        fca_dir: None,
        appstate: None,
        browser_appstate_cache: None,
        db: None,
        libsql_url: None,
        libsql_auth_token: None,
    }
}

fn run(list: &[&str]) -> Cli {
    match Cli::parse(words(list), &no_env()) {
        Ok(Invocation::Run(cli)) => cli,
        other => panic!("{other:?}"),
    }
}

fn failure(list: &[&str]) -> String {
    Cli::parse(words(list), &no_env()).err().unwrap().message
}

#[test]
fn help_and_version_go_first() {
    assert!(matches!(Cli::parse(words(&["sync", "-h"]), &no_env()), Ok(Invocation::Help)));
    assert!(matches!(
        Cli::parse(words(&["--version", "--help"]), &no_env()),
        Ok(Invocation::Help)
    ));
    assert!(matches!(Cli::parse(words(&["bogus", "-V"]), &no_env()), Ok(Invocation::Version)));
    assert!(matches!(Cli::parse(words(&["--json"]), &no_env()), Ok(Invocation::MissingCommand)));
    assert!(help_text("0.1.0").starts_with("fbm 0.1.0\n\nUsage: fbm "));
}

#[test]
fn settings_stand_anywhere() {
    let cli = run(&["threads", "--json", "--config", "/c.toml", "--limit", "3"]);
    assert!(cli.json);
    assert_eq!(cli.config.as_deref(), Some("/c.toml"));
    assert!(matches!(cli.command, Commands::Threads(a) if a.limit == 3));
    let cli = run(&["--config=/d.toml", "status"]);
    assert_eq!(cli.config.as_deref(), Some("/d.toml"));
    assert!(matches!(cli.command, Commands::Status));
    assert!(matches!(run(&["me"]).command, Commands::Me));
    assert_eq!(failure(&["status", "--config"]), "--config requires a value");
    assert_eq!(failure(&["dance"]), "unknown command `dance`");
}

#[test]
fn the_environment_names_a_configuration() {
    let mut env = no_env();
    env.config = Some("/env.toml".to_string());
    match Cli::parse(words(&["status"]), &env) {
        Ok(Invocation::Run(cli)) => assert_eq!(cli.config.as_deref(), Some("/env.toml")),
        other => panic!("{other:?}"),
    }
    match Cli::parse(words(&["--config", "/c.toml", "status"]), &env) {
        Ok(Invocation::Run(cli)) => assert_eq!(cli.config.as_deref(), Some("/c.toml")),
        other => panic!("{other:?}"),
    }
}

#[test]
fn sync_has_bounded_defaults() {
    let args = parse_sync_args(vec![]).unwrap();
    assert!(!args.all && !args.full);
    assert_eq!((args.threads, args.messages, args.max_pages), (50, 200, 25));
    assert_eq!((args.max_thread_pages, args.history_threads), (0, 0));
    assert_eq!(args.tags, vec!["INBOX".to_string()]);
    assert_eq!(args.thread_id, None);
}

#[test]
fn sync_reads_its_arguments() {
    let args = parse_sync_args(words(&[
        "--all",
        "--full",
        "--threads=100",
        "--messages",
        "500",
        "--tags",
        "INBOX,SPAM",
        "--thread-id=t",
        "--max-thread-pages",
        "2",
        "--max-pages=3",
        "--history-threads",
        "4",
    ]))
    .unwrap();
    assert!(args.all && args.full);
    assert_eq!((args.threads, args.messages), (100, 500));
    assert_eq!(args.tags, vec!["INBOX".to_string(), "SPAM".to_string()]);
    assert_eq!(args.thread_id.as_deref(), Some("t"));
    assert_eq!((args.max_thread_pages, args.max_pages, args.history_threads), (2, 3, 4));
    assert_eq!(
        parse_sync_args(words(&["--bogus"])).err().unwrap().message,
        "unknown sync argument `--bogus`"
    );
    assert_eq!(
        parse_sync_args(words(&["--threads", "x"])).err().unwrap().message,
        "invalid integer for --threads: invalid digit found in string"
    );
    assert_eq!(
        parse_sync_args(words(&["--threads"])).err().unwrap().message,
        "--threads requires a value"
    );
}

#[test]
fn init_reads_its_arguments() {
    let mut env = no_env();
    env.db = Some("/env.db".to_string());
    env.libsql_url = Some("libsql://env".to_string());
    let args = parse_init_args(
        words(&[
            "--from-browser",
            "--browser",
            "Comet",
            "--browser-profile=Default",
            "--fca-dir",
            "/fca",
            "--turso-url",
            "libsql://x",
            "--force",
        ]),
        &env,
    )
    .unwrap();
    assert!(args.from_browser && args.force);
    assert_eq!(args.browser, BrowserKind::Comet);
    assert_eq!(args.browser_profile.as_deref(), Some("Default"));
    assert_eq!(args.fca_dir.as_deref(), Some("/fca"));
    assert_eq!(args.db.as_deref(), Some("/env.db"));
    assert_eq!(args.turso_url.as_deref(), Some("libsql://x"));
    assert_eq!(
        parse_init_args(words(&["--browser", "lynx"]), &env).err().unwrap().message,
        "unknown browser `lynx`"
    );
    assert_eq!(
        parse_init_args(words(&["x"]), &env).err().unwrap().message,
        "unknown init argument `x`"
    );
}

#[test]
fn commands_read_their_places() {
    let args = parse_messages_args(words(&["t1", "--newest", "--limit", "9"])).unwrap();
    assert_eq!((args.thread_id.as_str(), args.limit, args.newest), ("t1", 9, true));
    assert_eq!(
        parse_messages_args(vec![]).err().unwrap().message,
        "messages requires thread_id"
    );
    let args = parse_search_args(words(&["two words", "--thread-id", "t"])).unwrap();
    assert_eq!((args.query.as_str(), args.limit), ("two words", 25));
    assert_eq!(parse_search_args(vec![]).err().unwrap().message, "search requires query");
    let args = parse_send_args(words(&["t", "hello", "--reply-to=m"])).unwrap();
    assert_eq!((args.thread_id.as_str(), args.body.as_str()), ("t", "hello"));
    assert_eq!(args.reply_to.as_deref(), Some("m"));
    assert_eq!(parse_send_args(vec![]).err().unwrap().message, "send requires thread_id");
    assert_eq!(parse_send_args(words(&["t"])).err().unwrap().message, "send requires body");
}

#[test]
fn the_other_commands_read_their_arguments() {
    let args = parse_threads_args(words(&["--query", "ann", "--archived"])).unwrap();
    assert_eq!(args.query.as_deref(), Some("ann"));
    assert!(args.archived);
    let args = parse_categorize_args(words(&["--axis=time.sent", "--limit", "2"])).unwrap();
    assert_eq!((args.axis.as_deref(), args.limit), (Some("time.sent"), 2));
    assert_eq!(parse_listen_args(words(&["--limit", "10"])).unwrap().limit, Some(10));
    assert_eq!(parse_listen_args(vec![]).unwrap().limit, None);
    let args = parse_export_args(words(&["--format", "MD", "--output", "x.md"])).unwrap();
    assert_eq!(args.format, ExportFormat::Markdown);
    assert_eq!(args.output.as_deref(), Some("x.md"));
    assert_eq!(parse_export_args(vec![]).unwrap().format, ExportFormat::Json);
    assert_eq!(
        parse_export_args(words(&["--format", "pdf"])).err().unwrap().message,
        "unknown export format `pdf`"
    );
}

#[test]
fn both_forms_of_a_flag_give_the_same_value() {
    let mut i = 0;
    let joined = words(&["--flag=v=1", "x"]);
    assert_eq!(value_at(&joined, &mut i, "--flag").unwrap().as_deref(), Some("v=1"));
    assert_eq!(i, 1);
    let mut i = 0;
    let apart = words(&["--flag", "v=1", "x"]);
    assert_eq!(value_at(&apart, &mut i, "--flag").unwrap().as_deref(), Some("v=1"));
    assert_eq!(i, 2);
    let mut i = 2;
    assert_eq!(value_at(&apart, &mut i, "--flag").unwrap(), None);
    assert_eq!(i, 2);
    let mut i = 0;
    let short = words(&["-f", "v"]);
    assert_eq!(
        value_or_short_at(&short, &mut i, "--flag", "-f").unwrap().as_deref(),
        Some("v")
    );
    let mut list = words(&["a", "--flag", "v", "b"]);
    assert_eq!(take_value(&mut list, 1, "--flag").unwrap(), "v");
    assert_eq!(list, words(&["a", "b"]));
    assert_eq!(parse_usize("12".to_string(), "--n").unwrap(), 12);
    assert_eq!(
        parse_usize("".to_string(), "--n").err().unwrap().message,
        "invalid integer for --n: cannot parse integer from empty string"
    );
    assert_eq!(
        parse_usize("99999999999999999999999".to_string(), "--n").err().unwrap().message,
        "invalid integer for --n: number too large to fit in target type"
    );
    assert_eq!(
        parse_usize("-1".to_string(), "--n").err().unwrap().message,
        "invalid integer for --n: invalid digit found in string"
    );
}

#[test]
fn the_json_flag_changes_only_the_output() {
    let plain = run(&["threads", "--limit", "4"]);
    let json = run(&["--json", "threads", "--limit", "4"]);
    assert!(!plain.json && json.json);
    assert_eq!(format!("{:?}", plain.command), format!("{:?}", json.command));
    assert_eq!(plain.config, json.config);
}
