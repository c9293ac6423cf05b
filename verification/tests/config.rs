use fbm::browser::BrowserKind;
use fbm::cli::{parse_init_args, CliEnv, InitArgs};
use fbm::config::{
    browser_cache_path, database_target, init_config, init_fca_dir, init_report, init_summary,
    keeps_existing_config, not_a_checkout, output_text, resolve_login, status_report,
    status_summary, AuthConfig, AuthMethod, Config, DatabaseConfig, DatabaseTarget, LoginSource,
};
use fbm::error::simple_error;
use fbm::json::{json_text, JsonValue};
use fbm::paths::{
    config_path, home_dir, is_same_path, join_path, last_name, name_list, project_dirs, AppDirs,
    DirEnv, Platform,
};

fn init_args(list: &[&str]) -> InitArgs {
    let env = CliEnv {
        config: None,
        fca_dir: None,
        appstate: None,
        browser_appstate_cache: None,
        db: None,
        libsql_url: None,
        libsql_auth_token: None,
    };
    parse_init_args(list.iter().map(|s| s.to_string()).collect(), &env).unwrap()
}

fn config() -> Config {
    Config {
        fca_dir: "/fca".to_string(),
        appstate: Some("/app.json".to_string()),
        auth: AuthConfig {
            method: AuthMethod::AppState,
            browser: BrowserKind::Edge,
            browser_profile: Some("P".to_string()),
            browser_appstate_cache: Some("/cache.json".to_string()),
        },
        database: DatabaseConfig {
            path: "/a.db".to_string(),
            remote_url: Some("libsql://x".to_string()),
            auth_token: Some("very secret".to_string()),
        },
    }
}

#[test]
fn a_first_init_takes_what_is_given() {
    let args = init_args(&[]);
    assert_eq!(init_fca_dir(&args, &None, "/here".to_string()), "/here");
    let cfg = init_config(args, &None, "/here".to_string(), "/data");
    assert_eq!(cfg.auth.method, AuthMethod::Browser);
    assert_eq!(cfg.auth.browser, BrowserKind::Auto);
    assert_eq!(cfg.database.path, "/data/fbm.db");
    assert_eq!(cfg.database.remote_url, None);
    let cfg = init_config(init_args(&["--appstate", "/s.json"]), &None, "/f".to_string(), "/d");
    assert_eq!(cfg.auth.method, AuthMethod::AppState);
    assert_eq!(cfg.appstate.as_deref(), Some("/s.json"));
    let cfg = init_config(
        init_args(&["--appstate", "/s.json", "--from-browser"]),
        &None,
        "/f".to_string(),
        "/d",
    );
    assert_eq!(cfg.auth.method, AuthMethod::Browser);
}

#[test]
fn a_second_init_keeps_what_was_there() {
    let before = Some(config());
    let args = init_args(&[]);
    let dir = init_fca_dir(&args, &before, "/here".to_string());
    assert_eq!(dir, "/fca");
    let cfg = init_config(args, &before, dir, "/data");
    assert_eq!(json_text(&cfg.redacted()), json_text(&config().redacted()));
    assert_eq!(cfg.database.auth_token.as_deref(), Some("very secret"));
    let cfg = init_config(init_args(&["--browser", "brave"]), &before, "/f".to_string(), "/d");
    assert_eq!(cfg.auth.browser, BrowserKind::Brave);
    assert!(keeps_existing_config(true, false));
    assert!(!keeps_existing_config(true, true));
    assert!(!keeps_existing_config(false, false));
}

#[test]
fn the_token_is_not_shown() {
    let shown = json_text(&config().redacted());
    assert!(!shown.contains("very secret"));
    assert!(shown.contains("\"auth_token\":\"<redacted>\""));
    assert!(shown.contains("\"method\":\"app-state\""));
    let mut cfg = config();
    cfg.database.auth_token = None;
    assert!(json_text(&cfg.redacted()).contains("\"auth_token\":null"));
}

#[test]
fn the_archive_is_remote_where_a_url_says_so() {
    match database_target(&config()).unwrap() {
        DatabaseTarget::Remote { url, token } => {
            assert_eq!((url.as_str(), token.as_str()), ("libsql://x", "very secret"));
        }
        other => panic!("{other:?}"),
    }
    let mut cfg = config();
    cfg.database.auth_token = None;
    assert_eq!(
        database_target(&cfg).err().unwrap().message,
        "remote Turso/libSQL URL requires auth_token"
    );
    cfg.database.remote_url = None;
    assert!(matches!(database_target(&cfg), Ok(DatabaseTarget::Local { path }) if path == "/a.db"));
}

#[test]
fn the_login_has_a_source() {
    assert!(matches!(resolve_login(&config()), Ok(LoginSource::File(path)) if path == "/app.json"));
    let mut cfg = config();
    cfg.appstate = None;
    assert_eq!(
        resolve_login(&cfg).err().unwrap().message,
        "auth.method=app-state requires appstate path"
    );
    cfg.auth.method = AuthMethod::Browser;
    assert!(matches!(resolve_login(&cfg), Ok(LoginSource::Browser)));
    let dirs = AppDirs {
        config: "/c".to_string(),
        data: "/d".to_string(),
        cache: "/e".to_string(),
    };
    assert_eq!(browser_cache_path(&cfg, &dirs), "/cache.json");
    cfg.auth.browser_appstate_cache = None;
    assert_eq!(browser_cache_path(&cfg, &dirs), "/d/browser-appstate.json");
    assert_eq!(AuthConfig::default().method, AuthMethod::AppState);
}

#[test]
fn reports_and_summaries() {
    let cfg = config();
    assert_eq!(
        init_summary("/c.toml", &cfg, "/login"),
        "initialized fbm\nconfig: /c.toml\ndb: /a.db\nfca: /fca\nauth: AppState\nappstate: /login"
    );
    assert_eq!(
        status_summary("/c.toml", &cfg, 3, 4),
        "config: /c.toml\ndb: /a.db\nthreads: 3\nmessages: 4"
    );
    assert!(json_text(&status_report("/c.toml", &cfg, 3, 4)).contains("\"counts\":[3,4]"));
    assert!(json_text(&init_report("/c.toml", &cfg, "/l")).contains("\"resolved_appstate\":\"/l\""));
    assert_eq!(
        not_a_checkout("/x").message,
        "/x does not look like a ws3-fca checkout: missing module/index.js"
    );
    let value = JsonValue::Object(vec![("b".to_string(), JsonValue::integer(1))]);
    assert_eq!(output_text(true, &value, "plain".to_string()), "{\n  \"b\": 1\n}");
    assert_eq!(output_text(false, &value, "plain".to_string()), "plain");
}

fn dir_env() -> DirEnv {
    DirEnv {
        home: Some("/home/u".to_string()),
        config_home: None,
        data_home: Some("/data".to_string()),
        cache_home: None,
    }
}

#[test]
fn directories_follow_the_platform() {
    let dirs = project_dirs(&dir_env(), Platform::Other).unwrap();
    assert_eq!(dirs.config_dir(), "/home/u/.config/fbm");
    assert_eq!(dirs.data_dir(), "/data/fbm");
    assert_eq!(dirs.cache_dir(), "/home/u/.cache/fbm");
    let dirs = project_dirs(&dir_env(), Platform::MacOs).unwrap();
    assert_eq!(dirs.data_dir(), "/home/u/Library/Application Support/dev.fbm.fbm");
    assert_eq!(dirs.cache_dir(), "/home/u/Library/Caches/dev.fbm.fbm");
    assert_eq!(
        config_path(None, Ok(dirs)).unwrap(),
        "/home/u/Library/Application Support/dev.fbm.fbm/config.toml"
    );
    let unknown = || Err(simple_error("unknown".to_string()));
    assert_eq!(config_path(Some("/x"), unknown()).unwrap(), "/x");
    assert_eq!(config_path(None, unknown()).err().unwrap().message, "unknown");
    for home in [None, Some(String::new())] {
        assert_eq!(
            home_dir(&home).err().unwrap().message,
            "could not determine home directory"
        );
    }
}

#[test]
fn paths_are_joined_and_named() {
    assert_eq!(join_path("/a", "b"), "/a/b");
    assert_eq!(join_path("/a/", "b/c"), "/a/b/c");
    assert_eq!(join_path("/a", "/b"), "/b");
    assert_eq!(join_path("", "b"), "b");
    assert_eq!(last_name("/a/b").as_deref(), Some("b"));
    assert_eq!(last_name("/a/b/").as_deref(), Some("b"));
    assert_eq!(last_name("/a/b/.").as_deref(), Some("b"));
    assert_eq!(last_name("/a/.."), None);
    assert_eq!(last_name("/"), None);
}

#[test]
fn paths_are_compared_part_by_part() {
    let paths = [
        "", "/", "//", ".", "./", "/.", "..", "a", "./a", "/a", "a/", "a/.", "a//b", "a/./b", "a/b",
        "a/b/..", "a/..", "/a/b", "/a//b/", "/./a/b", ".//a", "././a", "/../a", ".a", "a b/c",
    ];
    for a in paths {
        for b in paths {
            let same = std::path::Path::new(a) == std::path::Path::new(b);
            assert_eq!(is_same_path(a, b), same, "{a:?} {b:?}");
        }
    }
    assert!(is_same_path("/r//X/Cookies", "/r/X/Cookies"));
    assert!(!is_same_path("./X", "X"));
    assert_eq!(name_list("/a//./b/../c/"), vec!["a", "b", "..", "c"]);
    assert!(name_list("/.").is_empty());
}
