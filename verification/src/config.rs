//! The configuration: how it comes about, what is shown of it, and what follows from it.
use vstd::prelude::*;

use crate::browser::BrowserKind;
use crate::cli::{InitArgs, InitView};
use crate::error::{error2, outcome, simple_error, SimpleError};
use crate::json::{
    json_get, json_opt, json_pretty, json_pretty_text, lemma_array_view, lemma_field_at, normal,
    number_of, views, Fields, JsonValue, JsonView,
};
use crate::number::{i64_text, int_text};
use crate::paths::{join_path, path_join, AppDirs};
use crate::text::{contains_text, copy_opt, lemma_end_is_found, lemma_found_stays, opt_text, Text};

verus! {

/// Where the login comes from.
#[derive(Debug, Clone, Copy, PartialEq, Eq, Structural)]
pub enum AuthMethod {
    AppState,
    Browser,
}

impl View for AuthMethod {
    type V = AuthMethod;

    open spec fn view(&self) -> AuthMethod {
        *self
    }
}

impl Default for AuthMethod {
    fn default() -> (r: Self)
        ensures
            r == AuthMethod::AppState,
    {
        AuthMethod::AppState
    }
}

impl AuthMethod {
    /// The name of the method in configuration files.
    pub open spec fn spec_name(self) -> Text {
        match self {
            AuthMethod::AppState => "app-state"@,
            AuthMethod::Browser => "browser"@,
        }
    }

    /// The name of the method in configuration files.
    pub fn name(self) -> (r: &'static str)
        ensures
            r@ == self.spec_name(),
    {
        match self {
            AuthMethod::AppState => "app-state",
            AuthMethod::Browser => "browser",
        }
    }

    /// The name of the method in summaries.
    pub open spec fn spec_label(self) -> Text {
        match self {
            AuthMethod::AppState => "AppState"@,
            AuthMethod::Browser => "Browser"@,
        }
    }

    /// The name of the method in summaries.
    pub fn label(self) -> (r: &'static str)
        ensures
            r@ == self.spec_label(),
    {
        match self {
            AuthMethod::AppState => "AppState",
            AuthMethod::Browser => "Browser",
        }
    }
}

/// How to log in.
#[derive(Debug)]
pub struct AuthConfig {
    pub method: AuthMethod,
    pub browser: BrowserKind,
    pub browser_profile: Option<String>,
    pub browser_appstate_cache: Option<String>,
}

/// The values of [`AuthConfig`].
pub struct AuthView {
    pub method: AuthMethod,
    pub browser: BrowserKind,
    pub browser_profile: Option<Text>,
    pub browser_appstate_cache: Option<Text>,
}

impl View for AuthConfig {
    type V = AuthView;

    open spec fn view(&self) -> AuthView {
        AuthView {
            method: self.method,
            browser: self.browser,
            browser_profile: opt_text(self.browser_profile),
            browser_appstate_cache: opt_text(self.browser_appstate_cache),
        }
    }
}

impl Default for AuthConfig {
    fn default() -> (r: Self)
        ensures
            r@ == (AuthView {
                method: AuthMethod::AppState,
                browser: BrowserKind::Auto,
                browser_profile: None,
                browser_appstate_cache: None,
            }),
    {
        AuthConfig {
            method: AuthMethod::AppState,
            browser: BrowserKind::Auto,
            browser_profile: None,
            browser_appstate_cache: None,
        }
    }
}

/// Where the archive lies.
#[derive(Debug)]
pub struct DatabaseConfig {
    pub path: String,
    pub remote_url: Option<String>,
    pub auth_token: Option<String>,
}

/// The values of [`DatabaseConfig`].
pub struct DatabaseView {
    pub path: Text,
    pub remote_url: Option<Text>,
    pub auth_token: Option<Text>,
}

impl View for DatabaseConfig {
    type V = DatabaseView;

    open spec fn view(&self) -> DatabaseView {
        DatabaseView {
            path: self.path@,
            remote_url: opt_text(self.remote_url),
            auth_token: opt_text(self.auth_token),
        }
    }
}

/// The configuration of the program.
#[derive(Debug)]
pub struct Config {
    pub fca_dir: String,
    pub appstate: Option<String>,
    pub auth: AuthConfig,
    pub database: DatabaseConfig,
}

/// The values of [`Config`].
pub struct ConfigView {
    pub fca_dir: Text,
    pub appstate: Option<Text>,
    pub auth: AuthView,
    pub database: DatabaseView,
}

impl View for Config {
    type V = ConfigView;

    open spec fn view(&self) -> ConfigView {
        ConfigView {
            fca_dir: self.fca_dir@,
            appstate: opt_text(self.appstate),
            auth: self.auth@,
            database: self.database@,
        }
    }
}

/// What is shown of the way to log in.
pub open spec fn auth_shown(auth: AuthView) -> JsonView {
    JsonView::Object(
        seq![
            ("method"@, JsonView::String(auth.method.spec_name())),
            ("browser"@, JsonView::String(auth.browser.spec_name())),
            ("browser_profile"@, json_opt(auth.browser_profile)),
            ("browser_appstate_cache"@, json_opt(auth.browser_appstate_cache)),
        ],
    )
}

/// What is shown in place of a secret.
pub open spec fn redacted_token(token: Option<Text>) -> JsonView {
    match token {
        Some(_) => JsonView::String("<redacted>"@),
        None => JsonView::Null,
    }
}

/// What is shown of the place of the archive.
pub open spec fn database_shown(database: DatabaseView) -> JsonView {
    JsonView::Object(
        seq![
            ("path"@, JsonView::String(database.path)),
            ("remote_url"@, json_opt(database.remote_url)),
            ("auth_token"@, redacted_token(database.auth_token)),
        ],
    )
}

/// What is shown of a configuration.
pub open spec fn config_shown(cfg: ConfigView) -> JsonView {
    JsonView::Object(
        seq![
            ("fca_dir"@, JsonView::String(cfg.fca_dir)),
            ("appstate"@, json_opt(cfg.appstate)),
            ("auth"@, auth_shown(cfg.auth)),
            ("database"@, database_shown(cfg.database)),
        ],
    )
}

/// The token is not shown: what is shown of a configuration is the same for every token.
pub proof fn law_token_is_not_shown(cfg: ConfigView, token: Text, other: Text)
    ensures
        config_shown(
            ConfigView {
                database: DatabaseView { auth_token: Some(token), ..cfg.database },
                ..cfg
            },
        ) == config_shown(
            ConfigView {
                database: DatabaseView { auth_token: Some(other), ..cfg.database },
                ..cfg
            },
        ),
{
}

impl Config {
    /// What is shown of the configuration: all of it but the token.
    pub fn redacted(&self) -> (r: JsonValue)
        ensures
            r@ == config_shown(self@),
    {
        let mut auth = Fields::new();
        auth.add("method", JsonValue::text(self.auth.method.name()));
        auth.add("browser", JsonValue::text(self.auth.browser.name()));
        auth.add("browser_profile", JsonValue::opt_text(&self.auth.browser_profile));
        auth.add("browser_appstate_cache", JsonValue::opt_text(&self.auth.browser_appstate_cache));
        proof {
            assert(auth@ =~= auth_shown(self@.auth)->Object_0);
        }
        let token = match &self.database.auth_token {
            Some(_) => JsonValue::text("<redacted>"),
            None => JsonValue::Null,
        };
        let mut database = Fields::new();
        database.add("path", JsonValue::text(self.database.path.as_str()));
        database.add("remote_url", JsonValue::opt_text(&self.database.remote_url));
        database.add("auth_token", token);
        proof {
            assert(database@ =~= database_shown(self@.database)->Object_0);
        }
        let mut out = Fields::new();
        out.add("fca_dir", JsonValue::text(self.fca_dir.as_str()));
        out.add("appstate", JsonValue::opt_text(&self.appstate));
        out.add("auth", auth.object());
        out.add("database", database.object());
        proof {
            assert(out@ =~= config_shown(self@)->Object_0);
        }
        out.object()
    }
}

/// The first of two optional values that is there.
pub open spec fn first_of<A>(a: Option<A>, b: Option<A>) -> Option<A> {
    match a {
        Some(_) => a,
        None => b,
    }
}

/// The value of an optional configuration.
pub open spec fn opt_config(c: Option<Config>) -> Option<ConfigView> {
    match c {
        Some(cfg) => Some(cfg@),
        None => None,
    }
}

/// The checkout directory that `init` takes: the one it is given, else the one of before, else
/// the current directory.
pub open spec fn chosen_fca_dir(
    args: InitView,
    existing: Option<ConfigView>,
    current_dir: Text,
) -> Text {
    match args.fca_dir {
        Some(dir) => dir,
        None => match existing {
            Some(c) => c.fca_dir,
            None => current_dir,
        },
    }
}

/// The configuration that `init` writes. What it is given goes before what was configured before,
/// and that before what is usual; without an appState file the login comes from a browser.
pub open spec fn initialized(
    args: InitView,
    existing: Option<ConfigView>,
    fca_dir: Text,
    data_dir: Text,
) -> ConfigView {
    let before = |f: spec_fn(ConfigView) -> Option<Text>|
        match existing {
            Some(c) => f(c),
            None => None,
        };
    let appstate = first_of(args.appstate, before(|c: ConfigView| c.appstate));
    ConfigView {
        fca_dir,
        appstate,
        auth: AuthView {
            method: if args.from_browser || appstate is None {
                AuthMethod::Browser
            } else {
                match existing {
                    Some(c) => c.auth.method,
                    None => AuthMethod::AppState,
                }
            },
            browser: if args.browser != BrowserKind::Auto {
                args.browser
            } else {
                match existing {
                    Some(c) => c.auth.browser,
                    None => BrowserKind::Auto,
                }
            },
            browser_profile: first_of(
                args.browser_profile,
                before(|c: ConfigView| c.auth.browser_profile),
            ),
            browser_appstate_cache: first_of(
                args.browser_appstate_cache,
                before(|c: ConfigView| c.auth.browser_appstate_cache),
            ),
        },
        database: DatabaseView {
            path: match args.db {
                Some(db) => db,
                None => match existing {
                    Some(c) => c.database.path,
                    None => path_join(data_dir, "fbm.db"@),
                },
            },
            remote_url: first_of(args.turso_url, before(|c: ConfigView| c.database.remote_url)),
            auth_token: first_of(
                args.turso_auth_token,
                before(|c: ConfigView| c.database.auth_token),
            ),
        },
    }
}

/// The configuration of before counts where it exists and is not to be passed over.
pub open spec fn existing_counts(exists: bool, force: bool) -> bool {
    exists && !force
}

/// The configuration of before counts exactly where there is one and nobody forces a new one.
pub proof fn law_force_passes_over_the_configuration(exists: bool)
    ensures
        !existing_counts(exists, true),
        existing_counts(exists, false) == exists,
{
}

/// The configuration of before counts where it exists and is not to be passed over.
pub fn keeps_existing_config(exists: bool, force: bool) -> (r: bool)
    ensures
        r == (exists && !force),
        r == existing_counts(exists, force),
{
    exists && !force
}

/// The checkout directory that `init` takes.
pub fn init_fca_dir(args: &InitArgs, existing: &Option<Config>, current_dir: String) -> (r: String)
    ensures
        r@ == chosen_fca_dir(args@, opt_config(*existing), current_dir@),
{
    match &args.fca_dir {
        Some(dir) => dir.clone(),
        None => match existing {
            Some(c) => c.fca_dir.clone(),
            None => current_dir,
        },
    }
}

/// The given text, or else the one of before.
fn given_or(given: Option<String>, before: Option<&Option<String>>) -> (r: Option<String>)
    ensures
        opt_text(r) == first_of(
            opt_text(given),
            match before {
                Some(b) => opt_text(*b),
                None => None,
            },
        ),
{
    match given {
        Some(s) => Some(s),
        None => match before {
            Some(b) => copy_opt(b),
            None => None,
        },
    }
}

/// The configuration that `init` writes, with the checkout directory in its final form.
pub fn init_config(
    args: InitArgs,
    existing: &Option<Config>,
    fca_dir: String,
    data_dir: &str,
) -> (r: Config)
    ensures
        r@ == initialized(args@, opt_config(*existing), fca_dir@, data_dir@),
{
    let appstate = given_or(
        args.appstate,
        match existing {
            Some(c) => Some(&c.appstate),
            None => None,
        },
    );
    let method = if args.from_browser || appstate.is_none() {
        AuthMethod::Browser
    } else {
        match existing {
            Some(c) => c.auth.method,
            None => AuthMethod::AppState,
        }
    };
    let browser = if args.browser != BrowserKind::Auto {
        args.browser
    } else {
        match existing {
            Some(c) => c.auth.browser,
            None => BrowserKind::Auto,
        }
    };
    let browser_profile = given_or(
        args.browser_profile,
        match existing {
            Some(c) => Some(&c.auth.browser_profile),
            None => None,
        },
    );
    let browser_appstate_cache = given_or(
        args.browser_appstate_cache,
        match existing {
            Some(c) => Some(&c.auth.browser_appstate_cache),
            None => None,
        },
    );
    let path = match args.db {
        Some(db) => db,
        None => match existing {
            Some(c) => c.database.path.clone(),
            None => join_path(data_dir, "fbm.db"),
        },
    };
    let remote_url = given_or(
        args.turso_url,
        match existing {
            Some(c) => Some(&c.database.remote_url),
            None => None,
        },
    );
    let auth_token = given_or(
        args.turso_auth_token,
        match existing {
            Some(c) => Some(&c.database.auth_token),
            None => None,
        },
    );
    Config {
        fca_dir,
        appstate,
        auth: AuthConfig { method, browser, browser_profile, browser_appstate_cache },
        database: DatabaseConfig { path, remote_url, auth_token },
    }
}

/// The arguments of an `init` that is given nothing, in an environment that says nothing.
pub open spec fn no_init_args() -> InitView {
    InitView {
        fca_dir: None,
        appstate: None,
        from_browser: false,
        browser: BrowserKind::Auto,
        browser_profile: None,
        browser_appstate_cache: None,
        db: None,
        turso_url: None,
        turso_auth_token: None,
        force: false,
    }
}

/// An `init` that is given nothing leaves a configuration with a usable login as it is.
pub proof fn law_init_without_arguments_keeps_config(
    cfg: ConfigView,
    data_dir: Text,
    current_dir: Text,
)
    requires
        cfg.auth.method == AuthMethod::AppState ==> cfg.appstate is Some,
    ensures
        initialized(
            no_init_args(),
            Some(cfg),
            chosen_fca_dir(no_init_args(), Some(cfg), current_dir),
            data_dir,
        ) == cfg,
{
}

/// The login that `init` configures can always be found: from a browser, or from a named file.
pub proof fn law_initialized_login_has_a_source(
    args: InitView,
    existing: Option<ConfigView>,
    fca_dir: Text,
    data_dir: Text,
)
    ensures
        login_source(initialized(args, existing, fca_dir, data_dir)) is Ok,
{
}

/// Where the archive is to be opened.
#[derive(Debug)]
pub enum DatabaseTarget {
    Remote { url: String, token: String },
    Local { path: String },
}

/// The values of [`DatabaseTarget`].
pub enum TargetView {
    Remote { url: Text, token: Text },
    Local { path: Text },
}

impl View for DatabaseTarget {
    type V = TargetView;

    open spec fn view(&self) -> TargetView {
        match self {
            DatabaseTarget::Remote { url, token } => TargetView::Remote { url: url@, token: token@ },
            DatabaseTarget::Local { path } => TargetView::Local { path: path@ },
        }
    }
}

/// Where the archive is to be opened: at the remote address, for which there has to be a token, or
/// else in the local file.
pub open spec fn target_of(database: DatabaseView) -> Result<TargetView, Text> {
    match database.remote_url {
        Some(url) => match database.auth_token {
            Some(token) => Ok(TargetView::Remote { url, token }),
            None => Err("remote Turso/libSQL URL requires auth_token"@),
        },
        None => Ok(TargetView::Local { path: database.path }),
    }
}

/// Where the archive is to be opened.
pub fn database_target(cfg: &Config) -> (r: Result<DatabaseTarget, SimpleError>)
    ensures
        outcome(r) == target_of(cfg@.database),
{
    match &cfg.database.remote_url {
        Some(url) => match &cfg.database.auth_token {
            Some(token) => Ok(DatabaseTarget::Remote { url: url.clone(), token: token.clone() }),
            None => Err(simple_error("remote Turso/libSQL URL requires auth_token".to_owned())),
        },
        None => Ok(DatabaseTarget::Local { path: cfg.database.path.clone() }),
    }
}

/// Where the login is to be taken from.
#[derive(Debug)]
pub enum LoginSource {
    File(String),
    Browser,
}

/// The values of [`LoginSource`].
pub enum LoginView {
    File(Text),
    Browser,
}

impl View for LoginSource {
    type V = LoginView;

    open spec fn view(&self) -> LoginView {
        match self {
            LoginSource::File(path) => LoginView::File(path@),
            LoginSource::Browser => LoginView::Browser,
        }
    }
}

/// Where the login is to be taken from.
pub open spec fn login_source(cfg: ConfigView) -> Result<LoginView, Text> {
    match cfg.auth.method {
        AuthMethod::AppState => match cfg.appstate {
            Some(path) => Ok(LoginView::File(path)),
            None => Err("auth.method=app-state requires appstate path"@),
        },
        AuthMethod::Browser => Ok(LoginView::Browser),
    }
}

/// Where the login is to be taken from.
pub fn resolve_login(cfg: &Config) -> (r: Result<LoginSource, SimpleError>)
    ensures
        outcome(r) == login_source(cfg@),
{
    match cfg.auth.method {
        AuthMethod::AppState => match &cfg.appstate {
            Some(path) => Ok(LoginSource::File(path.clone())),
            None => Err(simple_error("auth.method=app-state requires appstate path".to_owned())),
        },
        AuthMethod::Browser => Ok(LoginSource::Browser),
    }
}

/// The file in which the cookies of the browser are kept.
pub open spec fn cache_file(cfg: ConfigView, data_dir: Text) -> Text {
    match cfg.auth.browser_appstate_cache {
        Some(path) => path,
        None => path_join(data_dir, "browser-appstate.json"@),
    }
}

/// The cookies of the browser are kept in the file that is configured, or else in the directory of
/// the data.
pub proof fn law_cache_lies_where_it_is_configured(cfg: ConfigView, data_dir: Text)
    ensures
        cfg.auth.browser_appstate_cache matches Some(path) ==> cache_file(cfg, data_dir) == path,
        cfg.auth.browser_appstate_cache is None ==> cache_file(cfg, data_dir) == path_join(
            data_dir,
            "browser-appstate.json"@,
        ),
{
}

/// The file in which the cookies of the browser are kept.
pub fn browser_cache_path(cfg: &Config, dirs: &AppDirs) -> (r: String)
    ensures
        r@ == cache_file(cfg@, dirs@.data),
        r@ == (match cfg@.auth.browser_appstate_cache {
            Some(path) => path,
            None => path_join(dirs@.data, "browser-appstate.json"@),
        }),
{
    match &cfg.auth.browser_appstate_cache {
        Some(path) => path.clone(),
        None => join_path(dirs.data_dir(), "browser-appstate.json"),
    }
}

/// What `init` reports.
pub open spec fn init_report_view(path: Text, cfg: ConfigView, login: Text) -> JsonView {
    JsonView::Object(
        seq![
            ("config_path"@, JsonView::String(path)),
            ("config"@, config_shown(cfg)),
            ("resolved_appstate"@, JsonView::String(login)),
        ],
    )
}

/// What `init` reports.
pub fn init_report(path: &str, cfg: &Config, login: &str) -> (r: JsonValue)
    ensures
        r@ == init_report_view(path@, cfg@, login@),
{
    let mut out = Fields::new();
    out.add("config_path", JsonValue::text(path));
    out.add("config", cfg.redacted());
    out.add("resolved_appstate", JsonValue::text(login));
    proof {
        assert(out@ =~= init_report_view(path@, cfg@, login@)->Object_0);
    }
    out.object()
}

/// What `init` says.
pub open spec fn init_summary_text(path: Text, cfg: ConfigView, login: Text) -> Text {
    "initialized fbm\nconfig: "@ + path + "\ndb: "@ + cfg.database.path + "\nfca: "@ + cfg.fca_dir
        + "\nauth: "@ + cfg.auth.method.spec_label() + "\nappstate: "@ + login
}

/// What `init` says names the configuration, the archive, the checkout and the login, each behind
/// its own word.
pub proof fn law_init_says_what_it_did(path: Text, cfg: ConfigView, login: Text)
    ensures
        contains_text(init_summary_text(path, cfg, login), "\nconfig: "@ + path + "\ndb: "@),
        contains_text(
            init_summary_text(path, cfg, login),
            "\ndb: "@ + cfg.database.path + "\nfca: "@,
        ),
        contains_text(
            init_summary_text(path, cfg, login),
            "\nfca: "@ + cfg.fca_dir + "\nauth: "@,
        ),
        contains_text(init_summary_text(path, cfg, login), "\nappstate: "@ + login),
{
    let method = cfg.auth.method.spec_label();
    let db = cfg.database.path;
    let fca = cfg.fca_dir;
    reveal_strlit("initialized fbm\nconfig: ");
    reveal_strlit("initialized fbm");
    reveal_strlit("\nconfig: ");
    let s1 = "initialized fbm\nconfig: "@ + path;
    let s2 = s1 + "\ndb: "@;
    let s3 = s2 + db;
    let s4 = s3 + "\nfca: "@;
    let s5 = s4 + fca;
    let s6 = s5 + "\nauth: "@;
    let s7 = s6 + method;
    let s8 = s7 + "\nappstate: "@;
    let p1 = "\nconfig: "@ + path + "\ndb: "@;
    let p2 = "\ndb: "@ + db + "\nfca: "@;
    let p3 = "\nfca: "@ + fca + "\nauth: "@;
    let p4 = "\nappstate: "@ + login;
    assert(s2 =~= "initialized fbm"@ + p1);
    lemma_end_is_found("initialized fbm"@, p1);
    lemma_found_stays(s2, p1, db);
    lemma_found_stays(s3, p1, "\nfca: "@);
    lemma_found_stays(s4, p1, fca);
    lemma_found_stays(s5, p1, "\nauth: "@);
    lemma_found_stays(s6, p1, method);
    lemma_found_stays(s7, p1, "\nappstate: "@);
    lemma_found_stays(s8, p1, login);
    assert(s4 =~= s1 + p2);
    lemma_end_is_found(s1, p2);
    lemma_found_stays(s4, p2, fca);
    lemma_found_stays(s5, p2, "\nauth: "@);
    lemma_found_stays(s6, p2, method);
    lemma_found_stays(s7, p2, "\nappstate: "@);
    lemma_found_stays(s8, p2, login);
    assert(s6 =~= s3 + p3);
    lemma_end_is_found(s3, p3);
    lemma_found_stays(s6, p3, method);
    lemma_found_stays(s7, p3, "\nappstate: "@);
    lemma_found_stays(s8, p3, login);
    assert(s8 + login =~= s7 + p4);
    lemma_end_is_found(s7, p4);
}

/// What `init` says.
pub fn init_summary(path: &str, cfg: &Config, login: &str) -> (r: String)
    ensures
        r@ == init_summary_text(path@, cfg@, login@),
        r@ == "initialized fbm\nconfig: "@ + path@ + "\ndb: "@ + cfg@.database.path + "\nfca: "@
            + cfg@.fca_dir + "\nauth: "@ + cfg@.auth.method.spec_label() + "\nappstate: "@ + login@,
{
    let mut out = "initialized fbm\nconfig: ".to_owned();
    out.append(path);
    out.append("\ndb: ");
    out.append(cfg.database.path.as_str());
    out.append("\nfca: ");
    out.append(cfg.fca_dir.as_str());
    out.append("\nauth: ");
    out.append(cfg.auth.method.label());
    out.append("\nappstate: ");
    out.append(login);
    out
}

/// What `status` reports.
pub open spec fn status_report_view(
    path: Text,
    cfg: ConfigView,
    threads: int,
    messages: int,
) -> JsonView {
    JsonView::Object(
        seq![
            ("config_path"@, JsonView::String(path)),
            ("config"@, config_shown(cfg)),
            (
                "counts"@,
                JsonView::Array(
                    seq![
                        JsonView::Number(number_of(threads)),
                        JsonView::Number(number_of(messages)),
                    ],
                ),
            ),
        ],
    )
}

/// What `status` reports.
pub fn status_report(path: &str, cfg: &Config, threads: i64, messages: i64) -> (r: JsonValue)
    ensures
        r@ == status_report_view(path@, cfg@, threads as int, messages as int),
{
    let counts = vec![JsonValue::integer(threads), JsonValue::integer(messages)];
    let mut out = Fields::new();
    out.add("config_path", JsonValue::text(path));
    out.add("config", cfg.redacted());
    proof {
        lemma_array_view(counts);
        assert(views(counts@) =~= seq![
            JsonView::Number(number_of(threads as int)),
            JsonView::Number(number_of(messages as int)),
        ]);
    }
    out.add("counts", JsonValue::Array(counts));
    proof {
        assert(out@ =~= status_report_view(
            path@,
            cfg@,
            threads as int,
            messages as int,
        )->Object_0);
    }
    out.object()
}

/// What `status` says.
pub open spec fn status_summary_text(path: Text, cfg: ConfigView, threads: int, messages: int) -> Text {
    "config: "@ + path + "\ndb: "@ + cfg.database.path + "\nthreads: "@ + int_text(threads)
        + "\nmessages: "@ + int_text(messages)
}

/// What `status` says names the configuration, the archive, and the numbers of threads and of
/// messages, each behind its own word.
pub proof fn law_status_says_what_there_is(path: Text, cfg: ConfigView, threads: int, messages: int)
    ensures
        contains_text(
            status_summary_text(path, cfg, threads, messages),
            "config: "@ + path + "\ndb: "@,
        ),
        contains_text(
            status_summary_text(path, cfg, threads, messages),
            "\ndb: "@ + cfg.database.path + "\nthreads: "@,
        ),
        contains_text(
            status_summary_text(path, cfg, threads, messages),
            "\nthreads: "@ + int_text(threads) + "\nmessages: "@,
        ),
        contains_text(
            status_summary_text(path, cfg, threads, messages),
            "\nmessages: "@ + int_text(messages),
        ),
{
    let db = cfg.database.path;
    let t = int_text(threads);
    let m = int_text(messages);
    let none = Seq::<char>::empty();
    let s1 = "config: "@ + path;
    let s2 = s1 + "\ndb: "@;
    let s3 = s2 + db;
    let s4 = s3 + "\nthreads: "@;
    let s5 = s4 + t;
    let s6 = s5 + "\nmessages: "@;
    let p2 = "\ndb: "@ + db + "\nthreads: "@;
    let p3 = "\nthreads: "@ + t + "\nmessages: "@;
    let p4 = "\nmessages: "@ + m;
    assert(s2 =~= none + s2);
    lemma_end_is_found(none, s2);
    lemma_found_stays(s2, s2, db);
    lemma_found_stays(s3, s2, "\nthreads: "@);
    lemma_found_stays(s4, s2, t);
    lemma_found_stays(s5, s2, "\nmessages: "@);
    lemma_found_stays(s6, s2, m);
    assert(s4 =~= s1 + p2);
    lemma_end_is_found(s1, p2);
    lemma_found_stays(s4, p2, t);
    lemma_found_stays(s5, p2, "\nmessages: "@);
    lemma_found_stays(s6, p2, m);
    assert(s6 =~= s3 + p3);
    lemma_end_is_found(s3, p3);
    lemma_found_stays(s6, p3, m);
    assert(s6 + m =~= s5 + p4);
    lemma_end_is_found(s5, p4);
}

/// What `status` says.
pub fn status_summary(path: &str, cfg: &Config, threads: i64, messages: i64) -> (r: String)
    ensures
        r@ == status_summary_text(path@, cfg@, threads as int, messages as int),
        r@ == "config: "@ + path@ + "\ndb: "@ + cfg@.database.path + "\nthreads: "@ + int_text(
            threads as int,
        ) + "\nmessages: "@ + int_text(messages as int),
{
    let mut out = "config: ".to_owned();
    out.append(path);
    out.append("\ndb: ");
    out.append(cfg.database.path.as_str());
    out.append("\nthreads: ");
    out.append(i64_text(threads).as_str());
    out.append("\nmessages: ");
    out.append(i64_text(messages).as_str());
    out
}

/// A directory without the entry point of ws3-fca is no checkout of it.
pub fn not_a_checkout(fca_dir: &str) -> (r: SimpleError)
    ensures
        r@ == fca_dir@ + " does not look like a ws3-fca checkout: missing module/index.js"@,
{
    error2(
        fca_dir,
        " does not look like a ws3-fca checkout: missing module/index.js",
    )
}

/// What is written of a result: the indented JSON text of the value, or the plain text.
pub open spec fn output_of(json_output: bool, value: JsonView, text: Text) -> Text {
    if json_output {
        json_pretty(normal(value))
    } else {
        text
    }
}

/// Where JSON is wanted, what is written is the value, whatever the plain text; and else the plain
/// text, whatever the value.
pub proof fn law_output_is_in_the_wanted_form(value: JsonView, text: Text)
    ensures
        output_of(true, value, text) == json_pretty(normal(value)),
        output_of(false, value, text) == text,
{
}

/// What is written of a result: the indented JSON text of the value, or the plain text.
pub fn output_text(json_output: bool, value: &JsonValue, text: String) -> (r: String)
    ensures
        r@ == output_of(json_output, value@, text@),
        r@ == (if json_output {
            json_pretty(normal(value@))
        } else {
            text@
        }),
{
    if json_output {
        json_pretty_text(value)
    } else {
        text
    }
}

/// What is shown of the way to log in is what is configured.
pub proof fn law_login_is_shown(auth: AuthView)
    ensures
        json_get(auth_shown(auth), "method"@) == Some(JsonView::String(match auth.method {
                AuthMethod::AppState => "app-state"@,
                AuthMethod::Browser => "browser"@,
            })),
        json_get(auth_shown(auth), "browser"@) == Some(JsonView::String(auth.browser.spec_name())),
        json_get(auth_shown(auth), "browser_profile"@) == Some(match auth.browser_profile {
                Some(t) => JsonView::String(t),
                None => JsonView::Null,
            }),
        json_get(auth_shown(auth), "browser_appstate_cache"@) == Some(match auth.browser_appstate_cache {
                Some(t) => JsonView::String(t),
                None => JsonView::Null,
            }),
{
    reveal_strlit("method");
    reveal_strlit("browser");
    reveal_strlit("browser_profile");
    reveal_strlit("browser_appstate_cache");
    let fields = auth_shown(auth)->Object_0;
    assert(fields[0].0 == "method"@);
    lemma_field_at(fields, 0);
    assert(fields[1].0 == "browser"@);
    assert("method"@.len() != "browser"@.len());
    lemma_field_at(fields, 1);
    assert(fields[2].0 == "browser_profile"@);
    assert("method"@.len() != "browser_profile"@.len());
    assert("browser"@.len() != "browser_profile"@.len());
    lemma_field_at(fields, 2);
    assert(fields[3].0 == "browser_appstate_cache"@);
    assert("method"@.len() != "browser_appstate_cache"@.len());
    assert("browser"@.len() != "browser_appstate_cache"@.len());
    assert("browser_profile"@.len() != "browser_appstate_cache"@.len());
    lemma_field_at(fields, 3);
}

/// What is shown of the place of the archive is what is configured; of the token only whether there
/// is one.
pub proof fn law_archive_is_shown(database: DatabaseView)
    ensures
        json_get(database_shown(database), "path"@) == Some(JsonView::String(database.path)),
        json_get(database_shown(database), "remote_url"@) == Some(match database.remote_url {
                Some(t) => JsonView::String(t),
                None => JsonView::Null,
            }),
        json_get(database_shown(database), "auth_token"@) == Some(if database.auth_token is Some {
                JsonView::String("<redacted>"@)
            } else {
                JsonView::Null
            }),
{
    reveal_strlit("path");
    reveal_strlit("remote_url");
    reveal_strlit("auth_token");
    let fields = database_shown(database)->Object_0;
    assert(fields[0].0 == "path"@);
    lemma_field_at(fields, 0);
    assert(fields[1].0 == "remote_url"@);
    assert("path"@.len() != "remote_url"@.len());
    lemma_field_at(fields, 1);
    assert(fields[2].0 == "auth_token"@);
    assert("path"@.len() != "auth_token"@.len());
    assert("remote_url"@[0] != "auth_token"@[0]);
    lemma_field_at(fields, 2);
}

/// What is shown of a configuration is what is configured.
pub proof fn law_configuration_is_shown(cfg: ConfigView)
    ensures
        json_get(config_shown(cfg), "fca_dir"@) == Some(JsonView::String(cfg.fca_dir)),
        json_get(config_shown(cfg), "appstate"@) == Some(match cfg.appstate {
                Some(t) => JsonView::String(t),
                None => JsonView::Null,
            }),
        json_get(config_shown(cfg), "auth"@) == Some(auth_shown(cfg.auth)),
        json_get(config_shown(cfg), "database"@) == Some(database_shown(cfg.database)),
{
    reveal_strlit("fca_dir");
    reveal_strlit("appstate");
    reveal_strlit("auth");
    reveal_strlit("database");
    let fields = config_shown(cfg)->Object_0;
    assert(fields[0].0 == "fca_dir"@);
    lemma_field_at(fields, 0);
    assert(fields[1].0 == "appstate"@);
    assert("fca_dir"@.len() != "appstate"@.len());
    lemma_field_at(fields, 1);
    assert(fields[2].0 == "auth"@);
    assert("fca_dir"@.len() != "auth"@.len());
    assert("appstate"@.len() != "auth"@.len());
    lemma_field_at(fields, 2);
    assert(fields[3].0 == "database"@);
    assert("fca_dir"@.len() != "database"@.len());
    assert("appstate"@[0] != "database"@[0]);
    assert("auth"@.len() != "database"@.len());
    lemma_field_at(fields, 3);
}

/// `init` reports where the configuration lies, what it says, and which login was found.
pub proof fn law_init_is_reported(path: Text, cfg: ConfigView, login: Text)
    ensures
        json_get(init_report_view(path, cfg, login), "config_path"@) == Some(JsonView::String(path)),
        json_get(init_report_view(path, cfg, login), "config"@) == Some(config_shown(cfg)),
        json_get(init_report_view(path, cfg, login), "resolved_appstate"@) == Some(JsonView::String(login)),
{
    reveal_strlit("config_path");
    reveal_strlit("config");
    reveal_strlit("resolved_appstate");
    let fields = init_report_view(path, cfg, login)->Object_0;
    assert(fields[0].0 == "config_path"@);
    lemma_field_at(fields, 0);
    assert(fields[1].0 == "config"@);
    assert("config_path"@.len() != "config"@.len());
    lemma_field_at(fields, 1);
    assert(fields[2].0 == "resolved_appstate"@);
    assert("config_path"@.len() != "resolved_appstate"@.len());
    assert("config"@.len() != "resolved_appstate"@.len());
    lemma_field_at(fields, 2);
}

/// `status` reports where the configuration lies, what it says, and how many threads and messages the
/// archive holds.
pub proof fn law_status_is_reported(path: Text, cfg: ConfigView, threads: int, messages: int)
    ensures
        json_get(status_report_view(path, cfg, threads, messages), "config_path"@) == Some(JsonView::String(path)),
        json_get(status_report_view(path, cfg, threads, messages), "config"@) == Some(config_shown(cfg)),
        json_get(status_report_view(path, cfg, threads, messages), "counts"@) == Some(JsonView::Array(
                seq![
                    JsonView::Number(number_of(threads)),
                    JsonView::Number(number_of(messages)),
                ],
            )),
{
    reveal_strlit("config_path");
    reveal_strlit("config");
    reveal_strlit("counts");
    let fields = status_report_view(path, cfg, threads, messages)->Object_0;
    assert(fields[0].0 == "config_path"@);
    lemma_field_at(fields, 0);
    assert(fields[1].0 == "config"@);
    assert("config_path"@.len() != "config"@.len());
    lemma_field_at(fields, 1);
    assert(fields[2].0 == "counts"@);
    assert("config_path"@.len() != "counts"@.len());
    assert("config"@[2] != "counts"@[2]);
    lemma_field_at(fields, 2);
}

/// What `init` is given is what it writes, whatever was configured before.
pub proof fn law_init_writes_what_it_is_given(
    args: InitView,
    existing: Option<ConfigView>,
    fca_dir: Text,
    data_dir: Text,
)
    ensures
        ({
            let cfg = initialized(args, existing, fca_dir, data_dir);
            &&& cfg.fca_dir == fca_dir
            &&& args.db matches Some(p) ==> cfg.database.path == p
            &&& args.turso_url matches Some(url) ==> cfg.database.remote_url == Some(url)
            &&& args.turso_auth_token matches Some(token) ==> cfg.database.auth_token == Some(token)
            &&& args.appstate matches Some(file) ==> cfg.appstate == Some(file)
            &&& args.browser_profile matches Some(profile) ==> cfg.auth.browser_profile == Some(
                profile,
            )
            &&& args.browser_appstate_cache matches Some(file) ==> cfg.auth.browser_appstate_cache
                == Some(file)
            &&& args.browser != BrowserKind::Auto ==> cfg.auth.browser == args.browser
            &&& args.from_browser ==> cfg.auth.method == AuthMethod::Browser
        }),
{
}

/// What `init` is not given stays as it was configured before.
pub proof fn law_init_keeps_what_it_is_not_given(
    args: InitView,
    before: ConfigView,
    fca_dir: Text,
    data_dir: Text,
)
    ensures
        ({
            let cfg = initialized(args, Some(before), fca_dir, data_dir);
            &&& args.db is None ==> cfg.database.path == before.database.path
            &&& args.turso_url is None ==> cfg.database.remote_url == before.database.remote_url
            &&& args.turso_auth_token is None ==> cfg.database.auth_token
                == before.database.auth_token
            &&& args.appstate is None ==> cfg.appstate == before.appstate
            &&& args.browser_profile is None ==> cfg.auth.browser_profile
                == before.auth.browser_profile
            &&& args.browser_appstate_cache is None ==> cfg.auth.browser_appstate_cache
                == before.auth.browser_appstate_cache
            &&& args.browser == BrowserKind::Auto ==> cfg.auth.browser == before.auth.browser
            &&& !args.from_browser && (args.appstate is Some || before.appstate is Some)
                ==> cfg.auth.method == before.auth.method
            &&& args.appstate is None && before.appstate is None ==> cfg.auth.method
                == AuthMethod::Browser
        }),
{
}

/// Where nothing was configured before, what `init` is not given is what is usual: the archive in
/// the directory of the data, no remote archive, and the file of a login where one is named.
pub proof fn law_init_falls_back_on_what_is_usual(args: InitView, fca_dir: Text, data_dir: Text)
    ensures
        ({
            let cfg = initialized(args, None, fca_dir, data_dir);
            &&& args.db is None ==> cfg.database.path == path_join(data_dir, "fbm.db"@)
            &&& args.turso_url is None ==> cfg.database.remote_url is None
            &&& args.turso_auth_token is None ==> cfg.database.auth_token is None
            &&& args.appstate is None ==> cfg.appstate is None
            &&& args.browser_profile is None ==> cfg.auth.browser_profile is None
            &&& args.browser_appstate_cache is None ==> cfg.auth.browser_appstate_cache is None
            &&& cfg.auth.browser == args.browser
            &&& cfg.auth.method == AuthMethod::AppState <==> args.appstate is Some
                && !args.from_browser
        }),
{
}

/// The checkout that `init` takes is the one it is given, or else the one of before, or else the
/// current directory.
pub proof fn law_checkout_is_the_one_given(
    args: InitView,
    existing: Option<ConfigView>,
    current_dir: Text,
)
    ensures
        args.fca_dir matches Some(dir) ==> chosen_fca_dir(args, existing, current_dir) == dir,
        args.fca_dir is None && existing is Some ==> chosen_fca_dir(args, existing, current_dir)
            == existing->0.fca_dir,
        args.fca_dir is None && existing is None ==> chosen_fca_dir(args, existing, current_dir)
            == current_dir,
{
}

/// The archive is opened at the remote address where one is configured, with the token, without
/// which there is an error; or else in the local file.
pub proof fn law_archive_is_opened_where_it_lies(database: DatabaseView)
    ensures
        target_of(database) is Err <==> database.remote_url is Some && database.auth_token is None,
        database.remote_url is None ==> target_of(database) == Ok::<TargetView, Text>(
            TargetView::Local { path: database.path },
        ),
        database.remote_url is Some && database.auth_token is Some ==> target_of(database) == Ok::<
            TargetView,
            Text,
        >(TargetView::Remote { url: database.remote_url->0, token: database.auth_token->0 }),
{
}

/// The login is taken from the named file or from the browser, as the method says.
pub proof fn law_login_is_taken_from_where_it_is_configured(cfg: ConfigView)
    ensures
        cfg.auth.method == AuthMethod::Browser ==> login_source(cfg) == Ok::<LoginView, Text>(
            LoginView::Browser,
        ),
        cfg.auth.method == AuthMethod::AppState && cfg.appstate is Some ==> login_source(cfg)
            == Ok::<LoginView, Text>(LoginView::File(cfg.appstate->0)),
        cfg.auth.method == AuthMethod::AppState && cfg.appstate is None ==> login_source(cfg)
            == Err::<LoginView, Text>("auth.method=app-state requires appstate path"@),
{
}

/// The configuration that `init` writes names the archive that it was given: it is opened there.
pub proof fn law_given_archive_is_opened(
    args: InitView,
    existing: Option<ConfigView>,
    fca_dir: Text,
    data_dir: Text,
)
    ensures
        ({
            let target = target_of(initialized(args, existing, fca_dir, data_dir).database);
            &&& args.turso_url is Some && args.turso_auth_token is Some ==> target == Ok::<
                TargetView,
                Text,
            >(TargetView::Remote { url: args.turso_url->0, token: args.turso_auth_token->0 })
            &&& args.db is Some && args.turso_url is None && (existing is Some
                ==> existing->0.database.remote_url is None) ==> target == Ok::<TargetView, Text>(
                TargetView::Local { path: args.db->0 },
            )
        }),
{
}

/// A summary calls a login by how it is taken: from a file, or from the browser.
pub proof fn law_login_is_called_by_its_kind(method: AuthMethod)
    ensures
        method == AuthMethod::AppState <==> method.spec_label() == "AppState"@,
        method == AuthMethod::Browser <==> method.spec_label() == "Browser"@,
{
    reveal_strlit("AppState");
    reveal_strlit("Browser");
    assert("AppState"@.len() != "Browser"@.len());
}

} // verus!
