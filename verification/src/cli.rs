//! The command line: commands, their arguments, and how they are read.
use vstd::prelude::*;

use crate::browser::{browser_named, BrowserKind};
use crate::error::{error3, outcome, simple_error, SimpleError};
use crate::flags::{
    count_value, flag_arg, flag_hit, fold_args, parse_usize, read_step, short_arg, short_hit,
    take_value, text_step, value_at, value_or_short_at, Step,
};
use crate::parts::{split, split_at_char};
use crate::text::{
    copy_opt, first_is, has_prefix, joined3, lemma_texts_push, list_has, lowered, opt_text, same,
    small_letters, starts_with, strip_repeated, texts, without_prefixes, Text,
};

verus! {

/// The form of an export.
#[derive(Debug, Clone, Copy, PartialEq, Eq, Structural)]
pub enum ExportFormat {
    Json,
    Markdown,
}

impl View for ExportFormat {
    type V = ExportFormat;

    open spec fn view(&self) -> ExportFormat {
        *self
    }
}

/// The export format of a name, in which capital and small letters count the same.
pub open spec fn format_named(raw: Text) -> Result<ExportFormat, Text> {
    let name = small_letters(raw);
    if name == "json"@ {
        Ok(ExportFormat::Json)
    } else if name == "markdown"@ || name == "md"@ {
        Ok(ExportFormat::Markdown)
    } else {
        Err("unknown export format `"@ + raw + "`"@)
    }
}

impl ExportFormat {
    /// The export format of a name.
    pub fn parse(raw: &str) -> (r: Result<Self, SimpleError>)
        ensures
            outcome(r) == format_named(raw@),
    {
        let name = lowered(raw);
        if same(name.as_str(), "json") {
            Ok(ExportFormat::Json)
        } else if same(name.as_str(), "markdown") || same(name.as_str(), "md") {
            Ok(ExportFormat::Markdown)
        } else {
            Err(error3("unknown export format `", raw, "`"))
        }
    }
}

/// What the environment says of the settings.
#[derive(Debug)]
pub struct CliEnv {
    /// `FBM_CONFIG`.
    pub config: Option<String>,
    /// `FBM_FCA_DIR`.
    pub fca_dir: Option<String>,
    /// `FBM_APPSTATE`.
    pub appstate: Option<String>,
    /// `FBM_BROWSER_APPSTATE_CACHE`.
    pub browser_appstate_cache: Option<String>,
    /// `FBM_DB`.
    pub db: Option<String>,
    /// `LIBSQL_URL`.
    pub libsql_url: Option<String>,
    /// `LIBSQL_AUTH_TOKEN`.
    pub libsql_auth_token: Option<String>,
}

/// The values of [`CliEnv`].
pub struct CliEnvView {
    pub config: Option<Text>,
    pub fca_dir: Option<Text>,
    pub appstate: Option<Text>,
    pub browser_appstate_cache: Option<Text>,
    pub db: Option<Text>,
    pub libsql_url: Option<Text>,
    pub libsql_auth_token: Option<Text>,
}

impl View for CliEnv {
    type V = CliEnvView;

    open spec fn view(&self) -> CliEnvView {
        CliEnvView {
            config: opt_text(self.config),
            fca_dir: opt_text(self.fca_dir),
            appstate: opt_text(self.appstate),
            browser_appstate_cache: opt_text(self.browser_appstate_cache),
            db: opt_text(self.db),
            libsql_url: opt_text(self.libsql_url),
            libsql_auth_token: opt_text(self.libsql_auth_token),
        }
    }
}

/// The arguments of `init`.
#[derive(Debug)]
pub struct InitArgs {
    /// The ws3-fca checkout.
    pub fca_dir: Option<String>,
    /// The file of a Facebook appState.
    pub appstate: Option<String>,
    /// Take the cookies of a local browser profile.
    pub from_browser: bool,
    /// The browser to take them from.
    pub browser: BrowserKind,
    /// The profile of that browser, by its name or a part of it.
    pub browser_profile: Option<String>,
    /// Where the cookies of the browser are kept.
    pub browser_appstate_cache: Option<String>,
    /// The local database file.
    pub db: Option<String>,
    /// The address of a remote database.
    pub turso_url: Option<String>,
    /// The token for the remote database.
    pub turso_auth_token: Option<String>,
    /// Pass over the values of an existing configuration.
    pub force: bool,
}

/// The values of [`InitArgs`].
pub struct InitView {
    pub fca_dir: Option<Text>,
    pub appstate: Option<Text>,
    pub from_browser: bool,
    pub browser: BrowserKind,
    pub browser_profile: Option<Text>,
    pub browser_appstate_cache: Option<Text>,
    pub db: Option<Text>,
    pub turso_url: Option<Text>,
    pub turso_auth_token: Option<Text>,
    pub force: bool,
}

impl View for InitArgs {
    type V = InitView;

    open spec fn view(&self) -> InitView {
        InitView {
            fca_dir: opt_text(self.fca_dir),
            appstate: opt_text(self.appstate),
            from_browser: self.from_browser,
            browser: self.browser,
            browser_profile: opt_text(self.browser_profile),
            browser_appstate_cache: opt_text(self.browser_appstate_cache),
            db: opt_text(self.db),
            turso_url: opt_text(self.turso_url),
            turso_auth_token: opt_text(self.turso_auth_token),
            force: self.force,
        }
    }
}

/// The arguments of `init` before any is read: what the environment says.
pub open spec fn init_defaults(env: CliEnvView) -> InitView {
    InitView {
        fca_dir: env.fca_dir,
        appstate: env.appstate,
        from_browser: false,
        browser: BrowserKind::Auto,
        browser_profile: None,
        browser_appstate_cache: env.browser_appstate_cache,
        db: env.db,
        turso_url: env.libsql_url,
        turso_auth_token: env.libsql_auth_token,
        force: false,
    }
}

/// One step over the arguments of `init`.
pub open spec fn init_step(args: Seq<Text>, i: int, acc: InitView) -> Result<(InitView, int), Text> {
    if args[i] == "--from-browser"@ {
        Ok((InitView { from_browser: true, ..acc }, i + 1))
    } else if args[i] == "--force"@ {
        Ok((InitView { force: true, ..acc }, i + 1))
    } else if flag_hit(args[i], "--fca-dir"@) {
        text_step(
            flag_arg(args, i, "--fca-dir"@),
            |v: Text| InitView { fca_dir: Some(v), ..acc },
        )
    } else if flag_hit(args[i], "--appstate"@) {
        text_step(
            flag_arg(args, i, "--appstate"@),
            |v: Text| InitView { appstate: Some(v), ..acc },
        )
    } else if flag_hit(args[i], "--browser"@) {
        read_step(
            flag_arg(args, i, "--browser"@),
            |v: Text| browser_named(v),
            |x: BrowserKind| InitView { browser: x, ..acc },
        )
    } else if flag_hit(args[i], "--browser-profile"@) {
        text_step(
            flag_arg(args, i, "--browser-profile"@),
            |v: Text| InitView { browser_profile: Some(v), ..acc },
        )
    } else if flag_hit(args[i], "--browser-appstate-cache"@) {
        text_step(
            flag_arg(args, i, "--browser-appstate-cache"@),
            |v: Text| InitView { browser_appstate_cache: Some(v), ..acc },
        )
    } else if flag_hit(args[i], "--db"@) {
        text_step(
            flag_arg(args, i, "--db"@),
            |v: Text| InitView { db: Some(v), ..acc },
        )
    } else if flag_hit(args[i], "--turso-url"@) {
        text_step(
            flag_arg(args, i, "--turso-url"@),
            |v: Text| InitView { turso_url: Some(v), ..acc },
        )
    } else if flag_hit(args[i], "--turso-auth-token"@) {
        text_step(
            flag_arg(args, i, "--turso-auth-token"@),
            |v: Text| InitView { turso_auth_token: Some(v), ..acc },
        )
    } else {
        Err("unknown init argument `"@ + args[i] + "`"@)
    }
}

/// The steps over the arguments of `init`.
pub open spec fn init_steps() -> Step<InitView> {
    |args: Seq<Text>, i: int, acc: InitView| init_step(args, i, acc)
}

/// Reads the arguments of `init`.
pub fn parse_init_args(args: Vec<String>, env: &CliEnv) -> (r: Result<InitArgs, SimpleError>)
    ensures
        outcome(r) == fold_args(texts(args@), 0, init_defaults(env@), init_steps()),
{
    let mut out = InitArgs {
        fca_dir: copy_opt(&env.fca_dir),
        appstate: copy_opt(&env.appstate),
        from_browser: false,
        browser: BrowserKind::Auto,
        browser_profile: None,
        browser_appstate_cache: copy_opt(&env.browser_appstate_cache),
        db: copy_opt(&env.db),
        turso_url: copy_opt(&env.libsql_url),
        turso_auth_token: copy_opt(&env.libsql_auth_token),
        force: false,
    };
    let ghost all = texts(args@);
    let ghost start = out@;
    let mut i: usize = 0;
    while i < args.len()
        invariant
            0 <= i <= args@.len(),
            all == texts(args@),
            start == init_defaults(env@),
            fold_args(all, 0, start, init_steps()) == fold_args(
                all,
                i as int,
                out@,
                init_steps(),
            ),
        decreases args@.len() - i,
    {
        let arg = &args[i];
        proof {
            assert(all[i as int] == arg@);
        }
        if same(arg.as_str(), "--from-browser") {
            out.from_browser = true;
            i += 1;
            continue ;
        }
        if same(arg.as_str(), "--force") {
            out.force = true;
            i += 1;
            continue ;
        }
        match value_at(&args, &mut i, "--fca-dir") {
            Err(e) => return Err(e),
            Ok(Some(v)) => {
                out.fca_dir = Some(v);
                continue ;
            },
            Ok(None) => {},
        }
        match value_at(&args, &mut i, "--appstate") {
            Err(e) => return Err(e),
            Ok(Some(v)) => {
                out.appstate = Some(v);
                continue ;
            },
            Ok(None) => {},
        }
        match value_at(&args, &mut i, "--browser") {
            Err(e) => return Err(e),
            Ok(Some(v)) => {
                match BrowserKind::parse(v.as_str()) {
                    Ok(x) => out.browser = x,
                    Err(e) => return Err(e),
                }
                continue ;
            },
            Ok(None) => {},
        }
        match value_at(&args, &mut i, "--browser-profile") {
            Err(e) => return Err(e),
            Ok(Some(v)) => {
                out.browser_profile = Some(v);
                continue ;
            },
            Ok(None) => {},
        }
        match value_at(&args, &mut i, "--browser-appstate-cache") {
            Err(e) => return Err(e),
            Ok(Some(v)) => {
                out.browser_appstate_cache = Some(v);
                continue ;
            },
            Ok(None) => {},
        }
        match value_at(&args, &mut i, "--db") {
            Err(e) => return Err(e),
            Ok(Some(v)) => {
                out.db = Some(v);
                continue ;
            },
            Ok(None) => {},
        }
        match value_at(&args, &mut i, "--turso-url") {
            Err(e) => return Err(e),
            Ok(Some(v)) => {
                out.turso_url = Some(v);
                continue ;
            },
            Ok(None) => {},
        }
        match value_at(&args, &mut i, "--turso-auth-token") {
            Err(e) => return Err(e),
            Ok(Some(v)) => {
                out.turso_auth_token = Some(v);
                continue ;
            },
            Ok(None) => {},
        }
        return Err(error3("unknown init argument `", arg.as_str(), "`"));
    }
    Ok(out)
}

/// The arguments of `sync`.
#[derive(Debug)]
pub struct SyncArgs {
    /// Fetch all conversations that can be reached, with their whole history.
    pub all: bool,
    /// The most threads that one page is asked for.
    pub threads: usize,
    /// The most messages that one page is asked for.
    pub messages: usize,
    /// The folders to fetch.
    pub tags: Vec<String>,
    /// Fetch this thread only.
    pub thread_id: Option<String>,
    /// Go on to older pages of a thread.
    pub full: bool,
    /// The most pages of threads; 0 for no limit.
    pub max_thread_pages: usize,
    /// The most pages of one thread; 0 for no limit.
    pub max_pages: usize,
    /// The most threads whose messages are fetched; 0 for no limit.
    pub history_threads: usize,
}

/// The values of [`SyncArgs`].
pub struct SyncView {
    pub all: bool,
    pub threads: usize,
    pub messages: usize,
    pub tags: Seq<Text>,
    pub thread_id: Option<Text>,
    pub full: bool,
    pub max_thread_pages: usize,
    pub max_pages: usize,
    pub history_threads: usize,
}

impl View for SyncArgs {
    type V = SyncView;

    open spec fn view(&self) -> SyncView {
        SyncView {
            all: self.all,
            threads: self.threads,
            messages: self.messages,
            tags: texts(self.tags@),
            thread_id: opt_text(self.thread_id),
            full: self.full,
            max_thread_pages: self.max_thread_pages,
            max_pages: self.max_pages,
            history_threads: self.history_threads,
        }
    }
}

/// The arguments of `sync` where none is given.
pub open spec fn sync_defaults() -> SyncView {
    SyncView {
        all: false,
        threads: 50,
        messages: 200,
        tags: seq!["INBOX"@],
        thread_id: None,
        full: false,
        max_thread_pages: 0,
        max_pages: 25,
        history_threads: 0,
    }
}

/// One step over the arguments of `sync`.
pub open spec fn sync_step(args: Seq<Text>, i: int, acc: SyncView) -> Result<(SyncView, int), Text> {
    if args[i] == "--all"@ {
        Ok((SyncView { all: true, ..acc }, i + 1))
    } else if args[i] == "--full"@ {
        Ok((SyncView { full: true, ..acc }, i + 1))
    } else if flag_hit(args[i], "--threads"@) {
        read_step(
            flag_arg(args, i, "--threads"@),
            |v: Text| count_value(v, "--threads"@),
            |x: usize| SyncView { threads: x, ..acc },
        )
    } else if flag_hit(args[i], "--messages"@) {
        read_step(
            flag_arg(args, i, "--messages"@),
            |v: Text| count_value(v, "--messages"@),
            |x: usize| SyncView { messages: x, ..acc },
        )
    } else if flag_hit(args[i], "--tags"@) {
        text_step(
            flag_arg(args, i, "--tags"@),
            |v: Text| SyncView { tags: split(v, ','), ..acc },
        )
    } else if flag_hit(args[i], "--thread-id"@) {
        text_step(
            flag_arg(args, i, "--thread-id"@),
            |v: Text| SyncView { thread_id: Some(v), ..acc },
        )
    } else if flag_hit(args[i], "--max-thread-pages"@) {
        read_step(
            flag_arg(args, i, "--max-thread-pages"@),
            |v: Text| count_value(v, "--max-thread-pages"@),
            |x: usize| SyncView { max_thread_pages: x, ..acc },
        )
    } else if flag_hit(args[i], "--max-pages"@) {
        read_step(
            flag_arg(args, i, "--max-pages"@),
            |v: Text| count_value(v, "--max-pages"@),
            |x: usize| SyncView { max_pages: x, ..acc },
        )
    } else if flag_hit(args[i], "--history-threads"@) {
        read_step(
            flag_arg(args, i, "--history-threads"@),
            |v: Text| count_value(v, "--history-threads"@),
            |x: usize| SyncView { history_threads: x, ..acc },
        )
    } else {
        Err("unknown sync argument `"@ + args[i] + "`"@)
    }
}

/// The steps over the arguments of `sync`.
pub open spec fn sync_steps() -> Step<SyncView> {
    |args: Seq<Text>, i: int, acc: SyncView| sync_step(args, i, acc)
}

/// Reads the arguments of `sync`.
pub fn parse_sync_args(args: Vec<String>) -> (r: Result<SyncArgs, SimpleError>)
    ensures
        outcome(r) == fold_args(texts(args@), 0, sync_defaults(), sync_steps()),
{
    let mut out = SyncArgs {
        all: false,
        threads: 50,
        messages: 200,
        tags: vec!["INBOX".to_owned()],
        thread_id: None,
        full: false,
        max_thread_pages: 0,
        max_pages: 25,
        history_threads: 0,
    };
    proof {
        assert(texts(out.tags@) =~= seq!["INBOX"@]);
    }
    let ghost all = texts(args@);
    let ghost start = out@;
    let mut i: usize = 0;
    while i < args.len()
        invariant
            0 <= i <= args@.len(),
            all == texts(args@),
            start == sync_defaults(),
            fold_args(all, 0, start, sync_steps()) == fold_args(
                all,
                i as int,
                out@,
                sync_steps(),
            ),
        decreases args@.len() - i,
    {
        let arg = &args[i];
        proof {
            assert(all[i as int] == arg@);
        }
        if same(arg.as_str(), "--all") {
            out.all = true;
            i += 1;
            continue ;
        }
        if same(arg.as_str(), "--full") {
            out.full = true;
            i += 1;
            continue ;
        }
        match value_at(&args, &mut i, "--threads") {
            Err(e) => return Err(e),
            Ok(Some(v)) => {
                match parse_usize(v, "--threads") {
                    Ok(x) => out.threads = x,
                    Err(e) => return Err(e),
                }
                continue ;
            },
            Ok(None) => {},
        }
        match value_at(&args, &mut i, "--messages") {
            Err(e) => return Err(e),
            Ok(Some(v)) => {
                match parse_usize(v, "--messages") {
                    Ok(x) => out.messages = x,
                    Err(e) => return Err(e),
                }
                continue ;
            },
            Ok(None) => {},
        }
        match value_at(&args, &mut i, "--tags") {
            Err(e) => return Err(e),
            Ok(Some(v)) => {
                out.tags = split_at_char(v.as_str(), ',');
                continue ;
            },
            Ok(None) => {},
        }
        match value_at(&args, &mut i, "--thread-id") {
            Err(e) => return Err(e),
            Ok(Some(v)) => {
                out.thread_id = Some(v);
                continue ;
            },
            Ok(None) => {},
        }
        match value_at(&args, &mut i, "--max-thread-pages") {
            Err(e) => return Err(e),
            Ok(Some(v)) => {
                match parse_usize(v, "--max-thread-pages") {
                    Ok(x) => out.max_thread_pages = x,
                    Err(e) => return Err(e),
                }
                continue ;
            },
            Ok(None) => {},
        }
        match value_at(&args, &mut i, "--max-pages") {
            Err(e) => return Err(e),
            Ok(Some(v)) => {
                match parse_usize(v, "--max-pages") {
                    Ok(x) => out.max_pages = x,
                    Err(e) => return Err(e),
                }
                continue ;
            },
            Ok(None) => {},
        }
        match value_at(&args, &mut i, "--history-threads") {
            Err(e) => return Err(e),
            Ok(Some(v)) => {
                match parse_usize(v, "--history-threads") {
                    Ok(x) => out.history_threads = x,
                    Err(e) => return Err(e),
                }
                continue ;
            },
            Ok(None) => {},
        }
        return Err(error3("unknown sync argument `", arg.as_str(), "`"));
    }
    Ok(out)
}

/// The arguments of `threads`.
#[derive(Debug)]
pub struct ThreadsArgs {
    /// The most rows to show.
    pub limit: usize,
    /// What name, participants, snippet or id have to hold.
    pub query: Option<String>,
    /// Show archived threads too.
    pub archived: bool,
}

/// The values of [`ThreadsArgs`].
pub struct ThreadsView {
    pub limit: usize,
    pub query: Option<Text>,
    pub archived: bool,
}

impl View for ThreadsArgs {
    type V = ThreadsView;

    open spec fn view(&self) -> ThreadsView {
        ThreadsView {
            limit: self.limit,
            query: opt_text(self.query),
            archived: self.archived,
        }
    }
}

/// The arguments of `threads` where none is given.
pub open spec fn threads_defaults() -> ThreadsView {
    ThreadsView { limit: 30, query: None, archived: false }
}

/// One step over the arguments of `threads`.
pub open spec fn threads_step(args: Seq<Text>, i: int, acc: ThreadsView) -> Result<(ThreadsView, int), Text> {
    if args[i] == "--archived"@ {
        Ok((ThreadsView { archived: true, ..acc }, i + 1))
    } else if short_hit(args[i], "--limit"@, "-l"@) {
        read_step(
            short_arg(args, i, "--limit"@, "-l"@),
            |v: Text| count_value(v, "--limit"@),
            |x: usize| ThreadsView { limit: x, ..acc },
        )
    } else if short_hit(args[i], "--query"@, "-q"@) {
        text_step(
            short_arg(args, i, "--query"@, "-q"@),
            |v: Text| ThreadsView { query: Some(v), ..acc },
        )
    } else {
        Err("unknown threads argument `"@ + args[i] + "`"@)
    }
}

/// The steps over the arguments of `threads`.
pub open spec fn threads_steps() -> Step<ThreadsView> {
    |args: Seq<Text>, i: int, acc: ThreadsView| threads_step(args, i, acc)
}

/// Reads the arguments of `threads`.
pub fn parse_threads_args(args: Vec<String>) -> (r: Result<ThreadsArgs, SimpleError>)
    ensures
        outcome(r) == fold_args(texts(args@), 0, threads_defaults(), threads_steps()),
{
    let mut out = ThreadsArgs { limit: 30, query: None, archived: false };
    let ghost all = texts(args@);
    let ghost start = out@;
    let mut i: usize = 0;
    while i < args.len()
        invariant
            0 <= i <= args@.len(),
            all == texts(args@),
            start == threads_defaults(),
            fold_args(all, 0, start, threads_steps()) == fold_args(
                all,
                i as int,
                out@,
                threads_steps(),
            ),
        decreases args@.len() - i,
    {
        let arg = &args[i];
        proof {
            assert(all[i as int] == arg@);
        }
        if same(arg.as_str(), "--archived") {
            out.archived = true;
            i += 1;
            continue ;
        }
        match value_or_short_at(&args, &mut i, "--limit", "-l") {
            Err(e) => return Err(e),
            Ok(Some(v)) => {
                match parse_usize(v, "--limit") {
                    Ok(x) => out.limit = x,
                    Err(e) => return Err(e),
                }
                continue ;
            },
            Ok(None) => {},
        }
        match value_or_short_at(&args, &mut i, "--query", "-q") {
            Err(e) => return Err(e),
            Ok(Some(v)) => {
                out.query = Some(v);
                continue ;
            },
            Ok(None) => {},
        }
        return Err(error3("unknown threads argument `", arg.as_str(), "`"));
    }
    Ok(out)
}

/// The arguments of `categorize`.
#[derive(Debug)]
pub struct CategorizeArgs {
    /// Count the categories of this axis only.
    pub axis: Option<String>,
    /// The most rows to show.
    pub limit: usize,
}

/// The values of [`CategorizeArgs`].
pub struct CategorizeView {
    pub axis: Option<Text>,
    pub limit: usize,
}

impl View for CategorizeArgs {
    type V = CategorizeView;

    open spec fn view(&self) -> CategorizeView {
        CategorizeView {
            axis: opt_text(self.axis),
            limit: self.limit,
        }
    }
}

/// The arguments of `categorize` where none is given.
pub open spec fn categorize_defaults() -> CategorizeView {
    CategorizeView { axis: None, limit: 50 }
}

/// One step over the arguments of `categorize`.
pub open spec fn categorize_step(args: Seq<Text>, i: int, acc: CategorizeView) -> Result<(CategorizeView, int), Text> {
    if flag_hit(args[i], "--axis"@) {
        text_step(
            flag_arg(args, i, "--axis"@),
            |v: Text| CategorizeView { axis: Some(v), ..acc },
        )
    } else if short_hit(args[i], "--limit"@, "-l"@) {
        read_step(
            short_arg(args, i, "--limit"@, "-l"@),
            |v: Text| count_value(v, "--limit"@),
            |x: usize| CategorizeView { limit: x, ..acc },
        )
    } else {
        Err("unknown categorize argument `"@ + args[i] + "`"@)
    }
}

/// The steps over the arguments of `categorize`.
pub open spec fn categorize_steps() -> Step<CategorizeView> {
    |args: Seq<Text>, i: int, acc: CategorizeView| categorize_step(args, i, acc)
}

/// Reads the arguments of `categorize`.
pub fn parse_categorize_args(args: Vec<String>) -> (r: Result<CategorizeArgs, SimpleError>)
    ensures
        outcome(r) == fold_args(texts(args@), 0, categorize_defaults(), categorize_steps()),
{
    let mut out = CategorizeArgs { axis: None, limit: 50 };
    let ghost all = texts(args@);
    let ghost start = out@;
    let mut i: usize = 0;
    while i < args.len()
        invariant
            0 <= i <= args@.len(),
            all == texts(args@),
            start == categorize_defaults(),
            fold_args(all, 0, start, categorize_steps()) == fold_args(
                all,
                i as int,
                out@,
                categorize_steps(),
            ),
        decreases args@.len() - i,
    {
        let arg = &args[i];
        proof {
            assert(all[i as int] == arg@);
        }
        match value_at(&args, &mut i, "--axis") {
            Err(e) => return Err(e),
            Ok(Some(v)) => {
                out.axis = Some(v);
                continue ;
            },
            Ok(None) => {},
        }
        match value_or_short_at(&args, &mut i, "--limit", "-l") {
            Err(e) => return Err(e),
            Ok(Some(v)) => {
                match parse_usize(v, "--limit") {
                    Ok(x) => out.limit = x,
                    Err(e) => return Err(e),
                }
                continue ;
            },
            Ok(None) => {},
        }
        return Err(error3("unknown categorize argument `", arg.as_str(), "`"));
    }
    Ok(out)
}

/// The arguments of `listen`.
#[derive(Debug)]
pub struct ListenArgs {
    /// Stop after this many stored messages.
    pub limit: Option<usize>,
}

/// The values of [`ListenArgs`].
pub struct ListenView {
    pub limit: Option<usize>,
}

impl View for ListenArgs {
    type V = ListenView;

    open spec fn view(&self) -> ListenView {
        ListenView {
            limit: self.limit,
        }
    }
}

/// The arguments of `listen` where none is given.
pub open spec fn listen_defaults() -> ListenView {
    ListenView { limit: None }
}

/// One step over the arguments of `listen`.
pub open spec fn listen_step(args: Seq<Text>, i: int, acc: ListenView) -> Result<(ListenView, int), Text> {
    if flag_hit(args[i], "--limit"@) {
        read_step(
            flag_arg(args, i, "--limit"@),
            |v: Text| count_value(v, "--limit"@),
            |x: usize| ListenView { limit: Some(x), ..acc },
        )
    } else {
        Err("unknown listen argument `"@ + args[i] + "`"@)
    }
}

/// The steps over the arguments of `listen`.
pub open spec fn listen_steps() -> Step<ListenView> {
    |args: Seq<Text>, i: int, acc: ListenView| listen_step(args, i, acc)
}

/// Reads the arguments of `listen`.
pub fn parse_listen_args(args: Vec<String>) -> (r: Result<ListenArgs, SimpleError>)
    ensures
        outcome(r) == fold_args(texts(args@), 0, listen_defaults(), listen_steps()),
{
    let mut out = ListenArgs { limit: None };
    let ghost all = texts(args@);
    let ghost start = out@;
    let mut i: usize = 0;
    while i < args.len()
        invariant
            0 <= i <= args@.len(),
            all == texts(args@),
            start == listen_defaults(),
            fold_args(all, 0, start, listen_steps()) == fold_args(
                all,
                i as int,
                out@,
                listen_steps(),
            ),
        decreases args@.len() - i,
    {
        let arg = &args[i];
        proof {
            assert(all[i as int] == arg@);
        }
        match value_at(&args, &mut i, "--limit") {
            Err(e) => return Err(e),
            Ok(Some(v)) => {
                match parse_usize(v, "--limit") {
                    Ok(x) => out.limit = Some(x),
                    Err(e) => return Err(e),
                }
                continue ;
            },
            Ok(None) => {},
        }
        return Err(error3("unknown listen argument `", arg.as_str(), "`"));
    }
    Ok(out)
}

/// The arguments of `export`.
#[derive(Debug)]
pub struct ExportArgs {
    /// Export this thread only.
    pub thread_id: Option<String>,
    /// The form of the export.
    pub format: ExportFormat,
    /// The file to write.
    pub output: Option<String>,
}

/// The values of [`ExportArgs`].
pub struct ExportView {
    pub thread_id: Option<Text>,
    pub format: ExportFormat,
    pub output: Option<Text>,
}

impl View for ExportArgs {
    type V = ExportView;

    open spec fn view(&self) -> ExportView {
        ExportView {
            thread_id: opt_text(self.thread_id),
            format: self.format,
            output: opt_text(self.output),
        }
    }
}

/// The arguments of `export` where none is given.
pub open spec fn export_defaults() -> ExportView {
    ExportView { thread_id: None, format: ExportFormat::Json, output: None }
}

/// One step over the arguments of `export`.
pub open spec fn export_step(args: Seq<Text>, i: int, acc: ExportView) -> Result<(ExportView, int), Text> {
    if flag_hit(args[i], "--thread-id"@) {
        text_step(
            flag_arg(args, i, "--thread-id"@),
            |v: Text| ExportView { thread_id: Some(v), ..acc },
        )
    } else if flag_hit(args[i], "--format"@) {
        read_step(
            flag_arg(args, i, "--format"@),
            |v: Text| format_named(v),
            |x: ExportFormat| ExportView { format: x, ..acc },
        )
    } else if short_hit(args[i], "--output"@, "-o"@) {
        text_step(
            short_arg(args, i, "--output"@, "-o"@),
            |v: Text| ExportView { output: Some(v), ..acc },
        )
    } else {
        Err("unknown export argument `"@ + args[i] + "`"@)
    }
}

/// The steps over the arguments of `export`.
pub open spec fn export_steps() -> Step<ExportView> {
    |args: Seq<Text>, i: int, acc: ExportView| export_step(args, i, acc)
}

/// Reads the arguments of `export`.
pub fn parse_export_args(args: Vec<String>) -> (r: Result<ExportArgs, SimpleError>)
    ensures
        outcome(r) == fold_args(texts(args@), 0, export_defaults(), export_steps()),
{
    let mut out = ExportArgs { thread_id: None, format: ExportFormat::Json, output: None };
    let ghost all = texts(args@);
    let ghost start = out@;
    let mut i: usize = 0;
    while i < args.len()
        invariant
            0 <= i <= args@.len(),
            all == texts(args@),
            start == export_defaults(),
            fold_args(all, 0, start, export_steps()) == fold_args(
                all,
                i as int,
                out@,
                export_steps(),
            ),
        decreases args@.len() - i,
    {
        let arg = &args[i];
        proof {
            assert(all[i as int] == arg@);
        }
        match value_at(&args, &mut i, "--thread-id") {
            Err(e) => return Err(e),
            Ok(Some(v)) => {
                out.thread_id = Some(v);
                continue ;
            },
            Ok(None) => {},
        }
        match value_at(&args, &mut i, "--format") {
            Err(e) => return Err(e),
            Ok(Some(v)) => {
                match ExportFormat::parse(v.as_str()) {
                    Ok(x) => out.format = x,
                    Err(e) => return Err(e),
                }
                continue ;
            },
            Ok(None) => {},
        }
        match value_or_short_at(&args, &mut i, "--output", "-o") {
            Err(e) => return Err(e),
            Ok(Some(v)) => {
                out.output = Some(v);
                continue ;
            },
            Ok(None) => {},
        }
        return Err(error3("unknown export argument `", arg.as_str(), "`"));
    }
    Ok(out)
}

/// The arguments of `messages`.
#[derive(Debug)]
pub struct MessagesArgs {
    /// The thread.
    pub thread_id: String,
    /// The most messages to show.
    pub limit: usize,
    /// Show the newest first.
    pub newest: bool,
}

/// The values of [`MessagesArgs`].
pub struct MessagesView {
    pub thread_id: Text,
    pub limit: usize,
    pub newest: bool,
}

impl View for MessagesArgs {
    type V = MessagesView;

    open spec fn view(&self) -> MessagesView {
        MessagesView {
            thread_id: self.thread_id@,
            limit: self.limit,
            newest: self.newest,
        }
    }
}

/// What is gathered from the arguments of `messages`.
pub struct MessagesScan {
    pub limit: usize,
    pub newest: bool,
    pub positional: Seq<Text>,
}

/// One step over the arguments of `messages`.
pub open spec fn messages_step(args: Seq<Text>, i: int, acc: MessagesScan) -> Result<(MessagesScan, int), Text> {
    if args[i] == "--newest"@ {
        Ok((MessagesScan { newest: true, ..acc }, i + 1))
    } else if short_hit(args[i], "--limit"@, "-l"@) {
        read_step(
            short_arg(args, i, "--limit"@, "-l"@),
            |v: Text| count_value(v, "--limit"@),
            |x: usize| MessagesScan { limit: x, ..acc },
        )
    } else if args[i].len() > 0 && args[i][0] == '-' {
        Err("unknown messages argument `"@ + args[i] + "`"@)
    } else {
        Ok((MessagesScan { positional: acc.positional.push(args[i]), ..acc }, i + 1))
    }
}

/// The steps over the arguments of `messages`.
pub open spec fn messages_steps() -> Step<MessagesScan> {
    |args: Seq<Text>, i: int, acc: MessagesScan| messages_step(args, i, acc)
}

/// What the arguments of `messages` come to: the first one that is no flag is the thread.
pub open spec fn messages_args(args: Seq<Text>) -> Result<MessagesView, Text> {
    let start = MessagesScan { limit: 50, newest: false, positional: Seq::empty() };
    match fold_args(args, 0, start, messages_steps()) {
        Err(e) => Err(e),
        Ok(scan) => if scan.positional.len() == 0 {
            Err("messages requires thread_id"@)
        } else {
            Ok(
                MessagesView {
                    thread_id: scan.positional[0],
                    limit: scan.limit,
                    newest: scan.newest,
                },
            )
        },
    }
}

/// Reads the arguments of `messages`.
pub fn parse_messages_args(args: Vec<String>) -> (r: Result<MessagesArgs, SimpleError>)
    ensures
        outcome(r) == messages_args(texts(args@)),
{
    let mut out = MessagesArgs { thread_id: String::new(), limit: 50, newest: false };
    let mut positional: Vec<String> = Vec::new();
    proof {
        assert(texts(positional@) =~= Seq::<Text>::empty());
    }
    let ghost all = texts(args@);
    let ghost start = (MessagesScan {
        limit: out.limit,
        newest: out.newest,
        positional: texts(positional@),
    });
    let mut i: usize = 0;
    while i < args.len()
        invariant
            0 <= i <= args@.len(),
            all == texts(args@),
            start == (MessagesScan { limit: 50, newest: false, positional: Seq::empty() }),
            fold_args(all, 0, start, messages_steps()) == fold_args(
                all,
                i as int,
                (MessagesScan {
                    limit: out.limit,
                    newest: out.newest,
                    positional: texts(positional@),
                }),
                messages_steps(),
            ),
        decreases args@.len() - i,
    {
        let arg = &args[i];
        proof {
            assert(all[i as int] == arg@);
        }
        if same(arg.as_str(), "--newest") {
            out.newest = true;
            i += 1;
            continue ;
        }
        match value_or_short_at(&args, &mut i, "--limit", "-l") {
            Err(e) => return Err(e),
            Ok(Some(v)) => {
                match parse_usize(v, "--limit") {
                    Ok(x) => out.limit = x,
                    Err(e) => return Err(e),
                }
                continue ;
            },
            Ok(None) => {},
        }
        if first_is(arg.as_str(), '-') {
            return Err(error3("unknown messages argument `", arg.as_str(), "`"));
        }
        proof {
            lemma_texts_push(positional@, *arg);
        }
        positional.push(arg.clone());
        i += 1;
    }
    proof {
        assert(texts(positional@).len() == positional@.len());
    }
    if positional.len() == 0 {
        return Err(simple_error("messages requires thread_id".to_owned()));
    }
    out.thread_id = positional[0].clone();
    Ok(out)
}

/// The arguments of `search`.
#[derive(Debug)]
pub struct SearchArgs {
    /// The words to look for.
    pub query: String,
    /// Look in this thread only.
    pub thread_id: Option<String>,
    /// The most messages to show.
    pub limit: usize,
}

/// The values of [`SearchArgs`].
pub struct SearchView {
    pub query: Text,
    pub thread_id: Option<Text>,
    pub limit: usize,
}

impl View for SearchArgs {
    type V = SearchView;

    open spec fn view(&self) -> SearchView {
        SearchView {
            query: self.query@,
            thread_id: opt_text(self.thread_id),
            limit: self.limit,
        }
    }
}

/// What is gathered from the arguments of `search`.
pub struct SearchScan {
    pub thread_id: Option<Text>,
    pub limit: usize,
    pub positional: Seq<Text>,
}

/// One step over the arguments of `search`.
pub open spec fn search_step(args: Seq<Text>, i: int, acc: SearchScan) -> Result<(SearchScan, int), Text> {
    if flag_hit(args[i], "--thread-id"@) {
        text_step(
            flag_arg(args, i, "--thread-id"@),
            |v: Text| SearchScan { thread_id: Some(v), ..acc },
        )
    } else if short_hit(args[i], "--limit"@, "-l"@) {
        read_step(
            short_arg(args, i, "--limit"@, "-l"@),
            |v: Text| count_value(v, "--limit"@),
            |x: usize| SearchScan { limit: x, ..acc },
        )
    } else if args[i].len() > 0 && args[i][0] == '-' {
        Err("unknown search argument `"@ + args[i] + "`"@)
    } else {
        Ok((SearchScan { positional: acc.positional.push(args[i]), ..acc }, i + 1))
    }
}

/// The steps over the arguments of `search`.
pub open spec fn search_steps() -> Step<SearchScan> {
    |args: Seq<Text>, i: int, acc: SearchScan| search_step(args, i, acc)
}

/// What the arguments of `search` come to: the first one that is no flag is the query.
pub open spec fn search_args(args: Seq<Text>) -> Result<SearchView, Text> {
    let start = SearchScan { thread_id: None, limit: 25, positional: Seq::empty() };
    match fold_args(args, 0, start, search_steps()) {
        Err(e) => Err(e),
        Ok(scan) => if scan.positional.len() == 0 {
            Err("search requires query"@)
        } else {
            Ok(
                SearchView {
                    query: scan.positional[0],
                    thread_id: scan.thread_id,
                    limit: scan.limit,
                },
            )
        },
    }
}

/// Reads the arguments of `search`.
pub fn parse_search_args(args: Vec<String>) -> (r: Result<SearchArgs, SimpleError>)
    ensures
        outcome(r) == search_args(texts(args@)),
{
    let mut out = SearchArgs { query: String::new(), thread_id: None, limit: 25 };
    let mut positional: Vec<String> = Vec::new();
    proof {
        assert(texts(positional@) =~= Seq::<Text>::empty());
    }
    let ghost all = texts(args@);
    let ghost start = (SearchScan {
        thread_id: opt_text(out.thread_id),
        limit: out.limit,
        positional: texts(positional@),
    });
    let mut i: usize = 0;
    while i < args.len()
        invariant
            0 <= i <= args@.len(),
            all == texts(args@),
            start == (SearchScan { thread_id: None, limit: 25, positional: Seq::empty() }),
            fold_args(all, 0, start, search_steps()) == fold_args(
                all,
                i as int,
                (SearchScan {
                    thread_id: opt_text(out.thread_id),
                    limit: out.limit,
                    positional: texts(positional@),
                }),
                search_steps(),
            ),
        decreases args@.len() - i,
    {
        let arg = &args[i];
        proof {
            assert(all[i as int] == arg@);
        }
        match value_at(&args, &mut i, "--thread-id") {
            Err(e) => return Err(e),
            Ok(Some(v)) => {
                out.thread_id = Some(v);
                continue ;
            },
            Ok(None) => {},
        }
        match value_or_short_at(&args, &mut i, "--limit", "-l") {
            Err(e) => return Err(e),
            Ok(Some(v)) => {
                match parse_usize(v, "--limit") {
                    Ok(x) => out.limit = x,
                    Err(e) => return Err(e),
                }
                continue ;
            },
            Ok(None) => {},
        }
        if first_is(arg.as_str(), '-') {
            return Err(error3("unknown search argument `", arg.as_str(), "`"));
        }
        proof {
            lemma_texts_push(positional@, *arg);
        }
        positional.push(arg.clone());
        i += 1;
    }
    proof {
        assert(texts(positional@).len() == positional@.len());
    }
    if positional.len() == 0 {
        return Err(simple_error("search requires query".to_owned()));
    }
    out.query = positional[0].clone();
    Ok(out)
}

/// The arguments of `send`.
#[derive(Debug)]
pub struct SendArgs {
    /// The thread.
    pub thread_id: String,
    /// The message.
    pub body: String,
    /// The message that is answered.
    pub reply_to: Option<String>,
}

/// The values of [`SendArgs`].
pub struct SendView {
    pub thread_id: Text,
    pub body: Text,
    pub reply_to: Option<Text>,
}

impl View for SendArgs {
    type V = SendView;

    open spec fn view(&self) -> SendView {
        SendView {
            thread_id: self.thread_id@,
            body: self.body@,
            reply_to: opt_text(self.reply_to),
        }
    }
}

/// What is gathered from the arguments of `send`.
pub struct SendScan {
    pub reply_to: Option<Text>,
    pub positional: Seq<Text>,
}

/// One step over the arguments of `send`.
pub open spec fn send_step(args: Seq<Text>, i: int, acc: SendScan) -> Result<(SendScan, int), Text> {
    if flag_hit(args[i], "--reply-to"@) {
        text_step(
            flag_arg(args, i, "--reply-to"@),
            |v: Text| SendScan { reply_to: Some(v), ..acc },
        )
    } else if args[i].len() > 0 && args[i][0] == '-' {
        Err("unknown send argument `"@ + args[i] + "`"@)
    } else {
        Ok((SendScan { positional: acc.positional.push(args[i]), ..acc }, i + 1))
    }
}

/// The steps over the arguments of `send`.
pub open spec fn send_steps() -> Step<SendScan> {
    |args: Seq<Text>, i: int, acc: SendScan| send_step(args, i, acc)
}

/// What the arguments of `send` come to: the first two that are no flags are thread and message.
pub open spec fn send_args(args: Seq<Text>) -> Result<SendView, Text> {
    let start = SendScan { reply_to: None, positional: Seq::empty() };
    match fold_args(args, 0, start, send_steps()) {
        Err(e) => Err(e),
        Ok(scan) => if scan.positional.len() == 0 {
            Err("send requires thread_id"@)
        } else if scan.positional.len() == 1 {
            Err("send requires body"@)
        } else {
            Ok(
                SendView {
                    thread_id: scan.positional[0],
                    body: scan.positional[1],
                    reply_to: scan.reply_to,
                },
            )
        },
    }
}

/// Reads the arguments of `send`.
pub fn parse_send_args(args: Vec<String>) -> (r: Result<SendArgs, SimpleError>)
    ensures
        outcome(r) == send_args(texts(args@)),
{
    let mut out = SendArgs { thread_id: String::new(), body: String::new(), reply_to: None };
    let mut positional: Vec<String> = Vec::new();
    proof {
        assert(texts(positional@) =~= Seq::<Text>::empty());
    }
    let ghost all = texts(args@);
    let ghost start = (SendScan {
        reply_to: opt_text(out.reply_to),
        positional: texts(positional@),
    });
    let mut i: usize = 0;
    while i < args.len()
        invariant
            0 <= i <= args@.len(),
            all == texts(args@),
            start == (SendScan { reply_to: None, positional: Seq::empty() }),
            fold_args(all, 0, start, send_steps()) == fold_args(
                all,
                i as int,
                (SendScan { reply_to: opt_text(out.reply_to), positional: texts(positional@) }),
                send_steps(),
            ),
        decreases args@.len() - i,
    {
        let arg = &args[i];
        proof {
            assert(all[i as int] == arg@);
        }
        match value_at(&args, &mut i, "--reply-to") {
            Err(e) => return Err(e),
            Ok(Some(v)) => {
                out.reply_to = Some(v);
                continue ;
            },
            Ok(None) => {},
        }
        if first_is(arg.as_str(), '-') {
            return Err(error3("unknown send argument `", arg.as_str(), "`"));
        }
        proof {
            lemma_texts_push(positional@, *arg);
        }
        positional.push(arg.clone());
        i += 1;
    }
    proof {
        assert(texts(positional@).len() == positional@.len());
    }
    if positional.len() == 0 {
        return Err(simple_error("send requires thread_id".to_owned()));
    }
    if positional.len() == 1 {
        return Err(simple_error("send requires body".to_owned()));
    }
    out.thread_id = positional[0].clone();
    out.body = positional[1].clone();
    Ok(out)
}

/// What is to be done.
#[derive(Debug)]
pub enum Commands {
    /// Write the configuration and prepare the database.
    Init(InitArgs),
    /// Show the configuration, without secrets, and what is stored.
    Status,
    /// Fetch threads and messages into the database.
    Sync(SyncArgs),
    /// List stored threads.
    Threads(ThreadsArgs),
    /// Show the stored messages of a thread.
    Messages(MessagesArgs),
    /// Search stored messages.
    Search(SearchArgs),
    /// Derive the categories anew.
    Categorize(CategorizeArgs),
    /// Send a message, and store it.
    Send(SendArgs),
    /// Store messages as they come in.
    Listen(ListenArgs),
    /// Export threads.
    Export(ExportArgs),
    /// Show the account that is logged in.
    Me,
}

/// The values of [`Commands`].
pub enum CommandsView {
    Init(InitView),
    Status,
    Sync(SyncView),
    Threads(ThreadsView),
    Messages(MessagesView),
    Search(SearchView),
    Categorize(CategorizeView),
    Send(SendView),
    Listen(ListenView),
    Export(ExportView),
    Me,
}

impl View for Commands {
    type V = CommandsView;

    open spec fn view(&self) -> CommandsView {
        match self {
            Commands::Init(a) => CommandsView::Init(a@),
            Commands::Status => CommandsView::Status,
            Commands::Sync(a) => CommandsView::Sync(a@),
            Commands::Threads(a) => CommandsView::Threads(a@),
            Commands::Messages(a) => CommandsView::Messages(a@),
            Commands::Search(a) => CommandsView::Search(a@),
            Commands::Categorize(a) => CommandsView::Categorize(a@),
            Commands::Send(a) => CommandsView::Send(a@),
            Commands::Listen(a) => CommandsView::Listen(a@),
            Commands::Export(a) => CommandsView::Export(a@),
            Commands::Me => CommandsView::Me,
        }
    }
}

/// What the program was called for.
#[derive(Debug)]
pub struct Cli {
    /// The configuration file, where one is named.
    pub config: Option<String>,
    /// Write JSON.
    pub json: bool,
    pub command: Commands,
}

/// The values of [`Cli`].
pub struct CliView {
    pub config: Option<Text>,
    pub json: bool,
    pub command: CommandsView,
}

impl View for Cli {
    type V = CliView;

    open spec fn view(&self) -> CliView {
        CliView { config: opt_text(self.config), json: self.json, command: self.command@ }
    }
}

/// What a call of the program comes to.
#[derive(Debug)]
pub enum Invocation {
    /// Show the help.
    Help,
    /// Show the version.
    Version,
    /// Show the help, and fail because there is no command.
    MissingCommand,
    /// Carry out a command.
    Run(Cli),
}

/// The values of [`Invocation`].
pub enum InvocationView {
    Help,
    Version,
    MissingCommand,
    Run(CliView),
}

impl View for Invocation {
    type V = InvocationView;

    open spec fn view(&self) -> InvocationView {
        match self {
            Invocation::Help => InvocationView::Help,
            Invocation::Version => InvocationView::Version,
            Invocation::MissingCommand => InvocationView::MissingCommand,
            Invocation::Run(cli) => InvocationView::Run(cli@),
        }
    }
}

/// The settings that may stand anywhere among the arguments.
pub struct Globals {
    pub config: Option<Text>,
    pub json: bool,
}

/// Takes the settings out of the arguments from place `i` on: the settings, the last of two that
/// contradict each other, and the arguments that are left.
pub open spec fn take_globals(args: Seq<Text>, i: int, acc: Globals) -> Result<
    (Globals, Seq<Text>),
    Text,
>
    decreases vstd::math::max(args.len() - i, 0),
{
    if i < 0 || i >= args.len() {
        Ok((acc, args))
    } else if args[i] == "--json"@ {
        take_globals(args.remove(i), i, Globals { json: true, ..acc })
    } else if args[i] == "--config"@ {
        if i + 1 >= args.len() {
            Err("--config"@ + " requires a value"@)
        } else {
            take_globals(
                args.remove(i + 1).remove(i),
                i,
                Globals { config: Some(args[i + 1]), ..acc },
            )
        }
    } else if starts_with(args[i], "--config="@) {
        take_globals(
            args.remove(i),
            i,
            Globals { config: Some(strip_repeated(args[i], "--config="@)), ..acc },
        )
    } else {
        take_globals(args, i + 1, acc)
    }
}

/// The command of a name with the arguments behind it.
pub open spec fn command_of(name: Text, args: Seq<Text>, env: CliEnvView) -> Result<
    CommandsView,
    Text,
> {
    if name == "init"@ {
        match fold_args(args, 0, init_defaults(env), init_steps()) {
            Ok(a) => Ok(CommandsView::Init(a)),
            Err(e) => Err(e),
        }
    } else if name == "status"@ {
        Ok(CommandsView::Status)
    } else if name == "sync"@ {
        match fold_args(args, 0, sync_defaults(), sync_steps()) {
            Ok(a) => Ok(CommandsView::Sync(a)),
            Err(e) => Err(e),
        }
    } else if name == "threads"@ {
        match fold_args(args, 0, threads_defaults(), threads_steps()) {
            Ok(a) => Ok(CommandsView::Threads(a)),
            Err(e) => Err(e),
        }
    } else if name == "messages"@ {
        match messages_args(args) {
            Ok(a) => Ok(CommandsView::Messages(a)),
            Err(e) => Err(e),
        }
    } else if name == "search"@ {
        match search_args(args) {
            Ok(a) => Ok(CommandsView::Search(a)),
            Err(e) => Err(e),
        }
    } else if name == "categorize"@ {
        match fold_args(args, 0, categorize_defaults(), categorize_steps()) {
            Ok(a) => Ok(CommandsView::Categorize(a)),
            Err(e) => Err(e),
        }
    } else if name == "send"@ {
        match send_args(args) {
            Ok(a) => Ok(CommandsView::Send(a)),
            Err(e) => Err(e),
        }
    } else if name == "listen"@ {
        match fold_args(args, 0, listen_defaults(), listen_steps()) {
            Ok(a) => Ok(CommandsView::Listen(a)),
            Err(e) => Err(e),
        }
    } else if name == "export"@ {
        match fold_args(args, 0, export_defaults(), export_steps()) {
            Ok(a) => Ok(CommandsView::Export(a)),
            Err(e) => Err(e),
        }
    } else if name == "me"@ {
        Ok(CommandsView::Me)
    } else {
        Err("unknown command `"@ + name + "`"@)
    }
}

/// What the arguments of the program come to. Help and version go before everything else; the
/// settings may stand anywhere; the first argument that is left names the command.
pub open spec fn invocation(args: Seq<Text>, env: CliEnvView) -> Result<InvocationView, Text> {
    if args.contains("--help"@) || args.contains("-h"@) {
        Ok(InvocationView::Help)
    } else if args.contains("--version"@) || args.contains("-V"@) {
        Ok(InvocationView::Version)
    } else {
        match take_globals(args, 0, Globals { config: env.config, json: false }) {
            Err(e) => Err(e),
            Ok((globals, rest)) => if rest.len() == 0 {
                Ok(InvocationView::MissingCommand)
            } else {
                match command_of(rest[0], rest.remove(0), env) {
                    Err(e) => Err(e),
                    Ok(command) => Ok(
                        InvocationView::Run(
                            CliView { config: globals.config, json: globals.json, command },
                        ),
                    ),
                }
            },
        }
    }
}

/// The arguments ask for help or for the version.
pub open spec fn asks_for_help(args: Seq<Text>) -> bool {
    ||| args.contains("--help"@)
    ||| args.contains("-h"@)
    ||| args.contains("--version"@)
    ||| args.contains("-V"@)
}

proof fn lemma_front_contains(front: Seq<Text>, args: Seq<Text>, x: Text)
    ensures
        (front + args).contains(x) <==> front.contains(x) || args.contains(x),
{
    let all = front + args;
    if all.contains(x) {
        let k = choose|k: int| 0 <= k < all.len() && all[k] == x;
        if k < front.len() {
            assert(front[k] == x);
        } else {
            assert(args[k - front.len()] == x);
        }
    }
    if front.contains(x) {
        let k = choose|k: int| 0 <= k < front.len() && front[k] == x;
        assert(all[k] == x);
    }
    if args.contains(x) {
        let k = choose|k: int| 0 <= k < args.len() && args[k] == x;
        assert(all[k + front.len()] == x);
    }
}

/// A configuration file that is named by `--config` takes the place of the one that the
/// environment names.
pub proof fn law_config_flag_goes_before_environment(
    args: Seq<Text>,
    path: Text,
    env: CliEnvView,
)
    requires
        !asks_for_help(args),
        !asks_for_help(seq![path]),
    ensures
        invocation(seq!["--config"@, path] + args, env) == invocation(
            args,
            CliEnvView { config: Some(path), ..env },
        ),
{
    let front = seq!["--config"@, path];
    let all = front + args;
    let env2 = CliEnvView { config: Some(path), ..env };
    reveal_strlit("--config");
    reveal_strlit("--json");
    reveal_strlit("--help");
    reveal_strlit("-h");
    reveal_strlit("--version");
    reveal_strlit("-V");
    assert("--config"@[2] == 'c' && "--version"@[2] == 'v');
    assert forall|x: Text| front.contains(x) implies x == "--config"@ || x == path by {}
    assert(seq![path].contains(path)) by {
        assert(seq![path][0] == path);
    }
    lemma_front_contains(front, args, "--help"@);
    lemma_front_contains(front, args, "-h"@);
    lemma_front_contains(front, args, "--version"@);
    lemma_front_contains(front, args, "-V"@);
    assert(!asks_for_help(all));
    assert(all.remove(1).remove(0) =~= args);
    assert(all[0] == "--config"@ && all[1] == path);
    let start = Globals { config: env.config, json: false };
    assert(take_globals(all, 0, start) == take_globals(
        args,
        0,
        Globals { config: Some(path), json: false },
    ));
    lemma_commands_ignore_config(env, env2);
}

/// The commands do not look at which configuration file the environment names.
proof fn lemma_commands_ignore_config(a: CliEnvView, b: CliEnvView)
    requires
        b == (CliEnvView { config: b.config, ..a }),
    ensures
        forall|name: Text, args: Seq<Text>|
            #[trigger] command_of(name, args, a) == command_of(name, args, b),
{
    assert(init_defaults(a) == init_defaults(b));
}

proof fn lemma_json_is_kept(args: Seq<Text>, i: int, acc: Globals)
    requires
        i >= 0,
    ensures
        take_globals(args, i, Globals { json: true, ..acc }) == (match take_globals(args, i, acc) {
            Ok((g, rest)) => Ok::<(Globals, Seq<Text>), Text>((Globals { json: true, ..g }, rest)),
            Err(e) => Err(e),
        }),
    decreases args.len() - i,
{
    if i < args.len() {
        if args[i] == "--json"@ {
            lemma_json_is_kept(args.remove(i), i, Globals { json: true, ..acc });
        } else if args[i] == "--config"@ {
            if i + 1 < args.len() {
                lemma_json_is_kept(
                    args.remove(i + 1).remove(i),
                    i,
                    Globals { config: Some(args[i + 1]), ..acc },
                );
            }
        } else if starts_with(args[i], "--config="@) {
            lemma_json_is_kept(
                args.remove(i),
                i,
                Globals { config: Some(strip_repeated(args[i], "--config="@)), ..acc },
            );
        } else {
            lemma_json_is_kept(args, i + 1, acc);
        }
    }
}

/// `--json` in front changes the form of the output, and nothing else.
pub proof fn law_json_flag_changes_only_the_output(args: Seq<Text>, env: CliEnvView)
    requires
        !asks_for_help(args),
    ensures
        invocation(seq!["--json"@] + args, env) == (match invocation(args, env) {
            Ok(InvocationView::Run(cli)) => Ok::<InvocationView, Text>(
                InvocationView::Run(CliView { json: true, ..cli }),
            ),
            other => other,
        }),
{
    let front = seq!["--json"@];
    let all = front + args;
    reveal_strlit("--json");
    reveal_strlit("--help");
    reveal_strlit("-h");
    reveal_strlit("--version");
    reveal_strlit("-V");
    assert("--json"@[2] == 'j' && "--help"@[2] == 'h');
    assert forall|x: Text| front.contains(x) implies x == "--json"@ by {}
    lemma_front_contains(front, args, "--help"@);
    lemma_front_contains(front, args, "-h"@);
    lemma_front_contains(front, args, "--version"@);
    lemma_front_contains(front, args, "-V"@);
    assert(!asks_for_help(all));
    assert(all.remove(0) =~= args);
    assert(all[0] == "--json"@);
    let start = Globals { config: env.config, json: false };
    assert(take_globals(all, 0, start) == take_globals(args, 0, Globals { json: true, ..start }));
    lemma_json_is_kept(args, 0, start);
}

/// Taking a string out of a list takes its value out of the values.
proof fn lemma_texts_remove(v: Seq<String>, i: int)
    requires
        0 <= i < v.len(),
    ensures
        texts(v.remove(i)) == texts(v).remove(i),
{
    assert(texts(v.remove(i)) =~= texts(v).remove(i));
}

/// Reads the command of a name with the arguments behind it.
fn parse_command(name: &str, args: Vec<String>, env: &CliEnv) -> (r: Result<Commands, SimpleError>)
    ensures
        outcome(r) == command_of(name@, texts(args@), env@),
{
    if same(name, "init") {
        match parse_init_args(args, env) {
            Ok(a) => Ok(Commands::Init(a)),
            Err(e) => Err(e),
        }
    } else if same(name, "status") {
        Ok(Commands::Status)
    } else if same(name, "sync") {
        match parse_sync_args(args) {
            Ok(a) => Ok(Commands::Sync(a)),
            Err(e) => Err(e),
        }
    } else if same(name, "threads") {
        match parse_threads_args(args) {
            Ok(a) => Ok(Commands::Threads(a)),
            Err(e) => Err(e),
        }
    } else if same(name, "messages") {
        match parse_messages_args(args) {
            Ok(a) => Ok(Commands::Messages(a)),
            Err(e) => Err(e),
        }
    } else if same(name, "search") {
        match parse_search_args(args) {
            Ok(a) => Ok(Commands::Search(a)),
            Err(e) => Err(e),
        }
    } else if same(name, "categorize") {
        match parse_categorize_args(args) {
            Ok(a) => Ok(Commands::Categorize(a)),
            Err(e) => Err(e),
        }
    } else if same(name, "send") {
        match parse_send_args(args) {
            Ok(a) => Ok(Commands::Send(a)),
            Err(e) => Err(e),
        }
    } else if same(name, "listen") {
        match parse_listen_args(args) {
            Ok(a) => Ok(Commands::Listen(a)),
            Err(e) => Err(e),
        }
    } else if same(name, "export") {
        match parse_export_args(args) {
            Ok(a) => Ok(Commands::Export(a)),
            Err(e) => Err(e),
        }
    } else if same(name, "me") {
        Ok(Commands::Me)
    } else {
        Err(error3("unknown command `", name, "`"))
    }
}

impl Cli {
    /// Reads the arguments of the program.
    pub fn parse(args: Vec<String>, env: &CliEnv) -> (r: Result<Invocation, SimpleError>)
        ensures
            outcome(r) == invocation(texts(args@), env@),
    {
        if list_has(&args, "--help") || list_has(&args, "-h") {
            return Ok(Invocation::Help);
        }
        if list_has(&args, "--version") || list_has(&args, "-V") {
            return Ok(Invocation::Version);
        }
        let mut rest = args;
        let mut config = copy_opt(&env.config);
        let mut json = false;
        let mut i: usize = 0;
        let ghost whole = take_globals(
            texts(args@),
            0,
            Globals { config: env@.config, json: false },
        );
        while i < rest.len()
            invariant
                0 <= i <= rest@.len(),
                whole == take_globals(
                    texts(args@),
                    0,
                    Globals { config: env@.config, json: false },
                ),
                !(texts(args@).contains("--help"@) || texts(args@).contains("-h"@)),
                !(texts(args@).contains("--version"@) || texts(args@).contains("-V"@)),
                whole == take_globals(
                    texts(rest@),
                    i as int,
                    Globals { config: opt_text(config), json },
                ),
            decreases rest@.len() - i,
        {
            proof {
                assert(texts(rest@)[i as int] == rest@[i as int]@);
                lemma_texts_remove(rest@, i as int);
                if i + 1 < rest@.len() {
                    assert(texts(rest@)[i + 1] == rest@[i + 1]@);
                    lemma_texts_remove(rest@, i + 1);
                    lemma_texts_remove(rest@.remove(i + 1), i as int);
                }
            }
            if same(rest[i].as_str(), "--json") {
                json = true;
                rest.remove(i);
            } else if same(rest[i].as_str(), "--config") {
                match take_value(&mut rest, i, "--config") {
                    Ok(value) => config = Some(value),
                    Err(e) => return Err(e),
                }
            } else if has_prefix(rest[i].as_str(), "--config=") {
                let flag = rest.remove(i);
                config = Some(without_prefixes(flag.as_str(), "--config="));
            } else {
                i += 1;
            }
        }
        if rest.len() == 0 {
            return Ok(Invocation::MissingCommand);
        }
        proof {
            assert(texts(rest@)[0] == rest@[0]@);
            lemma_texts_remove(rest@, 0);
        }
        let name = rest.remove(0);
        match parse_command(name.as_str(), rest, env) {
            Ok(command) => Ok(Invocation::Run(Cli { config, json, command })),
            Err(e) => Err(e),
        }
    }
}

/// The help, which names the commands.
pub open spec fn help(version: Text) -> Text {
    "fbm "@ + version
        + "\n\nUsage: fbm [--config PATH] [--json] <command> [options]\n\nCommands: init, status, sync, threads, messages, search, categorize, send, listen, export, me"@
}

/// The help, which names the commands.
pub fn help_text(version: &str) -> (r: String)
    ensures
        r@ == help(version@),
{
    joined3(
        "fbm ",
        version,
        "\n\nUsage: fbm [--config PATH] [--json] <command> [options]\n\nCommands: init, status, sync, threads, messages, search, categorize, send, listen, export, me",
    )
}

} // verus!
