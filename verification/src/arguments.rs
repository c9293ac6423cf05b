//! What the arguments of the commands mean: each flag sets its own setting and no other.
use vstd::prelude::*;

use crate::browser::{browser_named, BrowserKind};
use crate::cli::{
    categorize_step, command_of, export_defaults, export_step, export_steps, format_named,
    init_defaults, init_step, init_steps, listen_defaults, listen_step, listen_steps, messages_args,
    messages_step, messages_steps, search_args, search_step, search_steps, send_args, send_step,
    send_steps, sync_defaults, sync_step, sync_steps, threads_defaults, threads_step, threads_steps,
    categorize_defaults, categorize_steps, CategorizeView, CliEnvView, CommandsView, ExportFormat,
    ExportView, InitView, ListenView, MessagesScan, MessagesView, SearchScan, SearchView, SendScan,
    SendView, SyncView, ThreadsView,
};
use crate::flags::{flag_arg, flag_hit, fold_args, Step};
use crate::number::{int_value, IntError};
use crate::parts::split;
use crate::text::{small_char, small_letters, starts_with, Text};

verus! {

/// A flag is given the value that follows it.
proof fn lemma_own_flag(args: Seq<Text>, i: int, flag: Text)
    requires
        0 <= i < args.len() - 1,
        args[i] == flag,
    ensures
        flag_hit(args[i], flag),
        flag_arg(args, i, flag) == Ok::<(Text, int), Text>((args[i + 1], i + 2)),
{
    reveal_strlit("=");
    assert(!starts_with(flag, flag + "="@));
}

/// An argument that differs from a flag at some place does not stand for it.
proof fn lemma_other_flag(arg: Text, flag: Text, k: int)
    requires
        0 <= k < arg.len(),
        k <= flag.len(),
        arg[k] != (if k < flag.len() {
            flag[k]
        } else {
            '='
        }),
    ensures
        !flag_hit(arg, flag),
{
    reveal_strlit("=");
    let whole = flag + "="@;
    if starts_with(arg, whole) {
        assert(arg.subrange(0, whole.len() as int)[k] == whole[k]);
    }
}

/// An argument that does not begin like a flag stands for none.
proof fn lemma_no_flag(arg: Text, flag: Text)
    requires
        flag.len() > 0,
        arg.len() == 0 || arg[0] != flag[0],
    ensures
        !flag_hit(arg, flag),
{
    reveal_strlit("=");
    if arg.len() > 0 {
        lemma_other_flag(arg, flag, 0);
    }
}

/// Where one step reads all arguments, what it gathers is what they come to.
proof fn lemma_one_step<A>(args: Seq<Text>, acc: A, step: Step<A>, next: A)
    requires
        args.len() > 0,
        step(args, 0, acc) == Ok::<(A, int), Text>((next, args.len() as int)),
    ensures
        fold_args(args, 0, acc, step) == Ok::<A, Text>(next),
{
    reveal_with_fuel(fold_args, 2);
}

/// Arguments are read one after the other: where one ends, the next begins, with what was gathered
/// before it.
pub proof fn law_arguments_are_read_in_order<A>(
    args: Seq<Text>,
    i: int,
    acc: A,
    step: Step<A>,
    next: A,
    j: int,
)
    requires
        0 <= i < args.len(),
        step(args, i, acc) == Ok::<(A, int), Text>((next, j)),
        j > i,
    ensures
        fold_args(args, i, acc, step) == fold_args(args, j, next, step),
        fold_args(args, args.len() as int, acc, step) == Ok::<A, Text>(acc),
{
}

/// Each flag of `init` sets its own setting to the value behind it, and leaves the others as they
/// are.
pub proof fn law_init_flags_set_their_settings(
    args: Seq<Text>,
    i: int,
    acc: InitView,
    kind: BrowserKind,
)
    requires
        0 <= i < args.len() - 1,
    ensures
        args[i] == "--from-browser"@ ==> init_step(args, i, acc) == Ok::<(InitView, int), Text>(
            (InitView { from_browser: true, ..acc }, i + 1),
        ),
        args[i] == "--force"@ ==> init_step(args, i, acc) == Ok::<(InitView, int), Text>(
            (InitView { force: true, ..acc }, i + 1),
        ),
        args[i] == "--fca-dir"@ ==> init_step(args, i, acc) == Ok::<(InitView, int), Text>(
            (InitView { fca_dir: Some(args[i + 1]), ..acc }, i + 2),
        ),
        args[i] == "--appstate"@ ==> init_step(args, i, acc) == Ok::<(InitView, int), Text>(
            (InitView { appstate: Some(args[i + 1]), ..acc }, i + 2),
        ),
        args[i] == "--browser"@ && browser_named(args[i + 1]) == Ok::<BrowserKind, Text>(kind) ==> init_step(args, i, acc) == Ok::<(InitView, int), Text>(
            (InitView { browser: kind, ..acc }, i + 2),
        ),
        args[i] == "--browser-profile"@ ==> init_step(args, i, acc) == Ok::<(InitView, int), Text>(
            (InitView { browser_profile: Some(args[i + 1]), ..acc }, i + 2),
        ),
        args[i] == "--browser-appstate-cache"@ ==> init_step(args, i, acc) == Ok::<(InitView, int), Text>(
            (InitView { browser_appstate_cache: Some(args[i + 1]), ..acc }, i + 2),
        ),
        args[i] == "--db"@ ==> init_step(args, i, acc) == Ok::<(InitView, int), Text>(
            (InitView { db: Some(args[i + 1]), ..acc }, i + 2),
        ),
        args[i] == "--turso-url"@ ==> init_step(args, i, acc) == Ok::<(InitView, int), Text>(
            (InitView { turso_url: Some(args[i + 1]), ..acc }, i + 2),
        ),
        args[i] == "--turso-auth-token"@ ==> init_step(args, i, acc) == Ok::<(InitView, int), Text>(
            (InitView { turso_auth_token: Some(args[i + 1]), ..acc }, i + 2),
        ),
{
    reveal_strlit("--from-browser");
    reveal_strlit("--force");
    reveal_strlit("--fca-dir");
    reveal_strlit("--appstate");
    reveal_strlit("--browser");
    reveal_strlit("--browser-profile");
    reveal_strlit("--browser-appstate-cache");
    reveal_strlit("--db");
    reveal_strlit("--turso-url");
    reveal_strlit("--turso-auth-token");
    if args[i] == "--from-browser"@ {
    }
    if args[i] == "--force"@ {
        assert("--from-browser"@.len() != "--force"@.len());
    }
    if args[i] == "--fca-dir"@ {
        assert("--from-browser"@.len() != "--fca-dir"@.len());
        assert("--force"@.len() != "--fca-dir"@.len());
        lemma_own_flag(args, i, "--fca-dir"@);
    }
    if args[i] == "--appstate"@ {
        assert("--from-browser"@.len() != "--appstate"@.len());
        assert("--force"@.len() != "--appstate"@.len());
        lemma_other_flag("--appstate"@, "--fca-dir"@, 2);
        lemma_own_flag(args, i, "--appstate"@);
    }
    if args[i] == "--browser"@ {
        assert("--from-browser"@.len() != "--browser"@.len());
        assert("--force"@.len() != "--browser"@.len());
        lemma_other_flag("--browser"@, "--fca-dir"@, 2);
        lemma_other_flag("--browser"@, "--appstate"@, 2);
        lemma_own_flag(args, i, "--browser"@);
    }
    if args[i] == "--browser-profile"@ {
        assert("--from-browser"@.len() != "--browser-profile"@.len());
        assert("--force"@.len() != "--browser-profile"@.len());
        lemma_other_flag("--browser-profile"@, "--fca-dir"@, 2);
        lemma_other_flag("--browser-profile"@, "--appstate"@, 2);
        lemma_other_flag("--browser-profile"@, "--browser"@, 9);
        lemma_own_flag(args, i, "--browser-profile"@);
    }
    if args[i] == "--browser-appstate-cache"@ {
        assert("--from-browser"@.len() != "--browser-appstate-cache"@.len());
        assert("--force"@.len() != "--browser-appstate-cache"@.len());
        lemma_other_flag("--browser-appstate-cache"@, "--fca-dir"@, 2);
        lemma_other_flag("--browser-appstate-cache"@, "--appstate"@, 2);
        lemma_other_flag("--browser-appstate-cache"@, "--browser"@, 9);
        lemma_other_flag("--browser-appstate-cache"@, "--browser-profile"@, 10);
        lemma_own_flag(args, i, "--browser-appstate-cache"@);
    }
    if args[i] == "--db"@ {
        assert("--from-browser"@.len() != "--db"@.len());
        assert("--force"@.len() != "--db"@.len());
        lemma_other_flag("--db"@, "--fca-dir"@, 2);
        lemma_other_flag("--db"@, "--appstate"@, 2);
        lemma_other_flag("--db"@, "--browser"@, 2);
        lemma_other_flag("--db"@, "--browser-profile"@, 2);
        lemma_other_flag("--db"@, "--browser-appstate-cache"@, 2);
        lemma_own_flag(args, i, "--db"@);
    }
    if args[i] == "--turso-url"@ {
        assert("--from-browser"@.len() != "--turso-url"@.len());
        assert("--force"@.len() != "--turso-url"@.len());
        lemma_other_flag("--turso-url"@, "--fca-dir"@, 2);
        lemma_other_flag("--turso-url"@, "--appstate"@, 2);
        lemma_other_flag("--turso-url"@, "--browser"@, 2);
        lemma_other_flag("--turso-url"@, "--browser-profile"@, 2);
        lemma_other_flag("--turso-url"@, "--browser-appstate-cache"@, 2);
        lemma_other_flag("--turso-url"@, "--db"@, 2);
        lemma_own_flag(args, i, "--turso-url"@);
    }
    if args[i] == "--turso-auth-token"@ {
        assert("--from-browser"@.len() != "--turso-auth-token"@.len());
        assert("--force"@.len() != "--turso-auth-token"@.len());
        lemma_other_flag("--turso-auth-token"@, "--fca-dir"@, 2);
        lemma_other_flag("--turso-auth-token"@, "--appstate"@, 2);
        lemma_other_flag("--turso-auth-token"@, "--browser"@, 2);
        lemma_other_flag("--turso-auth-token"@, "--browser-profile"@, 2);
        lemma_other_flag("--turso-auth-token"@, "--browser-appstate-cache"@, 2);
        lemma_other_flag("--turso-auth-token"@, "--db"@, 2);
        lemma_other_flag("--turso-auth-token"@, "--turso-url"@, 8);
        lemma_own_flag(args, i, "--turso-auth-token"@);
    }
}

/// Each flag of `sync` sets its own setting to the value behind it, and leaves the others as they
/// are.
pub proof fn law_sync_flags_set_their_settings(
    args: Seq<Text>,
    i: int,
    acc: SyncView,
    n: usize,
)
    requires
        0 <= i < args.len() - 1,
    ensures
        args[i] == "--all"@ ==> sync_step(args, i, acc) == Ok::<(SyncView, int), Text>(
            (SyncView { all: true, ..acc }, i + 1),
        ),
        args[i] == "--full"@ ==> sync_step(args, i, acc) == Ok::<(SyncView, int), Text>(
            (SyncView { full: true, ..acc }, i + 1),
        ),
        args[i] == "--threads"@ && int_value(args[i + 1], false, 0, usize::MAX as int) == Ok::<
            int,
            IntError,
        >(n as int) ==> sync_step(args, i, acc) == Ok::<(SyncView, int), Text>(
            (SyncView { threads: n, ..acc }, i + 2),
        ),
        args[i] == "--messages"@ && int_value(args[i + 1], false, 0, usize::MAX as int) == Ok::<
            int,
            IntError,
        >(n as int) ==> sync_step(args, i, acc) == Ok::<(SyncView, int), Text>(
            (SyncView { messages: n, ..acc }, i + 2),
        ),
        args[i] == "--tags"@ ==> sync_step(args, i, acc) == Ok::<(SyncView, int), Text>(
            (SyncView { tags: split(args[i + 1], ','), ..acc }, i + 2),
        ),
        args[i] == "--thread-id"@ ==> sync_step(args, i, acc) == Ok::<(SyncView, int), Text>(
            (SyncView { thread_id: Some(args[i + 1]), ..acc }, i + 2),
        ),
        args[i] == "--max-thread-pages"@ && int_value(args[i + 1], false, 0, usize::MAX as int) == Ok::<
            int,
            IntError,
        >(n as int) ==> sync_step(args, i, acc) == Ok::<(SyncView, int), Text>(
            (SyncView { max_thread_pages: n, ..acc }, i + 2),
        ),
        args[i] == "--max-pages"@ && int_value(args[i + 1], false, 0, usize::MAX as int) == Ok::<
            int,
            IntError,
        >(n as int) ==> sync_step(args, i, acc) == Ok::<(SyncView, int), Text>(
            (SyncView { max_pages: n, ..acc }, i + 2),
        ),
        args[i] == "--history-threads"@ && int_value(args[i + 1], false, 0, usize::MAX as int) == Ok::<
            int,
            IntError,
        >(n as int) ==> sync_step(args, i, acc) == Ok::<(SyncView, int), Text>(
            (SyncView { history_threads: n, ..acc }, i + 2),
        ),
{
    reveal_strlit("--all");
    reveal_strlit("--full");
    reveal_strlit("--threads");
    reveal_strlit("--messages");
    reveal_strlit("--tags");
    reveal_strlit("--thread-id");
    reveal_strlit("--max-thread-pages");
    reveal_strlit("--max-pages");
    reveal_strlit("--history-threads");
    if args[i] == "--all"@ {
    }
    if args[i] == "--full"@ {
        assert("--all"@.len() != "--full"@.len());
    }
    if args[i] == "--threads"@ {
        assert("--all"@.len() != "--threads"@.len());
        assert("--full"@.len() != "--threads"@.len());
        lemma_own_flag(args, i, "--threads"@);
    }
    if args[i] == "--messages"@ {
        assert("--all"@.len() != "--messages"@.len());
        assert("--full"@.len() != "--messages"@.len());
        lemma_other_flag("--messages"@, "--threads"@, 2);
        lemma_own_flag(args, i, "--messages"@);
    }
    if args[i] == "--tags"@ {
        assert("--all"@.len() != "--tags"@.len());
        assert("--full"@[2] != "--tags"@[2]);
        lemma_other_flag("--tags"@, "--threads"@, 3);
        lemma_other_flag("--tags"@, "--messages"@, 2);
        lemma_own_flag(args, i, "--tags"@);
    }
    if args[i] == "--thread-id"@ {
        assert("--all"@.len() != "--thread-id"@.len());
        assert("--full"@.len() != "--thread-id"@.len());
        lemma_other_flag("--thread-id"@, "--threads"@, 8);
        lemma_other_flag("--thread-id"@, "--messages"@, 2);
        lemma_other_flag("--thread-id"@, "--tags"@, 3);
        lemma_own_flag(args, i, "--thread-id"@);
    }
    if args[i] == "--max-thread-pages"@ {
        assert("--all"@.len() != "--max-thread-pages"@.len());
        assert("--full"@.len() != "--max-thread-pages"@.len());
        lemma_other_flag("--max-thread-pages"@, "--threads"@, 2);
        lemma_other_flag("--max-thread-pages"@, "--messages"@, 3);
        lemma_other_flag("--max-thread-pages"@, "--tags"@, 2);
        lemma_other_flag("--max-thread-pages"@, "--thread-id"@, 2);
        lemma_own_flag(args, i, "--max-thread-pages"@);
    }
    if args[i] == "--max-pages"@ {
        assert("--all"@.len() != "--max-pages"@.len());
        assert("--full"@.len() != "--max-pages"@.len());
        lemma_other_flag("--max-pages"@, "--threads"@, 2);
        lemma_other_flag("--max-pages"@, "--messages"@, 3);
        lemma_other_flag("--max-pages"@, "--tags"@, 2);
        lemma_other_flag("--max-pages"@, "--thread-id"@, 2);
        lemma_other_flag("--max-pages"@, "--max-thread-pages"@, 6);
        lemma_own_flag(args, i, "--max-pages"@);
    }
    if args[i] == "--history-threads"@ {
        assert("--all"@.len() != "--history-threads"@.len());
        assert("--full"@.len() != "--history-threads"@.len());
        lemma_other_flag("--history-threads"@, "--threads"@, 2);
        lemma_other_flag("--history-threads"@, "--messages"@, 2);
        lemma_other_flag("--history-threads"@, "--tags"@, 2);
        lemma_other_flag("--history-threads"@, "--thread-id"@, 2);
        lemma_other_flag("--history-threads"@, "--max-thread-pages"@, 2);
        lemma_other_flag("--history-threads"@, "--max-pages"@, 2);
        lemma_own_flag(args, i, "--history-threads"@);
    }
}

/// Each flag of `threads` sets its own setting to the value behind it, and leaves the others as they
/// are.
pub proof fn law_threads_flags_set_their_settings(
    args: Seq<Text>,
    i: int,
    acc: ThreadsView,
    n: usize,
)
    requires
        0 <= i < args.len() - 1,
    ensures
        args[i] == "--archived"@ ==> threads_step(args, i, acc) == Ok::<(ThreadsView, int), Text>(
            (ThreadsView { archived: true, ..acc }, i + 1),
        ),
        args[i] == "--limit"@ && int_value(args[i + 1], false, 0, usize::MAX as int) == Ok::<
            int,
            IntError,
        >(n as int) ==> threads_step(args, i, acc) == Ok::<(ThreadsView, int), Text>(
            (ThreadsView { limit: n, ..acc }, i + 2),
        ),
        args[i] == "-l"@ && int_value(args[i + 1], false, 0, usize::MAX as int) == Ok::<
            int,
            IntError,
        >(n as int) ==> threads_step(args, i, acc) == Ok::<(ThreadsView, int), Text>(
            (ThreadsView { limit: n, ..acc }, i + 2),
        ),
        args[i] == "--query"@ ==> threads_step(args, i, acc) == Ok::<(ThreadsView, int), Text>(
            (ThreadsView { query: Some(args[i + 1]), ..acc }, i + 2),
        ),
        args[i] == "-q"@ ==> threads_step(args, i, acc) == Ok::<(ThreadsView, int), Text>(
            (ThreadsView { query: Some(args[i + 1]), ..acc }, i + 2),
        ),
{
    reveal_strlit("--archived");
    reveal_strlit("--limit");
    reveal_strlit("-l");
    reveal_strlit("--query");
    reveal_strlit("-q");
    if args[i] == "--archived"@ {
    }
    if args[i] == "--limit"@ {
        assert("--archived"@.len() != "--limit"@.len());
        lemma_own_flag(args, i, "--limit"@);
    }
    if args[i] == "-l"@ {
        assert("--archived"@.len() != "-l"@.len());
        lemma_other_flag("-l"@, "--limit"@, 1);
    }
    if args[i] == "--query"@ {
        assert("--archived"@.len() != "--query"@.len());
        lemma_other_flag("--query"@, "--limit"@, 2);
        assert("-l"@.len() != "--query"@.len());
        lemma_own_flag(args, i, "--query"@);
    }
    if args[i] == "-q"@ {
        assert("--archived"@.len() != "-q"@.len());
        lemma_other_flag("-q"@, "--limit"@, 1);
        assert("-l"@[1] != "-q"@[1]);
        lemma_other_flag("-q"@, "--query"@, 1);
    }
}

/// Each flag of `categorize` sets its own setting to the value behind it, and leaves the others as they
/// are.
pub proof fn law_categorize_flags_set_their_settings(
    args: Seq<Text>,
    i: int,
    acc: CategorizeView,
    n: usize,
)
    requires
        0 <= i < args.len() - 1,
    ensures
        args[i] == "--axis"@ ==> categorize_step(args, i, acc) == Ok::<(CategorizeView, int), Text>(
            (CategorizeView { axis: Some(args[i + 1]), ..acc }, i + 2),
        ),
        args[i] == "--limit"@ && int_value(args[i + 1], false, 0, usize::MAX as int) == Ok::<
            int,
            IntError,
        >(n as int) ==> categorize_step(args, i, acc) == Ok::<(CategorizeView, int), Text>(
            (CategorizeView { limit: n, ..acc }, i + 2),
        ),
        args[i] == "-l"@ && int_value(args[i + 1], false, 0, usize::MAX as int) == Ok::<
            int,
            IntError,
        >(n as int) ==> categorize_step(args, i, acc) == Ok::<(CategorizeView, int), Text>(
            (CategorizeView { limit: n, ..acc }, i + 2),
        ),
{
    reveal_strlit("--axis");
    reveal_strlit("--limit");
    reveal_strlit("-l");
    if args[i] == "--axis"@ {
        lemma_own_flag(args, i, "--axis"@);
    }
    if args[i] == "--limit"@ {
        lemma_other_flag("--limit"@, "--axis"@, 2);
        lemma_own_flag(args, i, "--limit"@);
    }
    if args[i] == "-l"@ {
        lemma_other_flag("-l"@, "--axis"@, 1);
        lemma_other_flag("-l"@, "--limit"@, 1);
    }
}

/// Each flag of `listen` sets its own setting to the value behind it, and leaves the others as they
/// are.
pub proof fn law_listen_flags_set_their_settings(
    args: Seq<Text>,
    i: int,
    acc: ListenView,
    n: usize,
)
    requires
        0 <= i < args.len() - 1,
    ensures
        args[i] == "--limit"@ && int_value(args[i + 1], false, 0, usize::MAX as int) == Ok::<
            int,
            IntError,
        >(n as int) ==> listen_step(args, i, acc) == Ok::<(ListenView, int), Text>(
            (ListenView { limit: Some(n), ..acc }, i + 2),
        ),
{
    reveal_strlit("--limit");
    if args[i] == "--limit"@ {
        lemma_own_flag(args, i, "--limit"@);
    }
}

/// Each flag of `export` sets its own setting to the value behind it, and leaves the others as they
/// are.
pub proof fn law_export_flags_set_their_settings(
    args: Seq<Text>,
    i: int,
    acc: ExportView,
    format: ExportFormat,
)
    requires
        0 <= i < args.len() - 1,
    ensures
        args[i] == "--thread-id"@ ==> export_step(args, i, acc) == Ok::<(ExportView, int), Text>(
            (ExportView { thread_id: Some(args[i + 1]), ..acc }, i + 2),
        ),
        args[i] == "--format"@ && format_named(args[i + 1]) == Ok::<ExportFormat, Text>(format) ==> export_step(args, i, acc) == Ok::<(ExportView, int), Text>(
            (ExportView { format: format, ..acc }, i + 2),
        ),
        args[i] == "--output"@ ==> export_step(args, i, acc) == Ok::<(ExportView, int), Text>(
            (ExportView { output: Some(args[i + 1]), ..acc }, i + 2),
        ),
        args[i] == "-o"@ ==> export_step(args, i, acc) == Ok::<(ExportView, int), Text>(
            (ExportView { output: Some(args[i + 1]), ..acc }, i + 2),
        ),
{
    reveal_strlit("--thread-id");
    reveal_strlit("--format");
    reveal_strlit("--output");
    reveal_strlit("-o");
    if args[i] == "--thread-id"@ {
        lemma_own_flag(args, i, "--thread-id"@);
    }
    if args[i] == "--format"@ {
        lemma_other_flag("--format"@, "--thread-id"@, 2);
        lemma_own_flag(args, i, "--format"@);
    }
    if args[i] == "--output"@ {
        lemma_other_flag("--output"@, "--thread-id"@, 2);
        lemma_other_flag("--output"@, "--format"@, 2);
        lemma_own_flag(args, i, "--output"@);
    }
    if args[i] == "-o"@ {
        lemma_other_flag("-o"@, "--thread-id"@, 1);
        lemma_other_flag("-o"@, "--format"@, 1);
        lemma_other_flag("-o"@, "--output"@, 1);
    }
}

/// Each flag of `messages` sets its own setting to the value behind it, and leaves the others as they
/// are.
pub proof fn law_messages_flags_set_their_settings(
    args: Seq<Text>,
    i: int,
    acc: MessagesScan,
    n: usize,
)
    requires
        0 <= i < args.len() - 1,
    ensures
        args[i] == "--newest"@ ==> messages_step(args, i, acc) == Ok::<(MessagesScan, int), Text>(
            (MessagesScan { newest: true, ..acc }, i + 1),
        ),
        args[i] == "--limit"@ && int_value(args[i + 1], false, 0, usize::MAX as int) == Ok::<
            int,
            IntError,
        >(n as int) ==> messages_step(args, i, acc) == Ok::<(MessagesScan, int), Text>(
            (MessagesScan { limit: n, ..acc }, i + 2),
        ),
        args[i] == "-l"@ && int_value(args[i + 1], false, 0, usize::MAX as int) == Ok::<
            int,
            IntError,
        >(n as int) ==> messages_step(args, i, acc) == Ok::<(MessagesScan, int), Text>(
            (MessagesScan { limit: n, ..acc }, i + 2),
        ),
        args[i].len() == 0 || args[i][0] != '-' ==> messages_step(args, i, acc) == Ok::<(MessagesScan, int), Text>(
            (MessagesScan { positional: acc.positional.push(args[i]), ..acc }, i + 1),
        ),
{
    reveal_strlit("--newest");
    reveal_strlit("--limit");
    reveal_strlit("-l");
    if args[i] == "--newest"@ {
    }
    if args[i] == "--limit"@ {
        assert("--newest"@.len() != "--limit"@.len());
        lemma_own_flag(args, i, "--limit"@);
    }
    if args[i] == "-l"@ {
        assert("--newest"@.len() != "-l"@.len());
        lemma_other_flag("-l"@, "--limit"@, 1);
    }
    if args[i].len() == 0 || args[i][0] != '-' {
        assert("--newest"@[0] == '-');
        lemma_no_flag(args[i], "--limit"@);
        assert("-l"@[0] == '-');
    }
}

/// Each flag of `search` sets its own setting to the value behind it, and leaves the others as they
/// are.
pub proof fn law_search_flags_set_their_settings(
    args: Seq<Text>,
    i: int,
    acc: SearchScan,
    n: usize,
)
    requires
        0 <= i < args.len() - 1,
    ensures
        args[i] == "--thread-id"@ ==> search_step(args, i, acc) == Ok::<(SearchScan, int), Text>(
            (SearchScan { thread_id: Some(args[i + 1]), ..acc }, i + 2),
        ),
        args[i] == "--limit"@ && int_value(args[i + 1], false, 0, usize::MAX as int) == Ok::<
            int,
            IntError,
        >(n as int) ==> search_step(args, i, acc) == Ok::<(SearchScan, int), Text>(
            (SearchScan { limit: n, ..acc }, i + 2),
        ),
        args[i] == "-l"@ && int_value(args[i + 1], false, 0, usize::MAX as int) == Ok::<
            int,
            IntError,
        >(n as int) ==> search_step(args, i, acc) == Ok::<(SearchScan, int), Text>(
            (SearchScan { limit: n, ..acc }, i + 2),
        ),
        args[i].len() == 0 || args[i][0] != '-' ==> search_step(args, i, acc) == Ok::<(SearchScan, int), Text>(
            (SearchScan { positional: acc.positional.push(args[i]), ..acc }, i + 1),
        ),
{
    reveal_strlit("--thread-id");
    reveal_strlit("--limit");
    reveal_strlit("-l");
    if args[i] == "--thread-id"@ {
        lemma_own_flag(args, i, "--thread-id"@);
    }
    if args[i] == "--limit"@ {
        lemma_other_flag("--limit"@, "--thread-id"@, 2);
        lemma_own_flag(args, i, "--limit"@);
    }
    if args[i] == "-l"@ {
        lemma_other_flag("-l"@, "--thread-id"@, 1);
        lemma_other_flag("-l"@, "--limit"@, 1);
    }
    if args[i].len() == 0 || args[i][0] != '-' {
        lemma_no_flag(args[i], "--thread-id"@);
        lemma_no_flag(args[i], "--limit"@);
        assert("-l"@[0] == '-');
    }
}

/// Each flag of `send` sets its own setting to the value behind it, and leaves the others as they
/// are.
pub proof fn law_send_flags_set_their_settings(
    args: Seq<Text>,
    i: int,
    acc: SendScan,
)
    requires
        0 <= i < args.len() - 1,
    ensures
        args[i] == "--reply-to"@ ==> send_step(args, i, acc) == Ok::<(SendScan, int), Text>(
            (SendScan { reply_to: Some(args[i + 1]), ..acc }, i + 2),
        ),
        args[i].len() == 0 || args[i][0] != '-' ==> send_step(args, i, acc) == Ok::<(SendScan, int), Text>(
            (SendScan { positional: acc.positional.push(args[i]), ..acc }, i + 1),
        ),
{
    reveal_strlit("--reply-to");
    if args[i] == "--reply-to"@ {
        lemma_own_flag(args, i, "--reply-to"@);
    }
    if args[i].len() == 0 || args[i][0] != '-' {
        lemma_no_flag(args[i], "--reply-to"@);
    }
}

/// The first argument of `messages` that is no flag names the thread; without further arguments the
/// 50 earliest messages are shown.
pub proof fn law_messages_are_those_of_the_named_thread(id: Text)
    requires
        id.len() == 0 || id[0] != '-',
    ensures
        messages_args(seq![id]) == Ok::<MessagesView, Text>(
            MessagesView { thread_id: id, limit: 50, newest: false },
        ),
        messages_args(Seq::empty()) is Err,
{
    let args = seq![id];
    let start = MessagesScan { limit: 50, newest: false, positional: Seq::empty() };
    reveal_strlit("--newest");
    reveal_strlit("--limit");
    reveal_strlit("-l");
    assert("--newest"@[0] == '-');
    assert("-l"@[0] == '-');
    lemma_no_flag(id, "--limit"@);
    assert(args[0] == id);
    assert(messages_steps()(args, 0, start) == messages_step(args, 0, start));
    lemma_one_step(
        args,
        start,
        messages_steps(),
        MessagesScan { positional: start.positional.push(id), ..start },
    );
}

/// The first argument of `search` that is no flag is what is looked for, in all threads.
pub proof fn law_search_is_for_the_given_words(query: Text)
    requires
        query.len() == 0 || query[0] != '-',
    ensures
        search_args(seq![query]) == Ok::<SearchView, Text>(
            SearchView { query, thread_id: None, limit: 25 },
        ),
        search_args(Seq::empty()) is Err,
{
    let args = seq![query];
    let start = SearchScan { thread_id: None, limit: 25, positional: Seq::empty() };
    reveal_strlit("--thread-id");
    reveal_strlit("--limit");
    reveal_strlit("-l");
    assert("-l"@[0] == '-');
    lemma_no_flag(query, "--limit"@);
    lemma_no_flag(query, "--thread-id"@);
    assert(args[0] == query);
    assert(search_steps()(args, 0, start) == search_step(args, 0, start));
    lemma_one_step(
        args,
        start,
        search_steps(),
        SearchScan { positional: start.positional.push(query), ..start },
    );
}

/// The first argument of `send` that is no flag names the thread, the second one is the message;
/// without either there is an error.
pub proof fn law_message_goes_to_the_named_thread(id: Text, body: Text)
    requires
        id.len() == 0 || id[0] != '-',
        body.len() == 0 || body[0] != '-',
    ensures
        send_args(seq![id, body]) == Ok::<SendView, Text>(
            SendView { thread_id: id, body, reply_to: None },
        ),
        send_args(seq![id]) is Err,
        send_args(Seq::empty()) is Err,
{
    let start = SendScan { reply_to: None, positional: Seq::empty() };
    let one = SendScan { positional: start.positional.push(id), ..start };
    let two = SendScan { positional: one.positional.push(body), ..one };
    reveal_strlit("--reply-to");
    lemma_no_flag(id, "--reply-to"@);
    lemma_no_flag(body, "--reply-to"@);
    let alone = seq![id];
    assert(alone[0] == id);
    assert(send_steps()(alone, 0, start) == send_step(alone, 0, start));
    lemma_one_step(alone, start, send_steps(), one);
    let both = seq![id, body];
    assert(both[0] == id && both[1] == body);
    assert(send_steps()(both, 0, start) == send_step(both, 0, start));
    assert(send_steps()(both, 1, one) == send_step(both, 1, one));
    law_arguments_are_read_in_order(both, 0, start, send_steps(), one, 1);
    law_arguments_are_read_in_order(both, 1, one, send_steps(), two, 2);
}

/// The environment says what `init` is given where no argument says it: each setting has its own
/// variable.
pub proof fn law_environment_stands_in_for_arguments(env: CliEnvView)
    ensures
        ({
            let given = fold_args(Seq::empty(), 0, init_defaults(env), init_steps());
            &&& given is Ok
            &&& given->Ok_0.fca_dir == env.fca_dir
            &&& given->Ok_0.appstate == env.appstate
            &&& given->Ok_0.browser_appstate_cache == env.browser_appstate_cache
            &&& given->Ok_0.db == env.db
            &&& given->Ok_0.turso_url == env.libsql_url
            &&& given->Ok_0.turso_auth_token == env.libsql_auth_token
            &&& given->Ok_0.browser == BrowserKind::Auto
            &&& given->Ok_0.browser_profile is None
            &&& !given->Ok_0.from_browser && !given->Ok_0.force
        }),
{
}

/// Each command is called by its own name, and reads the arguments behind it.
pub proof fn law_commands_are_called_by_their_names(args: Seq<Text>, env: CliEnvView)
    ensures
        match fold_args(args, 0, init_defaults(env), init_steps()) {
            Ok(a) => command_of("init"@, args, env) == Ok::<CommandsView, Text>(
                CommandsView::Init(a),
            ),
            Err(e) => command_of("init"@, args, env) == Err::<CommandsView, Text>(e),
        },
        match fold_args(args, 0, sync_defaults(), sync_steps()) {
            Ok(a) => command_of("sync"@, args, env) == Ok::<CommandsView, Text>(
                CommandsView::Sync(a),
            ),
            Err(e) => command_of("sync"@, args, env) == Err::<CommandsView, Text>(e),
        },
        match fold_args(args, 0, threads_defaults(), threads_steps()) {
            Ok(a) => command_of("threads"@, args, env) == Ok::<CommandsView, Text>(
                CommandsView::Threads(a),
            ),
            Err(e) => command_of("threads"@, args, env) == Err::<CommandsView, Text>(e),
        },
        match messages_args(args) {
            Ok(a) => command_of("messages"@, args, env) == Ok::<CommandsView, Text>(
                CommandsView::Messages(a),
            ),
            Err(e) => command_of("messages"@, args, env) == Err::<CommandsView, Text>(e),
        },
        match search_args(args) {
            Ok(a) => command_of("search"@, args, env) == Ok::<CommandsView, Text>(
                CommandsView::Search(a),
            ),
            Err(e) => command_of("search"@, args, env) == Err::<CommandsView, Text>(e),
        },
        match fold_args(args, 0, categorize_defaults(), categorize_steps()) {
            Ok(a) => command_of("categorize"@, args, env) == Ok::<CommandsView, Text>(
                CommandsView::Categorize(a),
            ),
            Err(e) => command_of("categorize"@, args, env) == Err::<CommandsView, Text>(e),
        },
        match send_args(args) {
            Ok(a) => command_of("send"@, args, env) == Ok::<CommandsView, Text>(
                CommandsView::Send(a),
            ),
            Err(e) => command_of("send"@, args, env) == Err::<CommandsView, Text>(e),
        },
        match fold_args(args, 0, listen_defaults(), listen_steps()) {
            Ok(a) => command_of("listen"@, args, env) == Ok::<CommandsView, Text>(
                CommandsView::Listen(a),
            ),
            Err(e) => command_of("listen"@, args, env) == Err::<CommandsView, Text>(e),
        },
        match fold_args(args, 0, export_defaults(), export_steps()) {
            Ok(a) => command_of("export"@, args, env) == Ok::<CommandsView, Text>(
                CommandsView::Export(a),
            ),
            Err(e) => command_of("export"@, args, env) == Err::<CommandsView, Text>(e),
        },
        command_of("status"@, args, env) == Ok::<CommandsView, Text>(CommandsView::Status),
        command_of("me"@, args, env) == Ok::<CommandsView, Text>(CommandsView::Me),
{
    reveal_strlit("init");
    reveal_strlit("status");
    reveal_strlit("sync");
    reveal_strlit("threads");
    reveal_strlit("messages");
    reveal_strlit("search");
    reveal_strlit("categorize");
    reveal_strlit("send");
    reveal_strlit("listen");
    reveal_strlit("export");
    reveal_strlit("me");
    assert("init"@.len() != "status"@.len());
    assert("init"@[0] != "sync"@[0]);
    assert("status"@.len() != "sync"@.len());
    assert("init"@.len() != "threads"@.len());
    assert("status"@.len() != "threads"@.len());
    assert("sync"@.len() != "threads"@.len());
    assert("init"@.len() != "messages"@.len());
    assert("status"@.len() != "messages"@.len());
    assert("sync"@.len() != "messages"@.len());
    assert("threads"@.len() != "messages"@.len());
    assert("init"@.len() != "search"@.len());
    assert("status"@[1] != "search"@[1]);
    assert("sync"@.len() != "search"@.len());
    assert("threads"@.len() != "search"@.len());
    assert("messages"@.len() != "search"@.len());
    assert("init"@.len() != "categorize"@.len());
    assert("status"@.len() != "categorize"@.len());
    assert("sync"@.len() != "categorize"@.len());
    assert("threads"@.len() != "categorize"@.len());
    assert("messages"@.len() != "categorize"@.len());
    assert("search"@.len() != "categorize"@.len());
    assert("init"@[0] != "send"@[0]);
    assert("status"@.len() != "send"@.len());
    assert("sync"@[1] != "send"@[1]);
    assert("threads"@.len() != "send"@.len());
    assert("messages"@.len() != "send"@.len());
    assert("search"@.len() != "send"@.len());
    assert("categorize"@.len() != "send"@.len());
    assert("init"@.len() != "listen"@.len());
    assert("status"@[0] != "listen"@[0]);
    assert("sync"@.len() != "listen"@.len());
    assert("threads"@.len() != "listen"@.len());
    assert("messages"@.len() != "listen"@.len());
    assert("search"@[0] != "listen"@[0]);
    assert("categorize"@.len() != "listen"@.len());
    assert("send"@.len() != "listen"@.len());
    assert("init"@.len() != "export"@.len());
    assert("status"@[0] != "export"@[0]);
    assert("sync"@.len() != "export"@.len());
    assert("threads"@.len() != "export"@.len());
    assert("messages"@.len() != "export"@.len());
    assert("search"@[0] != "export"@[0]);
    assert("categorize"@.len() != "export"@.len());
    assert("send"@.len() != "export"@.len());
    assert("listen"@[0] != "export"@[0]);
    assert("init"@.len() != "me"@.len());
    assert("status"@.len() != "me"@.len());
    assert("sync"@.len() != "me"@.len());
    assert("threads"@.len() != "me"@.len());
    assert("messages"@.len() != "me"@.len());
    assert("search"@.len() != "me"@.len());
    assert("categorize"@.len() != "me"@.len());
    assert("send"@.len() != "me"@.len());
    assert("listen"@.len() != "me"@.len());
    assert("export"@.len() != "me"@.len());
}

/// The form of an export is named in capital or small letters.
pub proof fn law_export_form_is_named_in_any_letters(raw: Text)
    ensures
        small_letters(raw) == "json"@ <==> format_named(raw) == Ok::<ExportFormat, Text>(
            ExportFormat::Json,
        ),
        small_letters(raw) == "markdown"@ || small_letters(raw) == "md"@ <==> format_named(raw)
            == Ok::<ExportFormat, Text>(ExportFormat::Markdown),
        small_letters(raw).len() == raw.len(),
        forall|i: int|
            0 <= i < raw.len() ==> #[trigger] small_letters(raw)[i] == (if 'A' <= raw[i] <= 'Z' {
                (raw[i] as int + 32) as char
            } else {
                raw[i]
            }),
{
    reveal_strlit("json");
    reveal_strlit("markdown");
    reveal_strlit("md");
    assert("json"@.len() != "markdown"@.len());
    assert("json"@.len() != "md"@.len());
    assert forall|i: int| 0 <= i < raw.len() implies #[trigger] small_letters(raw)[i] == (if 'A'
        <= raw[i] <= 'Z' {
        (raw[i] as int + 32) as char
    } else {
        raw[i]
    }) by {
        assert(small_letters(raw)[i] == small_char(raw[i]));
    }
}

} // verus!
