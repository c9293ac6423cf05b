use fbm::cli::SyncArgs;
use fbm::json::{json_text, string_list_len, JsonValue};
use fbm::records::{
    bool_i64, opt_i64, sort_by_time, stored_message, stored_thread, MessageRecord, ThreadRecord,
};
use fbm::sync::{
    history_request, is_history_complete, next_thread_before, should_continue_history,
    sync_tag_groups, threads_request, SyncAction, SyncRun,
};
use std::collections::BTreeMap;

fn thread(id: &str, timestamp: Option<&str>) -> ThreadRecord {
    ThreadRecord {
        thread_id: id.to_string(),
        thread_name: None,
        participant_ids: vec![],
        user_info: vec![],
        unread_count: None,
        message_count: None,
        timestamp: timestamp.map(|s| s.to_string()),
        is_group: None,
        is_archived: None,
        folder: None,
        snippet: None,
        raw_extra: BTreeMap::new(),
    }
}

fn message(id: &str, timestamp: Option<&str>) -> MessageRecord {
    MessageRecord {
        message_id: id.to_string(),
        thread_id: "t1".to_string(),
        sender_id: None,
        body: None,
        timestamp: timestamp.map(|s| s.to_string()),
        attachments: vec![],
        mentions: JsonValue::Null,
        reactions: vec![],
        is_unread: None,
        is_group: None,
        kind: None,
        raw_extra: BTreeMap::new(),
    }
}

fn defaults() -> SyncArgs {
    SyncArgs {
        all: false,
        threads: 50,
        messages: 200,
        tags: vec!["INBOX".to_string()],
        thread_id: None,
        full: false,
        max_thread_pages: 0,
        max_pages: 25,
        history_threads: 0,
    }
}

#[test]
fn all_sync_expands_default_tags_to_reachable_folder_groups() {
    assert_eq!(
        sync_tag_groups(true, &["INBOX".to_string()]),
        vec![
            vec!["INBOX".to_string()],
            vec!["ARCHIVED".to_string()],
            vec!["OTHER".to_string()],
            vec!["PENDING".to_string()],
            vec!["SPAM".to_string()],
        ]
    );
    assert_eq!(
        sync_tag_groups(false, &["INBOX".to_string()]),
        vec![vec!["INBOX".to_string()]]
    );
    assert_eq!(
        sync_tag_groups(true, &["PENDING".to_string()]),
        vec![vec!["PENDING".to_string()]]
    );
}

#[test]
fn thread_pagination_cursor_uses_oldest_timestamp_minus_one() {
    let threads = vec![
        ThreadRecord {
            thread_id: "new".into(),
            thread_name: None,
            participant_ids: vec![],
            user_info: vec![],
            unread_count: None,
            message_count: None,
            timestamp: Some("2000000000000".into()),
            is_group: None,
            is_archived: None,
            folder: None,
            snippet: None,
            raw_extra: BTreeMap::new(),
        },
        ThreadRecord {
            thread_id: "old".into(),
            thread_name: None,
            participant_ids: vec![],
            user_info: vec![],
            unread_count: None,
            message_count: None,
            timestamp: Some("1000000000000".into()),
            is_group: None,
            is_archived: None,
            folder: None,
            snippet: None,
            raw_extra: BTreeMap::new(),
        },
    ];
    assert_eq!(next_thread_before(&threads), Some(999999999999));
}

#[test]
fn cursor_is_absent_without_times() {
    assert_eq!(next_thread_before(&[]), None);
    assert_eq!(next_thread_before(&[thread("a", None), thread("b", Some("soon"))]), None);
    assert_eq!(
        next_thread_before(&[thread("a", Some("-9223372036854775808"))]),
        Some(i64::MIN)
    );
}

#[test]
fn history_complete_uses_remote_message_count_when_available() {
    assert!(is_history_complete(Some(10), 10));
    assert!(is_history_complete(Some(10), 12));
    assert!(!is_history_complete(Some(10), 9));
    assert!(!is_history_complete(None, 999));
}

#[test]
fn zero_max_pages_means_unbounded_history() {
    assert!(should_continue_history(true, 100, 0, 200, 200));
    assert!(!should_continue_history(true, 25, 25, 200, 200));
    assert!(!should_continue_history(false, 1, 0, 200, 200));
    assert!(!should_continue_history(true, 1, 0, 199, 200));
}

#[test]
fn pages_have_to_hold_something() {
    let mut args = defaults();
    args.threads = 0;
    let refused = SyncRun::start(args);
    assert_eq!(refused.err().unwrap().message, "--threads must be greater than 0");
    let mut args = defaults();
    args.messages = 0;
    let refused = SyncRun::start(args);
    assert_eq!(refused.err().unwrap().message, "--messages must be greater than 0");
}

#[test]
fn messages_are_sorted_by_time_and_keep_their_order_within_one_time() {
    let page = vec![
        message("c", Some("3000000000000")),
        message("b1", Some("2000000000000")),
        message("none", None),
        message("b2", Some("2000000000000")),
        message("a", Some("1000000000000")),
    ];
    let ids: Vec<String> = sort_by_time(page).into_iter().map(|m| m.message_id).collect();
    assert_eq!(ids, vec!["none", "a", "b1", "b2", "c"]);
}

fn reports(run: &SyncRun, field: &str) -> bool {
    json_text(&run.report()).contains(field)
}

#[test]
fn a_plain_run_reads_one_page_of_each_thread() {
    let mut run = SyncRun::start(defaults()).unwrap();
    match run.action() {
        SyncAction::FetchThreads { limit, tags, before } => {
            assert_eq!((limit, before), (50, None));
            assert_eq!(tags, vec!["INBOX".to_string()]);
        }
        other => panic!("{other:?}"),
    }
    run.take_threads(&[
        thread("t1", Some("2000000000000")),
        thread("t2", Some("1000000000000")),
        thread("t1", Some("2000000000000")),
    ]);
    assert_eq!(run.thread_count(), 2);
    assert!(matches!(run.action(), SyncAction::CheckThread { thread_id } if thread_id == "t1"));
    run.take_check(false, Some(10), 10);
    assert!(matches!(run.action(), SyncAction::CheckThread { thread_id } if thread_id == "t2"));
    run.take_check(false, Some(10), 9);
    assert!(matches!(run.action(), SyncAction::FindEarliest { thread_id } if thread_id == "t2"));
    run.take_earliest(Some(5000));
    match run.action() {
        SyncAction::FetchHistory { thread_id, amount, before } => {
            assert_eq!(thread_id, "t2");
            assert_eq!((amount, before), (200, Some(4999)));
        }
        other => panic!("{other:?}"),
    }
    assert!(run.room_for(2));
    let (stored, mark) = run.take_history(vec![
        message("m2", Some("1700000000000")),
        message("m1", Some("1600000000000")),
    ]);
    assert_eq!(stored[0].message_id, "m1");
    assert_eq!(mark.thread_id, "t2");
    assert_eq!(mark.before, Some(1599999999999));
    assert!(!mark.complete);
    assert!(matches!(run.action(), SyncAction::Finish));
    assert_eq!(
        run.summary(),
        "synced 2 threads and 2 messages (1 thread pages, 1 history pages)"
    );
    assert_eq!(
        json_text(&run.report()),
        "{\"all\":false,\"full_history\":false,\"history_pages\":1,\
         \"history_threads_processed\":1,\"history_threads_skipped_complete\":1,\
         \"messages\":2,\"tag_groups\":[[\"INBOX\"]],\"thread_pages\":1,\"threads\":2}"
    );
}

#[test]
fn an_exhaustive_run_goes_through_all_folders_and_pages() {
    let mut args = defaults();
    args.all = true;
    args.threads = 1;
    args.messages = 1;
    let mut run = SyncRun::start(args).unwrap();
    run.take_threads(&[thread("t1", Some("1700000000000"))]);
    match run.action() {
        SyncAction::FetchThreads { tags, before, .. } => {
            assert_eq!(tags, vec!["INBOX".to_string()]);
            assert_eq!(before, Some(1699999999999));
        }
        other => panic!("{other:?}"),
    }
    run.take_threads(&[]);
    for folder in ["ARCHIVED", "OTHER", "PENDING", "SPAM"] {
        match run.action() {
            SyncAction::FetchThreads { tags, before, .. } => {
                assert_eq!(tags, vec![folder.to_string()]);
                assert_eq!(before, None);
            }
            other => panic!("{other:?}"),
        }
        run.take_threads(&[]);
    }
    assert!(reports(&run, "\"thread_pages\":6,"));
    run.take_check(false, None, 0);
    run.take_earliest(None);
    let (_, mark) = run.take_history(vec![message("m2", Some("1600000000000"))]);
    assert!(!mark.complete);
    match run.action() {
        SyncAction::FetchHistory { before, .. } => assert_eq!(before, Some(1599999999999)),
        other => panic!("{other:?}"),
    }
    let (stored, mark) = run.take_history(vec![]);
    assert!(stored.is_empty());
    assert!(mark.complete);
    assert_eq!(mark.before, Some(1599999999999));
    assert!(matches!(run.action(), SyncAction::Finish));
}

#[test]
fn a_limit_on_threads_ends_the_run() {
    let mut args = defaults();
    args.history_threads = 1;
    let mut run = SyncRun::start(args).unwrap();
    run.take_threads(&[thread("t1", None), thread("t2", None)]);
    run.take_check(false, None, 0);
    run.take_earliest(None);
    run.take_history(vec![]);
    run.take_check(false, None, 0);
    assert!(matches!(run.action(), SyncAction::Finish));
    assert!(reports(&run, "\"history_threads_processed\":1,"));
    assert!(reports(&run, "\"history_threads_skipped_complete\":0,"));
}

#[test]
fn a_named_thread_is_the_only_one() {
    let mut args = defaults();
    args.thread_id = Some("t9".to_string());
    args.full = true;
    args.max_pages = 2;
    args.messages = 1;
    let mut run = SyncRun::start(args).unwrap();
    assert_eq!(run.thread_count(), 0);
    run.take_check(false, None, 0);
    run.take_earliest(None);
    run.take_history(vec![message("m2", Some("1700000000000"))]);
    let (_, mark) = run.take_history(vec![message("m1", Some("1600000000000"))]);
    assert!(!mark.complete);
    assert!(matches!(run.action(), SyncAction::Finish));
    assert!(reports(&run, "\"history_pages\":2,"));
}

#[test]
fn requests_name_what_is_wanted() {
    assert_eq!(
        json_text(&threads_request(5, &["INBOX".to_string()], None)),
        "{\"limit\":5,\"tags\":[\"INBOX\"],\"timestamp\":null}"
    );
    assert_eq!(
        json_text(&history_request("t1", 7, Some(9))),
        "{\"amount\":7,\"threadID\":\"t1\",\"timestamp\":9}"
    );
}

#[test]
fn records_are_stored_with_defaults() {
    let mut t = thread("t1", Some("1710000000"));
    t.participant_ids = vec!["u1".to_string(), "u2".to_string()];
    t.user_info = vec![
        JsonValue::Object(vec![("name".to_string(), JsonValue::text("Ann"))]),
        JsonValue::Null,
        JsonValue::Object(vec![("name".to_string(), JsonValue::text("Bob"))]),
    ];
    t.is_group = Some(true);
    let s = stored_thread(&t);
    assert_eq!(s.name, "");
    assert_eq!(s.participant_ids, "[\"u1\",\"u2\"]");
    assert_eq!(string_list_len(&s.participant_ids), 2);
    assert_eq!(s.participant_names, "Ann, Bob");
    assert_eq!(s.user_info, "[{\"name\":\"Ann\"},null,{\"name\":\"Bob\"}]");
    assert_eq!(s.updated_at, Some(1710000000000));
    assert_eq!((s.is_group, s.is_archived), (1, 0));

    let m = stored_message(&message("m1", None));
    assert_eq!(m.kind, "message");
    assert_eq!(m.body, "");
    assert_eq!(m.mentions, "null");
    assert_eq!(m.attachments, "[]");
    assert_eq!(m.timestamp, None);

    assert_eq!(bool_i64(Some(true)), 1);
    assert_eq!(bool_i64(Some(false)), 0);
    assert_eq!(bool_i64(None), 0);
    assert_eq!(opt_i64(Some(3)), Some(3));
}

#[test]
fn a_limit_on_thread_pages_ends_the_listing() {
    let mut args = defaults();
    args.all = true;
    args.tags = vec!["PENDING".to_string()];
    args.threads = 1;
    args.max_thread_pages = 2;
    let mut run = SyncRun::start(args).unwrap();
    run.take_threads(&[thread("t2", Some("1700000000000"))]);
    assert!(matches!(run.action(), SyncAction::FetchThreads { .. }));
    run.take_threads(&[thread("t1", Some("1600000000000"))]);
    assert!(matches!(run.action(), SyncAction::CheckThread { thread_id } if thread_id == "t2"));
    assert!(reports(&run, "\"thread_pages\":2,"));
}

#[test]
fn the_limit_on_thread_pages_holds_for_all_folders_together() {
    let mut args = defaults();
    args.all = true;
    args.threads = 1;
    args.max_thread_pages = 1;
    let mut run = SyncRun::start(args).unwrap();
    assert!(matches!(run.action(), SyncAction::FetchThreads { .. }));
    run.take_threads(&[thread("t1", Some("1700000000000"))]);
    assert!(matches!(run.action(), SyncAction::CheckThread { thread_id } if thread_id == "t1"));
    assert!(reports(&run, "\"thread_pages\":1,"));

    let mut args = defaults();
    args.all = true;
    args.max_thread_pages = 1;
    let mut run = SyncRun::start(args).unwrap();
    run.take_threads(&[]);
    assert!(matches!(run.action(), SyncAction::Finish));
    assert!(reports(&run, "\"thread_pages\":1,"));
}

#[test]
fn the_limit_on_thread_pages_may_be_reached_in_a_later_folder() {
    let mut args = defaults();
    args.all = true;
    args.threads = 1;
    args.max_thread_pages = 3;
    let mut run = SyncRun::start(args).unwrap();
    run.take_threads(&[thread("t1", Some("1700000000000"))]);
    run.take_threads(&[]);
    match run.action() {
        SyncAction::FetchThreads { tags, before, .. } => {
            assert_eq!(tags, vec!["ARCHIVED".to_string()]);
            assert_eq!(before, None);
        }
        other => panic!("{other:?}"),
    }
    run.take_threads(&[thread("t2", Some("1600000000000"))]);
    assert!(matches!(run.action(), SyncAction::CheckThread { thread_id } if thread_id == "t1"));
    assert_eq!(run.thread_count(), 2);
    assert!(reports(&run, "\"thread_pages\":3,"));
}

#[test]
fn a_run_without_threads_is_done_at_once() {
    let mut run = SyncRun::start(defaults()).unwrap();
    run.take_threads(&[]);
    assert!(matches!(run.action(), SyncAction::Finish));
    assert_eq!(
        run.summary(),
        "synced 0 threads and 0 messages (1 thread pages, 0 history pages)"
    );
}

#[test]
fn a_short_page_completes_a_full_history() {
    let mut args = defaults();
    args.full = true;
    let mut run = SyncRun::start(args).unwrap();
    run.take_threads(&[thread("t1", None)]);
    run.take_check(false, None, 3);
    run.take_earliest(Some(i64::MIN));
    match run.action() {
        SyncAction::FetchHistory { before, .. } => assert_eq!(before, Some(i64::MIN)),
        other => panic!("{other:?}"),
    }
    let (_, mark) = run.take_history(vec![message("m1", None)]);
    assert!(mark.complete);
    assert_eq!(mark.before, None);
    assert!(matches!(run.action(), SyncAction::Finish));
}

#[test]
fn marked_threads_are_passed_over() {
    let mut run = SyncRun::start(defaults()).unwrap();
    run.take_threads(&[thread("t1", None)]);
    run.take_check(true, None, 0);
    assert!(matches!(run.action(), SyncAction::Finish));
    assert!(reports(&run, "\"history_threads_processed\":0,"));
    assert!(reports(&run, "\"history_threads_skipped_complete\":1,"));
}
