use fbm::cli::{MessagesArgs, SearchArgs, ThreadsArgs};
use fbm::json::{from_value, parse_json, JsonValue};
use fbm::rows::{
    like_pattern, limit_number, message_row, messages_query, search_query, search_row, thread_row,
    thread_row_of, threads_query, truncate, ThreadEntry,
};
use fbm::table::{json_cell, table_line, table_lines};

#[test]
fn truncates_unicode_safely() {
    assert_eq!(truncate("hello", 10), "hello");
    assert_eq!(truncate("😀😀😀", 2), "😀😀…");
}

#[test]
fn a_text_of_just_the_limit_stays_whole() {
    assert_eq!(truncate("abc", 3), "abc");
    assert_eq!(truncate("abcd", 3), "abc…");
    assert_eq!(truncate("a", 0), "…");
    assert_eq!(truncate("", 0), "");
}

#[test]
fn thread_queries_follow_the_arguments() {
    let args = |query: Option<&str>, archived: bool| ThreadsArgs {
        limit: 5,
        query: query.map(|q| q.to_string()),
        archived,
    };
    assert_eq!(
        threads_query(&args(None, true)),
        "SELECT thread_id, name, participant_ids, message_count, unread_count, updated_at, snippet FROM threads ORDER BY COALESCE(updated_at, 0) DESC LIMIT ?2"
    );
    assert_eq!(
        threads_query(&args(Some("x"), false)),
        "SELECT thread_id, name, participant_ids, message_count, unread_count, updated_at, snippet FROM threads WHERE is_archived = 0 AND (thread_id LIKE ?1 OR name LIKE ?1 OR participant_names LIKE ?1 OR snippet LIKE ?1) ORDER BY COALESCE(updated_at, 0) DESC LIMIT ?2"
    );
    assert!(threads_query(&args(None, false)).contains(" WHERE is_archived = 0 ORDER"));
    assert_eq!(like_pattern(&Some("ann".to_string())), "%ann%");
    assert_eq!(like_pattern(&None), "%");
    assert_eq!(limit_number(7), 7);
}

#[test]
fn message_queries_follow_the_arguments() {
    let mut args = MessagesArgs { thread_id: "t".to_string(), limit: 5, newest: false };
    assert!(messages_query(&args).ends_with("COALESCE(timestamp, 0) ASC LIMIT ?2"));
    args.newest = true;
    assert!(messages_query(&args).ends_with("COALESCE(timestamp, 0) DESC LIMIT ?2"));
    let mut args = SearchArgs { query: "q".to_string(), thread_id: None, limit: 5 };
    assert!(search_query(&args).ends_with("MATCH ?1 LIMIT ?2"));
    args.thread_id = Some("t".to_string());
    assert!(search_query(&args).ends_with("MATCH ?1 AND thread_id = ?2 LIMIT ?3"));
}

#[test]
fn rows_show_what_is_stored() {
    let entry = ThreadEntry {
        thread_id: "t".to_string(),
        name: None,
        participant_ids: "[\"a\",\"b\"]".to_string(),
        message_count: Some(12),
        unread_count: None,
        updated_at: Some(1710000000000),
        snippet: Some("x".repeat(81)),
    };
    let row = thread_row(&entry);
    assert_eq!(row.participants, 2);
    assert_eq!((row.name.as_str(), row.messages.as_str(), row.unread.as_str()), ("", "12", ""));
    assert_eq!(row.updated, "2024-03-09 16:00:00 UTC");
    assert_eq!(row.snippet.chars().count(), 81);
    assert!(row.snippet.ends_with('…'));
    assert_eq!(thread_row_of(&entry, 9).participants, 9);

    let row = message_row(None, &Some("u".to_string()), &Some("y".repeat(200)), "m".to_string());
    assert_eq!((row.time.as_str(), row.sender.as_str()), ("", "u"));
    assert_eq!(row.body.chars().count(), 141);
    assert_eq!(row.message_id, "m");

    let row = search_row("1.50".to_string(), Some(0), &None, &None, &Some("z".repeat(181)));
    assert_eq!(row.score, "1.50");
    assert_eq!(row.time, "1970-01-01 00:00:00 UTC");
    assert_eq!(row.body.chars().count(), 181);
}

fn rows(text: &str) -> Vec<JsonValue> {
    match parse_json(text).unwrap() {
        JsonValue::Array(items) => items,
        other => panic!("{other:?}"),
    }
}

#[test]
fn tables_are_aligned() {
    let lines = table_lines(&rows(
        r#"[{"name":"Ann","n":1},{"name":"Bartholomew","n":null},{"n":[1,2]}]"#,
    ))
    .unwrap();
    assert_eq!(
        lines,
        vec![
            "n      name       ",
            "-----  -----------",
            "1      Ann        ",
            "       Bartholomew",
            "[1,2]             ",
        ]
    );
}

#[test]
fn header_widths_count_bytes() {
    let lines = table_lines(&rows(r#"[{"é":"x"}]"#)).unwrap();
    assert_eq!(lines, vec!["é ", "--", "x "]);
}

#[test]
fn tables_without_columns() {
    assert_eq!(table_lines(&[]).unwrap(), vec!["(no rows)"]);
    assert_eq!(table_lines(&rows("[1,\"a\"]")).unwrap(), vec!["1", "\"a\""]);
    assert_eq!(table_lines(&rows("[{},{\"a\":1}]")).unwrap(), vec!["{}", "{\"a\":1}"]);
    assert_eq!(
        table_lines(&rows("[{\"a\":1},2]")).err().unwrap().message,
        "row was not a JSON object"
    );
}

#[test]
fn lines_and_cells() {
    assert_eq!(table_line(&["a".to_string(), "bb".to_string()], &[2, 2]), "a   bb");
    assert_eq!(table_line(&["abc".to_string()], &[2]), "abc");
    assert_eq!(table_line(&["a".to_string()], &[3, 5]), "a  ");
    assert_eq!(table_line(&[], &[3]), "");
    assert_eq!(json_cell(&JsonValue::Null), "");
    assert_eq!(json_cell(&JsonValue::text("s")), "s");
    assert_eq!(json_cell(&from_value(serde_json::Value::Bool(true))), "true");
}
