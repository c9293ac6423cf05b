use fbm::categories::{
    attachment_class, body_length_bucket, category_ancestors, class_of_attachments,
    component_of_lower, count_bucket, participant_bucket, path_component,
};
use fbm::facets::{
    categorize_report, category_count_query, describe_thread, message_category_statements,
    thread_dimensions, CategorizationSummary, CategoryCountRow, ThreadFacts,
};
use fbm::json::{json_text, JsonValue};
use fbm::taxonomy::{category_node, category_nodes};
use fbm::time::{time_path, TimeDepth};

#[test]
fn category_helpers_are_hierarchical_and_orthogonal() {
    assert_eq!(participant_bucket(1), "1_or_less");
    assert_eq!(participant_bucket(2), "2");
    assert_eq!(participant_bucket(8), "6_10");
    assert_eq!(count_bucket(1_500), "1000_plus");
    assert_eq!(body_length_bucket(""), "0");
    assert_eq!(body_length_bucket("hello"), "1_80");
    assert_eq!(attachment_class(r#"[{"type":"photo"}]"#), "photo");
    assert_eq!(
        attachment_class(r#"[{"type":"video"},{"type":"photo"}]"#),
        "mixed"
    );
    assert_eq!(
        time_path(1_710_000_000_000, TimeDepth::Hour).as_deref(),
        Some("time/2024/03/09/16")
    );
    assert_eq!(
        category_ancestors("time/2024/03"),
        vec!["time", "time/2024", "time/2024/03"]
    );
}

#[test]
fn buckets_meet_at_their_bounds() {
    for (count, name) in [
        (0, "1_or_less"),
        (1, "1_or_less"),
        (3, "3_5"),
        (5, "3_5"),
        (6, "6_10"),
        (10, "6_10"),
        (11, "11_25"),
        (25, "11_25"),
        (26, "26_plus"),
    ] {
        assert_eq!(participant_bucket(count), name);
    }
    for (count, name) in [
        (-4, "0"),
        (0, "0"),
        (1, "1_9"),
        (9, "1_9"),
        (10, "10_99"),
        (99, "10_99"),
        (100, "100_999"),
        (999, "100_999"),
        (1000, "1000_plus"),
    ] {
        assert_eq!(count_bucket(count), name);
    }
    for (len, name) in [(80, "1_80"), (81, "81_280"), (280, "81_280"), (281, "281_plus")] {
        assert_eq!(body_length_bucket(&"é".repeat(len)), name);
    }
}

#[test]
fn components_hold_letters_digits_and_single_underscores() {
    assert_eq!(path_component("  Hello,  World! "), "hello_world");
    assert_eq!(path_component("INBOX"), "inbox");
    assert_eq!(path_component("a/b"), "a_b");
    assert_eq!(path_component("__x__y__"), "x_y");
    assert_eq!(path_component("ÄÖ"), "unknown");
    assert_eq!(path_component("\u{130}stanbul"), "i_stanbul");
    assert_eq!(path_component(""), "unknown");
    assert_eq!(path_component("hello_world"), "hello_world");
    assert_eq!(component_of_lower("a--b"), "a_b");
    assert_eq!(component_of_lower("---"), "unknown");
}

#[test]
fn components_stand_for_themselves() {
    for text in ["\u{130}STANBUL 1", "\u{212a}elvin", "\u{3a3}A\u{3a3}", "\u{e4}\u{f6}", " X__y ", ""] {
        let part = path_component(text);
        assert_eq!(path_component(&part), part);
        assert!(part.chars().all(|c| c.is_ascii_lowercase() || c.is_ascii_digit() || c == '_'));
        assert!(!part.starts_with('_') && !part.ends_with('_') && !part.contains("__"));
        let kept: String =
            text.to_lowercase().chars().filter(|c| c.is_ascii_alphanumeric()).collect();
        if kept.is_empty() {
            assert_eq!(part, "unknown");
        } else {
            assert_eq!(part.replace('_', ""), kept);
        }
    }
    assert_eq!(path_component("\u{212a}elvin"), "kelvin");
}

#[test]
fn attachments_have_a_class() {
    assert_eq!(attachment_class("[]"), "none");
    assert_eq!(attachment_class("{}"), "other");
    assert_eq!(attachment_class("no json"), "other");
    assert_eq!(attachment_class(r#"[{"attachmentType":"Video"}]"#), "video");
    assert_eq!(attachment_class(r#"[{"__typename":"Animated Image"}]"#), "animated_image");
    assert_eq!(attachment_class(r#"[{"type":null,"attachmentType":"photo"}]"#), "other");
    assert_eq!(attachment_class(r#"[{"type":"unheard-of"}]"#), "other");
    assert_eq!(attachment_class(r#"[{"type":"photo"},{"type":"PHOTO"}]"#), "photo");
    assert_eq!(attachment_class(r#"[{"type":"photo"},3]"#), "mixed");
    let list = JsonValue::Array(vec![JsonValue::Object(vec![(
        "type".to_string(),
        JsonValue::text("sticker"),
    )])]);
    assert_eq!(class_of_attachments(Some(&list)), "sticker");
    assert_eq!(class_of_attachments(None), "other");
}

#[test]
fn ancestors_leave_out_empty_parts() {
    assert_eq!(category_ancestors("/a//b/"), vec!["a", "a/b"]);
    assert!(category_ancestors("").is_empty());
    assert!(category_ancestors("//").is_empty());
}

#[test]
fn nodes_know_their_parents() {
    let node = category_node("time.sent", "time/2024/03/09/16");
    assert_eq!(node.label, "16");
    assert_eq!(node.parent_path.as_deref(), Some("time/2024/03/09"));
    assert_eq!(node.depth, 4);
    let root = category_node("time.sent", "time");
    assert_eq!(root.label, "time");
    assert_eq!(root.parent_path, None);
    assert_eq!(root.depth, 0);
}

#[test]
fn the_tree_holds_every_ancestor_once_in_order() {
    let used = vec![
        ("time.sent".to_string(), "time/2024/03".to_string()),
        ("thread.kind".to_string(), "kind/group".to_string()),
        ("time.sent".to_string(), "time/2023".to_string()),
        ("time.sent".to_string(), "time/2024/03".to_string()),
    ];
    let nodes = category_nodes(&used);
    let keys: Vec<(&str, &str)> =
        nodes.iter().map(|n| (n.axis.as_str(), n.path.as_str())).collect();
    assert_eq!(
        keys,
        vec![
            ("thread.kind", "kind"),
            ("thread.kind", "kind/group"),
            ("time.sent", "time"),
            ("time.sent", "time/2023"),
            ("time.sent", "time/2024"),
            ("time.sent", "time/2024/03"),
        ]
    );
    for node in &nodes {
        if let Some(parent) = &node.parent_path {
            assert!(nodes.iter().any(|n| n.axis == node.axis && &n.path == parent));
        }
    }
}

fn facts() -> ThreadFacts {
    ThreadFacts {
        folder: Some("INBOX".to_string()),
        is_archived: 0,
        is_group: 1,
        participant_ids: Some("[\"u1\",\"u2\",\"u3\"]".to_string()),
        message_count: Some(2),
        updated_at: Some(1710000000000),
        stored_messages: 1,
        marked_complete: 1,
    }
}

#[test]
fn threads_have_one_facet_on_each_axis() {
    let d = describe_thread(&facts());
    assert_eq!(d.participant_count, 3);
    assert_eq!((d.activity_year, d.activity_month), (Some(2024), Some(3)));
    let facets: Vec<(String, String)> =
        d.facets().into_iter().map(|f| (f.axis.to_string(), f.path)).collect();
    let expected = [
        ("source.folder", "folder/inbox"),
        ("thread.archive", "archive/active"),
        ("thread.kind", "kind/group"),
        ("participants.size", "participants/3_5"),
        ("volume.messages", "volume/1_9"),
        ("thread.history", "history/complete"),
        ("time.activity", "time/2024/03"),
    ];
    assert_eq!(facets.len(), expected.len());
    for (got, want) in facets.iter().zip(expected) {
        assert_eq!((got.0.as_str(), got.1.as_str()), want);
    }
}

#[test]
fn facts_may_be_missing() {
    let mut f = facts();
    f.folder = None;
    f.participant_ids = Some("no list".to_string());
    f.message_count = None;
    f.updated_at = None;
    f.stored_messages = 1000;
    f.marked_complete = 0;
    f.is_archived = 1;
    f.is_group = 0;
    let d = describe_thread(&f);
    assert_eq!(d.folder, "unknown");
    assert_eq!(d.participant_count, 0);
    assert_eq!(d.volume_bucket, "1000_plus");
    assert_eq!(d.history_state, "incomplete");
    assert_eq!(d.archive_state, "archived");
    assert_eq!(d.thread_kind, "direct");
    assert_eq!(d.facets().len(), 6);
    let d = thread_dimensions(&f, "spam".to_string(), 30);
    assert_eq!(d.folder, "spam");
    assert_eq!(d.participant_bucket, "26_plus");
}

#[test]
fn statements_name_the_time() {
    let sql = message_category_statements(42);
    assert_eq!(sql.matches("1.0, 42 FROM message_dimensions").count(), 8);
    assert!(sql.contains("'message.kind', 'kind/' || lower(message_kind), 'derived'"));
    assert!(sql.ends_with(" WHERE sent_year IS NOT NULL;\n"));
    assert!(category_count_query(Some("time.sent")).contains("WHERE axis = ?1"));
    assert!(!category_count_query(None).contains("WHERE"));
}

#[test]
fn categorization_is_reported() {
    let summary = CategorizationSummary {
        threads: 1,
        messages: 2,
        category_nodes: 3,
        thread_assignments: 4,
        message_assignments: 5,
        axes: vec![("b".to_string(), 1), ("a".to_string(), 2)],
    };
    assert_eq!(
        summary.summary(),
        "categorized 1 threads and 2 messages into 3 taxonomy nodes (4 thread facets, 5 message facets)"
    );
    let counts = vec![CategoryCountRow {
        scope: "thread".to_string(),
        axis: "a".to_string(),
        path: "x".to_string(),
        count: 7,
    }];
    assert_eq!(
        json_text(&categorize_report(&summary, &counts)),
        "{\"counts\":[{\"axis\":\"a\",\"count\":7,\"path\":\"x\",\"scope\":\"thread\"}],\
         \"summary\":{\"axes\":{\"a\":2,\"b\":1},\"category_nodes\":3,\
         \"message_assignments\":5,\"messages\":2,\"thread_assignments\":4,\"threads\":1}}"
    );
}

#[test]
fn hours_lie_below_their_day_month_and_year() {
    let hour = time_path(1_710_000_000_000, TimeDepth::Hour).unwrap();
    let month = time_path(1_710_000_000_000, TimeDepth::Month).unwrap();
    let above = category_ancestors(&hour);
    assert_eq!(
        above,
        vec!["time", "time/2024", "time/2024/03", "time/2024/03/09", "time/2024/03/09/16"]
    );
    assert_eq!(above[2], month);
}
