use fbm::bridge::{
    bridge_context, bridge_failure, bridge_reply, check_envelope, message_line, reply_line,
    send_request, BridgeEnvelope, ListenAction, Listener,
};
use fbm::config::{AuthConfig, Config, DatabaseConfig};
use fbm::export::{
    attach_messages, export_content, export_markdown, export_query, exported_note,
    stored_thread_id, takes_fields,
};
use fbm::cli::ExportFormat;
use fbm::json::{json_text, parse_json, JsonValue};
use fbm::records::MessageRecord;
use std::collections::BTreeMap;

fn config() -> Config {
    Config {
        fca_dir: "/fca".to_string(),
        appstate: None,
        auth: AuthConfig::default(),
        database: DatabaseConfig { path: "/db".to_string(), remote_url: None, auth_token: None },
    }
}

fn message() -> MessageRecord {
    MessageRecord {
        message_id: "m1".to_string(),
        thread_id: "t1".to_string(),
        sender_id: None,
        body: Some("hello".to_string()),
        timestamp: Some("1710000000000".to_string()),
        attachments: vec![],
        mentions: JsonValue::Null,
        reactions: vec![],
        is_unread: None,
        is_group: None,
        kind: None,
        raw_extra: BTreeMap::new(),
    }
}

fn envelope(ok: bool, command: &str) -> Option<BridgeEnvelope> {
    Some(BridgeEnvelope {
        ok,
        command: command.to_string(),
        data: JsonValue::Object(vec![("x".to_string(), JsonValue::integer(1))]),
    })
}

#[test]
fn the_bridge_is_told_its_context() {
    assert_eq!(
        json_text(&bridge_context(&config(), "/app.json")),
        "{\"appstate\":\"/app.json\",\"fcaDir\":\"/fca\",\"options\":{\"autoMarkRead\":false,\
         \"autoReconnect\":true,\"listenEvents\":true,\"online\":true,\"randomUserAgent\":false,\
         \"selfListen\":false,\"updatePresence\":false}}"
    );
    assert_eq!(
        json_text(&send_request("t", "hi", &None)),
        "{\"body\":\"hi\",\"replyTo\":null,\"threadID\":\"t\"}"
    );
}

#[test]
fn the_answer_is_the_last_object() {
    assert_eq!(reply_line("log\n{\"a\":1}\n  {\"b\":2}\r\ndone\n").unwrap(), "  {\"b\":2}");
    assert_eq!(
        reply_line("nothing\n").err().unwrap().message,
        "bridge produced no JSON output"
    );
    assert_eq!(reply_line("").err().unwrap().message, "bridge produced no JSON output");
}

#[test]
fn calls_fail_with_their_complaints() {
    assert_eq!(
        bridge_reply("me", false, vec![], b"  no login \xff\n").err().unwrap().message,
        "bridge failed (me): no login \u{fffd}"
    );
    assert_eq!(bridge_reply("me", true, b"{}\n".to_vec(), b"").unwrap(), "{}");
    assert_eq!(
        bridge_reply("me", true, vec![b'{', 0xc3], b"").err().unwrap().message,
        "incomplete utf-8 byte sequence from index 1"
    );
    assert_eq!(bridge_failure("send", " x ").message, "bridge failed (send): x");
}

#[test]
fn answers_may_be_errors() {
    assert!(check_envelope("me", &envelope(true, "me").unwrap()).is_ok());
    assert_eq!(
        check_envelope("me", &envelope(false, "me").unwrap()).err().unwrap().message,
        "bridge error (me): {\"x\":1}"
    );
}

#[test]
fn listening_stores_shows_and_stops() {
    let mut listener = Listener::new(Some(2));
    assert!(matches!(listener.take("  ", &None, &None), ListenAction::Skip));
    match listener.take("oops", &None, &None) {
        ListenAction::Complain(text) => assert_eq!(text, "bridge: oops"),
        other => panic!("{other:?}"),
    }
    match listener.take("{}", &envelope(true, "ready"), &Some(message())) {
        ListenAction::Show(text) => assert_eq!(text, "{\"x\":1}"),
        other => panic!("{other:?}"),
    }
    match listener.take("{}", &envelope(true, "event"), &None) {
        ListenAction::Show(text) => assert_eq!(text, "{\"x\":1}"),
        other => panic!("{other:?}"),
    }
    assert!(!listener.done());
    match listener.take("{}", &envelope(true, "event"), &Some(message())) {
        ListenAction::Store(text) => assert_eq!(text, "[2024-03-09 16:00:00 UTC] t1: hello"),
        other => panic!("{other:?}"),
    }
    assert!(!listener.done());
    match listener.take("{}", &envelope(false, "event"), &Some(message())) {
        ListenAction::Fail(e) => assert_eq!(e.message, "bridge error: {\"x\":1}"),
        other => panic!("{other:?}"),
    }
    let second = listener.take("{}", &envelope(true, "event"), &Some(message()));
    assert!(matches!(second, ListenAction::Store(_)));
    assert!(listener.done());
}

#[test]
fn nothing_is_stored_behind_the_limit() {
    let mut listener = Listener::new(Some(1));
    let event = envelope(true, "event");
    assert!(matches!(listener.take("{}", &event, &Some(message())), ListenAction::Store(_)));
    assert!(matches!(listener.take("{}", &event, &Some(message())), ListenAction::Stop));
    assert!(matches!(listener.take("oops", &None, &None), ListenAction::Stop));
    assert!(matches!(listener.take("", &None, &None), ListenAction::Stop));
}

#[test]
fn a_limit_of_none_at_all_stores_nothing() {
    let mut listener = Listener::new(Some(0));
    assert!(listener.done());
    assert!(listener.has_room());
    let event = envelope(true, "event");
    assert!(matches!(listener.take("{}", &event, &Some(message())), ListenAction::Stop));
    assert!(matches!(listener.take("{}", &envelope(false, "x"), &None), ListenAction::Stop));
    assert!(listener.done());
}

#[test]
fn without_a_limit_listening_goes_on() {
    let mut forever = Listener::new(None);
    for _ in 0..3 {
        let event = envelope(true, "event");
        assert!(matches!(forever.take("{}", &event, &Some(message())), ListenAction::Store(_)));
        assert!(!forever.done());
        assert!(forever.has_room());
    }
}

#[test]
fn message_lines_are_cut() {
    let mut m = message();
    m.body = Some("x".repeat(121));
    m.timestamp = None;
    assert_eq!(message_line(&m), format!("[] t1: {}…", "x".repeat(120)));
}

#[test]
fn exports_ask_for_the_wanted_threads() {
    assert_eq!(
        export_query(Some("t")),
        "SELECT raw_json FROM threads WHERE thread_id = ?1 ORDER BY COALESCE(updated_at, 0) DESC"
    );
    assert_eq!(
        export_query(None),
        "SELECT raw_json FROM threads ORDER BY COALESCE(updated_at, 0) DESC"
    );
    assert_eq!(exported_note("/x.md"), "exported /x.md");
}

#[test]
fn messages_are_attached_to_threads() {
    let thread = parse_json("{\"threadID\":\"t1\",\"messages\":3,\"z\":true}").unwrap();
    assert_eq!(stored_thread_id(&thread), "t1");
    assert!(takes_fields(&thread));
    let whole = attach_messages(thread, vec![JsonValue::integer(7)]);
    assert_eq!(json_text(&whole), "{\"messages\":[7],\"threadID\":\"t1\",\"z\":true}");
    let fresh = attach_messages(parse_json("{\"threadID\":5}").unwrap(), vec![]);
    assert_eq!(json_text(&fresh), "{\"messages\":[],\"threadID\":5}");
    assert_eq!(stored_thread_id(&fresh), "");
    assert_eq!(json_text(&attach_messages(JsonValue::Null, vec![])), "{\"messages\":[]}");
    assert!(!takes_fields(&JsonValue::integer(1)));
}

fn threads() -> Vec<JsonValue> {
    let first = parse_json(
        "{\"threadID\":\"t1\",\"threadName\":\"Friends\",\"messages\":[\
         {\"timestamp\":\"1710000000000\",\"senderID\":\"u1\",\"body\":\"hi\"},{\"body\":4}]}",
    )
    .unwrap();
    let second = parse_json("{\"threadName\":null,\"name\":\"N\"}").unwrap();
    let third = parse_json("{\"threadID\":\"t3\",\"name\":\"Raw\"}").unwrap();
    vec![first, second, third]
}

#[test]
fn exports_are_written_as_markdown() {
    let expected = "# Facebook Messenger export\n\n\
                    ## Friends (`t1`)\n\n\
                    - **2024-03-09 16:00:00 UTC** `u1`: hi\n\
                    - **** ``: \n\n\
                    ## unknown (`unknown`)\n\n\n\
                    ## Raw (`t3`)\n\n\n";
    assert_eq!(export_markdown(&threads()), expected);
    assert_eq!(export_content(ExportFormat::Markdown, 1, threads()), expected);
}

#[test]
fn exports_are_written_as_json() {
    assert_eq!(
        export_content(ExportFormat::Json, 5, vec![parse_json("{\"b\":1,\"a\":[]}").unwrap()]),
        "{\n  \"exported_at\": 5,\n  \"threads\": [\n    {\n      \"a\": [],\n      \"b\": 1\n    }\n  ]\n}"
    );
}
