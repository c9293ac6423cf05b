use fbm::browser::BrowserKind;
use fbm::cookies::BrowserCookie;
use fbm::json::{
    from_value, json_pretty_text, json_text, parse_json, string_list_len, to_value, Fields,
    JsonValue,
};
use fbm::number::{i64_text, parse_count, parse_i64, usize_text, IntError};
use fbm::order::{text_order, Order};
use fbm::parts::{join_all, split_at_char, text_lines, trimmed, trimmed_end, trimmed_start};
use fbm::sorted::put;
use fbm::text::{has_part, has_prefix, lowered, without_prefixes};

#[test]
fn numbers_are_written_and_read() {
    assert_eq!(i64_text(i64::MIN), "-9223372036854775808");
    assert_eq!(i64_text(0), "0");
    assert_eq!(usize_text(1024), "1024");
    for n in [i64::MIN, -1, 0, 7, i64::MAX] {
        assert_eq!(parse_i64(&i64_text(n)), Ok(n));
    }
    assert_eq!(parse_i64("+5"), Ok(5));
    assert_eq!(parse_i64(""), Err(IntError::Empty));
    assert_eq!(parse_i64("-"), Err(IntError::InvalidDigit));
    assert_eq!(parse_i64("9223372036854775808"), Err(IntError::TooLarge));
    assert_eq!(parse_i64("-9223372036854775809"), Err(IntError::TooSmall));
    assert_eq!(parse_count("x"), Err(IntError::InvalidDigit));
    assert_eq!(parse_count("12"), Ok(12));
    assert_eq!(IntError::Empty.text(), "cannot parse integer from empty string");
    assert_eq!(IntError::TooSmall.text(), "number too small to fit in target type");
}

#[test]
fn text_is_split_and_joined() {
    assert_eq!(split_at_char("a,,b", ','), vec!["a", "", "b"]);
    assert_eq!(split_at_char("", ','), vec![""]);
    assert_eq!(join_all(&split_at_char("a,,b", ','), ","), "a,,b");
    assert_eq!(text_lines("a\r\nb\n\nc"), vec!["a", "b", "", "c"]);
    assert_eq!(text_lines("a\n"), vec!["a"]);
    assert!(text_lines("").is_empty());
    assert_eq!(trimmed("\u{a0} x \t"), "x");
    assert_eq!(trimmed_start("  x "), "x ");
    assert_eq!(trimmed_end(" x \n"), " x");
}

#[test]
fn text_has_parts() {
    assert!(has_prefix("--config=x", "--config="));
    assert!(!has_prefix("--c", "--config="));
    assert!(has_part("abcd", "bc"));
    assert!(has_part("abcd", ""));
    assert!(!has_part("abcd", "ca"));
    assert_eq!(lowered("ABÄ"), "abÄ");
    assert_eq!(without_prefixes("xxy", "x"), "y");
    assert_eq!(text_order("a", "b"), Order::Before);
    assert_eq!(text_order("b", "ab"), Order::After);
    assert_eq!(text_order("a", "a"), Order::Same);
    assert_eq!(text_order("a", "aa"), Order::Before);
}

#[test]
fn browsers_have_names() {
    for kind in [
        BrowserKind::Auto,
        BrowserKind::Firefox,
        BrowserKind::Chrome,
        BrowserKind::Brave,
        BrowserKind::Edge,
        BrowserKind::Comet,
        BrowserKind::Chromium,
    ] {
        assert_eq!(BrowserKind::parse(kind.name()).unwrap(), kind);
        assert_eq!(BrowserKind::parse(&kind.name().to_uppercase()).unwrap(), kind);
    }
    assert_eq!(BrowserKind::default(), BrowserKind::Auto);
}

#[test]
fn json_is_read_and_written() {
    let text = "{\"b\":[1,-2.5,\"x\\n\"],\"a\":{\"c\":null,\"d\":true}}";
    let value = parse_json(text).unwrap();
    assert_eq!(json_text(&value), "{\"a\":{\"c\":null,\"d\":true},\"b\":[1,-2.5,\"x\\n\"]}");
    assert_eq!(
        json_pretty_text(&value),
        "{\n  \"a\": {\n    \"c\": null,\n    \"d\": true\n  },\n  \"b\": [\n    1,\n    -2.5,\n    \"x\\n\"\n  ]\n}"
    );
    assert_eq!(json_text(&from_value(to_value(&value))), json_text(&value));
    assert_eq!(json_text(&value.clone()), json_text(&value));
    assert_eq!(
        parse_json("{").err().unwrap(),
        "EOF while parsing an object at line 1 column 1"
    );
}

#[test]
fn json_objects_keep_the_last_of_a_name() {
    let value = JsonValue::Object(vec![
        ("b".to_string(), JsonValue::integer(1)),
        ("a".to_string(), JsonValue::integer(2)),
        ("b".to_string(), JsonValue::integer(3)),
    ]);
    assert_eq!(json_text(&value), "{\"a\":2,\"b\":3}");
    let mut fields = Fields::new();
    fields.add("z", JsonValue::count(7));
    fields.add("y", JsonValue::opt_integer(None));
    fields.add("x", JsonValue::opt_text(&Some("t".to_string())));
    let object = fields.object();
    assert_eq!(json_text(&object), "{\"x\":\"t\",\"y\":null,\"z\":7}");
    assert_eq!(object.get_str("x"), Some("t"));
    assert!(object.get("w").is_none());
    assert!(object.get_array("x").is_none());
    assert_eq!(string_list_len("[\"a\",\"b\"]"), 2);
    assert_eq!(string_list_len("[1]"), 0);
    assert_eq!(string_list_len(""), 0);
}

#[test]
fn items_are_put_in_their_place() {
    let cookie = |key: &str, value: &str| BrowserCookie {
        key: key.to_string(),
        name: None,
        value: value.to_string(),
        domain: String::new(),
        path: String::new(),
        expires: None,
        secure: None,
    };
    let mut list = Vec::new();
    put(&mut list, cookie("b", "1"));
    put(&mut list, cookie("a", "2"));
    put(&mut list, cookie("c", "3"));
    put(&mut list, cookie("b", "4"));
    let values: Vec<&str> = list.iter().map(|c| c.value.as_str()).collect();
    assert_eq!(values, vec!["2", "4", "3"]);
}
