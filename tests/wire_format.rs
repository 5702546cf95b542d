use retrofit::wire::{
    escape_text, field_values, parse_query_string, query_string, query_target_of, unescape_text, Field,
};

fn field(name: &str, value: &str) -> Field {
    Field { name: name.to_string(), value: value.to_string() }
}

#[test]
fn reserved_characters_are_escaped() {
    assert_eq!(escape_text("a b&c=d%e#f?g+h/i"), "a%20b%26c%3Dd%25e%23f%3Fg%2Bh%2Fi");
    assert_eq!(escape_text("\"Joe\""), "\"Joe\"");
    assert_eq!(escape_text(""), "");
}

#[test]
fn escaped_text_comes_back() {
    let s = "x = 1 & y = 50% / 2?";
    assert_eq!(unescape_text(&escape_text(s)), Some(s.to_string()));
    assert_eq!(unescape_text("%2"), None);
    assert_eq!(unescape_text("%41"), Some("A".to_string()));
    assert_eq!(unescape_text("plain"), Some("plain".to_string()));
}

#[test]
fn query_string_joins_fields() {
    let fields = vec![field("num1", "10"), field("num2", "100")];
    assert_eq!(query_string(&fields), "num1=10&num2=100");
    assert_eq!(query_string(&vec![]), "");
    assert_eq!(query_string(&vec![field("a&b", "c=d")]), "a%26b=c%3Dd");
}

#[test]
fn query_target_adds_the_query_only_with_fields() {
    assert_eq!(query_target_of("plus", &vec![field("num1", "10"), field("num2", "100")]), "/plus?num1=10&num2=100");
    assert_eq!(query_target_of("hello_world", &vec![]), "/hello_world");
}

#[test]
fn query_string_round_trip() {
    let fields = vec![field("name", "\"Gordon Shumway\""), field("num", "23"), field("odd&=", "%%")];
    let parsed = parse_query_string(&query_string(&fields)).unwrap();
    assert_eq!(parsed.len(), 3);
    for (a, b) in parsed.iter().zip(fields.iter()) {
        assert_eq!(a.name, b.name);
        assert_eq!(a.value, b.value);
    }
}

#[test]
fn malformed_query_strings_are_refused() {
    assert!(parse_query_string("a=1&&b=2").is_none());
    assert!(parse_query_string("novalue").is_none());
    assert!(parse_query_string("a=%zz").is_none());
    assert_eq!(parse_query_string("").unwrap().len(), 0);
}

#[test]
fn values_are_looked_up_by_name() {
    let fields = vec![field("b", "2"), field("a", "1"), field("a", "3")];
    let names = vec!["a".to_string(), "b".to_string()];
    assert_eq!(field_values(&fields, &names), Some(vec!["1".to_string(), "2".to_string()]));
    assert_eq!(field_values(&fields, &vec!["c".to_string()]), None);
    assert_eq!(field_values(&fields, &vec![]), Some(vec![]));
}

#[test]
fn any_percent_escape_is_decoded() {
    assert_eq!(unescape_text("%22Sheila%22"), Some("\"Sheila\"".to_string()));
    assert_eq!(unescape_text("%3d%2f"), Some("=/".to_string()));
    assert_eq!(unescape_text("%C3%A9t%C3%A9"), Some("\u{e9}t\u{e9}".to_string()));
    assert_eq!(unescape_text("\u{e9}"), Some("\u{e9}".to_string()));
    assert_eq!(unescape_text("%FF"), None);
    assert_eq!(unescape_text("%G1"), None);
    let parsed = parse_query_string("name=%22Sheila%22").unwrap();
    assert_eq!(parsed[0].value, "\"Sheila\"");
}
