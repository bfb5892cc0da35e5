use gemini_web2api::ids::{id_from, new_id};
use gemini_web2api::json::{parse_json, to_json_text, Json};
use gemini_web2api::pattern::{captures_group1, remove_all};

#[test]
fn json_text_round_trip() {
    let v = parse_json("{\"b\": [1, 2.5, \"x\", null, true], \"a\": {}}").unwrap();
    assert_eq!(to_json_text(&v), "{\"a\":{},\"b\":[1,2.5,\"x\",null,true]}");
    assert!(parse_json("{").is_none());
}

#[test]
fn json_builders() {
    assert_eq!(to_json_text(&Json::integer(-12)), "-12");
    assert_eq!(to_json_text(&Json::natural(18446744073709551615)), "18446744073709551615");
    assert_eq!(to_json_text(&Json::string("a\"b")), "\"a\\\"b\"");
    let mut o = parse_json("{\"k\":1}").unwrap();
    o.set("k", Json::Bool(false));
    o.set("n", Json::Null);
    assert_eq!(to_json_text(&o), "{\"k\":false,\"n\":null}");
}

#[test]
fn json_lookups() {
    let v = parse_json("{\"s\":\"t\",\"a\":[1,2],\"b\":true}").unwrap();
    assert_eq!(v.get_str("s"), Some("t"));
    assert_eq!(v.str_or("missing", "d"), "d");
    assert_eq!(v.get_array("a").map(|a| a.len()), Some(2));
    assert_eq!(v.get("b").and_then(|b| b.as_bool()), Some(true));
    assert!(v.get("a").unwrap().get_index(5).is_none());
    assert!(v.is_object());
}

#[test]
fn ids_have_prefix_and_hex_digits() {
    let id = new_id("chatcmpl-", 12);
    assert!(id.starts_with("chatcmpl-"));
    assert_eq!(id.len(), 21);
    assert!(id[9..].chars().all(|c| c.is_ascii_digit() || ('a'..='f').contains(&c)));
    assert_ne!(new_id("resp_", 16), new_id("resp_", 16));
    assert_eq!(id_from("msg_", "0123456789abcdef", 4), "msg_0123");
}

#[test]
fn regex_helpers() {
    assert_eq!(remove_all("\\d+", "a1b22c"), "abc");
    assert_eq!(remove_all("(", "left as is"), "left as is");
    assert_eq!(captures_group1("k=(\\w+)", "k=a, k=bb"), vec!["a".to_string(), "bb".to_string()]);
    assert!(captures_group1("(", "x").is_empty());
}
