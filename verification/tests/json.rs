use cherenkov::json::{self, parse, Json};

fn read(text: &str) -> Json {
    parse(text.as_bytes()).unwrap_or_else(|e| panic!("{e}"))
}

fn shown(value: &Json) -> String {
    String::from_utf8(json::write(value).unwrap()).unwrap()
}

#[test]
fn what_is_written_is_read_back() {
    let text = r#"{"a":[1,-2,3.5,true,null],"b":{"c":"é\n"}}"#;
    let value = read(text);
    assert_eq!(shown(&value), text);
    assert_eq!(shown(&read(&shown(&value))), text);
}

#[test]
fn written_text_holds_no_line_feed() {
    let value = Json::object().with("k", Json::text("a\nb\r\n"));
    assert!(!json::write(&value).unwrap().contains(&b'\n'));
    assert_eq!(shown(&value), r#"{"k":"a\nb\r\n"}"#);
}

#[test]
fn later_keys_replace_earlier_ones() {
    let value = read(r#"{"a":1,"a":2}"#);
    assert_eq!(value.get("a").unwrap().as_u64(), Some(2));
    let mut own = Json::object();
    own.put("x", Json::unsigned(1));
    own.put("x", Json::unsigned(7));
    assert_eq!(shown(&own), r#"{"x":7}"#);
}

#[test]
fn numbers_are_told_apart() {
    assert_eq!(read("18446744073709551615").as_u64(), Some(u64::MAX));
    assert_eq!(read("-1").as_u64(), None);
    assert_eq!(read("1.0").as_u64(), None);
    assert_eq!(f64::from_bits(read("1.5").as_real().unwrap().bits), 1.5);
    assert_eq!(f64::from_bits(read("-3").as_real().unwrap().bits), -3.0);
    assert_eq!(f64::from_bits(read("9").as_real().unwrap().bits), 9.0);
    assert!(read("\"1\"").as_real().is_none());
    assert!(read("1").is_number(true) && read("1.0").is_number(true) && !read("1").is_number(false));
    assert!(read("0").is_number(false) && read("-0.0").is_number(false) && !read("0.5").is_number(false));
    assert!(!read("null").is_number(false) && !read("\"0\"").is_number(false));
}

#[test]
fn members_are_looked_up() {
    let value = read(r#"{"n":null,"t":"x","b":true,"o":{"type":"text"}}"#);
    assert!(value.is_object() && !value.get("t").unwrap().is_object());
    assert!(value.null_at("n") && value.null_at("absent") && !value.null_at("t"));
    assert_eq!(value.text_at("t"), Some("x"));
    assert_eq!(value.text_at("b"), None);
    assert_eq!(value.get("b").unwrap().as_bool(), Some(true));
    assert_eq!(value.get("t").unwrap().as_bool(), None);
    assert!(value.get("o").unwrap().holds_only("type", "text"));
    assert!(!value.get("o").unwrap().holds_only("type", "json"));
    assert!(!read(r#"{"type":"text","x":1}"#).holds_only("type", "text"));
    assert!(value.get("t").unwrap().is_text("x") && !value.get("b").unwrap().is_text("x"));
    assert!(value.get("n").unwrap().is_null());
    assert!(read("[1]").get("n").is_none());
}

#[test]
fn a_copy_is_the_same_document() {
    let value = read(r#"{"a":[{"b":1.25},"c"]}"#);
    assert_eq!(shown(&value.copy()), shown(&value));
}

#[test]
fn broken_documents_are_refused() {
    for text in ["", "{", "[1,]", "nul", "{\"a\":1} x"] {
        assert_eq!(
            parse(text.as_bytes()).err().unwrap(),
            serde_json::from_slice::<serde_json::Value>(text.as_bytes()).err().unwrap().to_string()
        );
    }
}
