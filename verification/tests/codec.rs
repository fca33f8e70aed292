use project_handoff::codec::{from_bytes, to_pretty, to_text};
use project_handoff::json::Json;

#[test]
fn text_round_trip() {
    let j = from_bytes(b"{\"b\":1,\"a\":[-2,null,true,1.50]}").unwrap();
    assert_eq!(to_text(&j).unwrap(), "{\"a\":[-2,null,true,1.5],\"b\":1}");
}

#[test]
fn numbers_are_read_by_their_kind() {
    let read = from_bytes(b"[0, 18446744073709551615, -1, 1.50, 1e2]").unwrap();
    match &read {
        Json::Array(items) => {
            assert!(matches!(items[0], Json::Unsigned(0)));
            assert!(matches!(items[1], Json::Unsigned(u64::MAX)));
            assert!(matches!(items[2], Json::Negative(-1)));
            assert!(matches!(&items[3], Json::Float(text) if text == "1.5"));
            assert!(matches!(&items[4], Json::Float(text) if text == "100.0"));
        }
        other => panic!("{other:?}"),
    }
    assert_eq!(to_text(&read).unwrap(), "[0,18446744073709551615,-1,1.5,100.0]");
    assert_eq!(to_text(&Json::Negative(5)).unwrap(), "5");
    assert!(to_text(&Json::Float("many".to_string())).is_none());
}

#[test]
fn members_are_printed_as_given_and_read_in_order() {
    let value = Json::Object(vec![
        ("b".to_string(), Json::Unsigned(1)),
        ("a".to_string(), Json::Null),
        ("b".to_string(), Json::Bool(true)),
    ]);
    assert_eq!(to_text(&value).unwrap(), "{\"b\":true,\"a\":null}");
    assert_eq!(to_pretty(&value).unwrap(), b"{\n  \"b\": true,\n  \"a\": null\n}");
    let read = from_bytes(b"{\"b\":1,\"a\":\"\\u00e9\"}").unwrap();
    assert_eq!(to_text(&read).unwrap(), "{\"a\":\"\u{e9}\",\"b\":1}");
    assert!(from_bytes(b"{\"b\":}").is_none());
    assert!(from_bytes(&[0xff]).is_none());
}

fn members(names: &[(&str, Json)]) -> Json {
    Json::Object(names.iter().map(|(k, v)| (k.to_string(), v.clone())).collect())
}

#[test]
fn order_of_members_does_not_matter_for_equality() {
    let a = members(&[
        ("a", Json::Unsigned(1)),
        ("b", members(&[("x", Json::Null), ("y", Json::Bool(true))])),
    ]);
    let b = members(&[
        ("b", members(&[("y", Json::Bool(true)), ("x", Json::Null)])),
        ("a", Json::Unsigned(1)),
    ]);
    assert!(a.equals(&b));
    assert!(b.equals(&a));
    assert!(!a.equals(&members(&[("a", Json::Unsigned(1))])));
    assert!(!a.equals(&members(&[("a", Json::Unsigned(1)), ("b", Json::Null)])));
    let list = |items: Vec<Json>| Json::Array(items);
    assert!(!list(vec![Json::Null, Json::Bool(true)])
        .equals(&list(vec![Json::Bool(true), Json::Null])));
    let float = |text: &str| Json::Float(text.to_string());
    assert!(float("1.50").equals(&float("1.5")));
    assert!(float("-0.0").equals(&float("0.0")));
    assert!(!float("1.0").equals(&Json::Unsigned(1)));
}

#[test]
fn member_is_replaced_wherever_it_stood() {
    let mut value = members(&[("type", Json::Null), ("source", Json::Bool(false))]);
    value.set_member("source", Json::Bool(true));
    assert_eq!(to_text(&value).unwrap(), "{\"source\":true,\"type\":null}");
}
