use mud::payload::{decimal_text, ScriptErrorResponse, ScriptResponse, RESPONSE_FALLBACK};

#[test]
fn decimal_text_of_numbers() {
    assert_eq!(decimal_text(0), "0");
    assert_eq!(decimal_text(7), "7");
    assert_eq!(decimal_text(10), "10");
    assert_eq!(decimal_text(1234567890), "1234567890");
    assert_eq!(decimal_text(u64::MAX), "18446744073709551615");
}

#[test]
fn success_payload_is_exact() {
    let r = ScriptResponse::new(
        "hello\n".to_string(),
        String::new(),
        vec![("a".to_string(), "1".to_string()), ("b".to_string(), "two".to_string())],
    );
    assert_eq!(
        r.to_json(),
        "{\"stdout\":\"hello\\n\",\"stderr\":\"\",\"variables\":{\"a\":\"1\",\"b\":\"two\"}}"
    );
}

#[test]
fn success_payload_with_no_variables() {
    let r = ScriptResponse::new(String::new(), String::new(), Vec::new());
    assert_eq!(r.to_json(), "{\"stdout\":\"\",\"stderr\":\"\",\"variables\":{}}");
}

#[test]
fn success_payload_holds_exactly_the_variables() {
    let vars = vec![
        ("x".to_string(), "1".to_string()),
        ("name".to_string(), "mud".to_string()),
        ("empty".to_string(), String::new()),
    ];
    let r = ScriptResponse::new("o".to_string(), "e".to_string(), vars.clone());
    let v: serde_json::Value = serde_json::from_str(&r.to_json()).unwrap();
    let map = v["variables"].as_object().unwrap();
    assert_eq!(map.len(), vars.len());
    for (k, val) in &vars {
        assert_eq!(map[k], val.as_str());
    }
}

#[test]
fn strings_are_escaped_as_serde_json_does() {
    let text = "q\" b\\ \u{8}\t\n\u{c}\r \u{1} \u{1f} é \u{7f}".to_string();
    let r = ScriptErrorResponse {
        stdout: text.clone(),
        stderr: String::new(),
        message: "m".to_string(),
        line: None,
    };
    let json = r.to_json();
    assert!(json.starts_with(&format!("{{\"stdout\":{},", serde_json::to_string(&text).unwrap())));
    assert!(json.contains("\\u0001"));
    assert!(json.contains("\\u001f"));
}

#[test]
fn failure_round_trip_through_a_json_reader() {
    let r = ScriptErrorResponse {
        stdout: "line one\nline \"two\"\n".to_string(),
        stderr: "tab\there \u{2} ünïcödé".to_string(),
        message: "Runtime Error: x \\ y".to_string(),
        line: Some(42),
    };
    let v: serde_json::Value = serde_json::from_str(&r.to_json()).unwrap();
    assert_eq!(v["stdout"], r.stdout.as_str());
    assert_eq!(v["stderr"], r.stderr.as_str());
    assert_eq!(v["message"], r.message.as_str());
    assert_eq!(v["line"], 42);
}

#[test]
fn success_round_trip_through_a_json_reader() {
    let r = ScriptResponse::new(
        "out \u{1b}[0m".to_string(),
        "err\r\n".to_string(),
        vec![("k\"ey".to_string(), "va\\lue".to_string())],
    );
    let v: serde_json::Value = serde_json::from_str(&r.to_json()).unwrap();
    assert_eq!(v["stdout"], "out \u{1b}[0m");
    assert_eq!(v["stderr"], "err\r\n");
    assert_eq!(v["variables"]["k\"ey"], "va\\lue");
}

#[test]
fn response_fallback_is_parseable() {
    let v: serde_json::Value = serde_json::from_str(RESPONSE_FALLBACK).unwrap();
    assert_eq!(v["message"], "Failed to serialize response");
}
