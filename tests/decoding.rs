use mud::cli::{failure_report, report_from_fields};
use mud::diagnostic::ScriptFault;
use mud::payload::{handle_script_error, ERROR_FALLBACK};

#[test]
fn report_of_payload_with_line() {
    let json = handle_script_error(
        ScriptFault::MissingEndQuotes { line: Some(3) },
        String::new(),
        String::new(),
    );
    assert_eq!(
        failure_report(&json),
        Some("Traceback (most recent call last):\n  Line 3: Error: missing end quotes".to_string())
    );
}

#[test]
fn report_of_payload_without_line() {
    let json = handle_script_error(ScriptFault::Other, String::new(), String::new());
    assert_eq!(failure_report(&json), Some("Error: Unknown error occurred".to_string()));
}

#[test]
fn report_of_any_json_object() {
    assert_eq!(failure_report("{\"message\":\"x\"}"), Some("Error: x".to_string()));
    assert_eq!(
        failure_report("{\"line\":4}"),
        Some("Traceback (most recent call last):\n  Line 4: Unknown error".to_string())
    );
    assert_eq!(failure_report("[1, 2]"), Some("Error: Unknown error".to_string()));
}

#[test]
fn report_of_fallback_and_of_other_text() {
    assert_eq!(failure_report(ERROR_FALLBACK), Some("Error: Failed to serialize error".to_string()));
    assert_eq!(failure_report("join error"), None);
}

#[test]
fn report_from_given_fields() {
    assert_eq!(report_from_fields(None), None);
    assert_eq!(
        report_from_fields(Some((Some("m".to_string()), Some(7)))),
        Some("Traceback (most recent call last):\n  Line 7: m".to_string())
    );
    assert_eq!(report_from_fields(Some((None, Some(-1)))), Some("Error: Unknown error".to_string()));
}

#[test]
fn failure_payload_reads_back_through_a_json_reader() {
    let stdout = "a \"quoted\" \\ line\n\ttab \u{1} \u{1f} é ✓".to_string();
    let stderr = "\r\u{8}\u{c}/".to_string();
    let json = handle_script_error(
        ScriptFault::Runtime { message: "division by zero".to_string(), line: Some(7) },
        stderr.clone(),
        stdout.clone(),
    );
    let v: serde_json::Value = serde_json::from_str(&json).unwrap();
    assert_eq!(v.as_object().unwrap().len(), 4);
    assert_eq!(v["stdout"], stdout.as_str());
    assert_eq!(v["stderr"], stderr.as_str());
    assert_eq!(v["message"], "Runtime Error: division by zero");
    assert_eq!(v["line"], 7);
}
