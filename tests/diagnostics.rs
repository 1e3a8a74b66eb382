use mud::diagnostic::{translate, ScriptFault};
use mud::payload::{handle_script_error, ERROR_FALLBACK};

#[test]
fn missing_end_quotes_on_line_three() {
    let d = translate(&ScriptFault::MissingEndQuotes { line: Some(3) });
    assert_eq!(d.message, "Error: missing end quotes");
    assert_eq!(d.line, Some(3));
}

#[test]
fn runtime_error_keeps_message_and_line() {
    let d = translate(&ScriptFault::Runtime {
        message: "division by zero".to_string(),
        line: Some(7),
    });
    assert_eq!(d.message, "Runtime Error: division by zero");
    assert_eq!(d.line, Some(7));
}

#[test]
fn runtime_error_without_line() {
    let d = translate(&ScriptFault::Runtime { message: "boom".to_string(), line: None });
    assert_eq!(d.message, "Runtime Error: boom");
    assert_eq!(d.line, None);
}

#[test]
fn unknown_kind_has_no_line() {
    let d = translate(&ScriptFault::Other);
    assert_eq!(d.message, "Unknown error occurred");
    assert_eq!(d.line, None);
}

#[test]
fn every_structural_kind_has_its_message() {
    let cases = vec![
        (
            ScriptFault::PreProcessNoCommandFound { line: Some(1) },
            "PreProcessor Error: preprocessor is missing a command",
        ),
        (
            ScriptFault::ControlWithoutValidValue { line: Some(2) },
            "Error: control character found without a valid value",
        ),
        (
            ScriptFault::InvalidControlLocation { line: Some(3) },
            "Error: invalid control character location",
        ),
        (ScriptFault::MissingEndQuotes { line: Some(4) }, "Error: missing end quotes"),
        (ScriptFault::MissingOutputVariableName { line: Some(5) }, "Error: missing variable name"),
        (ScriptFault::InvalidEqualsLocation { line: Some(6) }, "Error: invalid equals sign location"),
        (ScriptFault::InvalidQuotesLocation { line: Some(7) }, "Error: invalid quotes location"),
        (ScriptFault::EmptyLabel { line: Some(8) }, "Error: empty label found"),
        (
            ScriptFault::UnknownPreProcessorCommand { line: Some(9) },
            "Error: unknown preprocessor command",
        ),
    ];
    for (i, (fault, message)) in cases.into_iter().enumerate() {
        let d = translate(&fault);
        assert_eq!(d.message, message);
        assert_eq!(d.line, Some(i + 1));
    }
}

#[test]
fn failure_payload_for_missing_quotes() {
    let json = handle_script_error(
        ScriptFault::MissingEndQuotes { line: Some(3) },
        "err".to_string(),
        "out".to_string(),
    );
    assert_eq!(
        json,
        "{\"stdout\":\"out\",\"stderr\":\"err\",\"message\":\"Error: missing end quotes\",\"line\":3}"
    );
}

#[test]
fn failure_payload_for_runtime_error() {
    let json = handle_script_error(
        ScriptFault::Runtime { message: "division by zero".to_string(), line: Some(7) },
        String::new(),
        "partial\n".to_string(),
    );
    let v: serde_json::Value = serde_json::from_str(&json).unwrap();
    assert_eq!(v["message"], "Runtime Error: division by zero");
    assert_eq!(v["line"], 7);
    assert_eq!(v["stdout"], "partial\n");
    assert_eq!(v["stderr"], "");
}

#[test]
fn failure_payload_for_unknown_kind_has_null_line() {
    let json = handle_script_error(ScriptFault::Other, String::new(), String::new());
    assert_eq!(
        json,
        "{\"stdout\":\"\",\"stderr\":\"\",\"message\":\"Unknown error occurred\",\"line\":null}"
    );
    let v: serde_json::Value = serde_json::from_str(&json).unwrap();
    assert!(v["line"].is_null());
}

#[test]
fn error_fallback_is_parseable() {
    let v: serde_json::Value = serde_json::from_str(ERROR_FALLBACK).unwrap();
    assert_eq!(v["message"], "Failed to serialize error");
    assert!(v["line"].is_null());
}
