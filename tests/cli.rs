use mud::cli::{error_report, script_text, select_script_source, ScriptSource, ScriptState, NO_SCRIPT_FALLBACK};

#[test]
fn file_wins_over_code() {
    let s = select_script_source(Some("a.ds".to_string()), Some("echo hi".to_string()));
    assert!(matches!(s, ScriptSource::File(ref p) if p == "a.ds"));
}

#[test]
fn code_when_no_file() {
    let s = select_script_source(None, Some("echo hi".to_string()));
    assert!(matches!(s, ScriptSource::Inline(ref c) if c == "echo hi"));
    assert_eq!(script_text(s, Err(String::new())), "echo hi");
}

#[test]
fn fallback_when_nothing_given() {
    let s = select_script_source(None, None);
    assert!(matches!(s, ScriptSource::Fallback));
    assert_eq!(script_text(s, Ok(String::new())), NO_SCRIPT_FALLBACK);
    assert_eq!(NO_SCRIPT_FALLBACK, "echo \"NO VALID MUD PROVIDED\"");
}

#[test]
fn file_text_or_read_failure() {
    let f = || ScriptSource::File("x".to_string());
    assert_eq!(script_text(f(), Ok("out a".to_string())), "out a");
    assert_eq!(
        script_text(f(), Err("No such file".to_string())),
        "echo \"FAILED TO READ FILE: No such file\""
    );
}

#[test]
fn report_with_line() {
    assert_eq!(
        error_report(Some("Error: missing end quotes".to_string()), Some(3)),
        "Traceback (most recent call last):\n  Line 3: Error: missing end quotes"
    );
}

#[test]
fn report_without_line() {
    assert_eq!(error_report(Some("Unknown error occurred".to_string()), None), "Error: Unknown error occurred");
    assert_eq!(error_report(None, Some(-1)), "Error: Unknown error");
    assert_eq!(
        error_report(None, Some(i64::MIN)),
        "Traceback (most recent call last):\n  Line -9223372036854775808: Unknown error"
    );
}

#[test]
fn script_state_is_taken_once() {
    let mut st = ScriptState(Some("echo 1".to_string()));
    assert_eq!(st.take_script(), Some("echo 1".to_string()));
    assert_eq!(st.take_script(), None);
}
