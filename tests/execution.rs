use mud::capture::OutputCapture;
use mud::diagnostic::ScriptFault;
use mud::execution::{finish_run, settle, Outcome, RelayEnd};

#[test]
fn finished_run_gives_success_payload() {
    let mut c = OutputCapture::new();
    c.write_stdout(b"hi\n", false);
    let r = finish_run(&c, Ok(vec![("n".to_string(), "5".to_string())]));
    assert_eq!(
        r,
        Ok("{\"stdout\":\"hi\\n\",\"stderr\":\"\",\"variables\":{\"n\":\"5\"}}".to_string())
    );
}

#[test]
fn failed_run_gives_failure_payload() {
    let mut c = OutputCapture::new();
    c.write_stdout(b"so far", false);
    c.write_stderr(b"warn", false);
    let r = finish_run(&c, Err(ScriptFault::EmptyLabel { line: Some(2) }));
    assert_eq!(
        r,
        Err("{\"stdout\":\"so far\",\"stderr\":\"warn\",\"message\":\"Error: empty label found\",\"line\":2}"
            .to_string())
    );
}

#[test]
fn success_completes_despite_late_cancellation() {
    let o = settle(Ok(Ok("{}".to_string())), Ok(RelayEnd::Cancelled), Ok(RelayEnd::Drained));
    assert!(matches!(o, Outcome::Completed(ref j) if j == "{}"));
}

#[test]
fn failure_after_cancellation_is_cancelled() {
    let o = settle(Ok(Err("e".to_string())), Ok(RelayEnd::Drained), Ok(RelayEnd::Cancelled));
    assert!(matches!(o, Outcome::Cancelled(ref j) if j == "e"));
}

#[test]
fn failure_without_cancellation_is_a_fault() {
    let o = settle(Ok(Err("e".to_string())), Ok(RelayEnd::Drained), Ok(RelayEnd::Drained));
    assert!(matches!(o, Outcome::Faulted(ref j) if j == "e"));
}

#[test]
fn join_failures_fault_in_order() {
    let o = settle(Err("runner".to_string()), Err("out".to_string()), Ok(RelayEnd::Drained));
    assert!(matches!(o, Outcome::Faulted(ref j) if j == "runner"));
    let o = settle(Ok(Ok("{}".to_string())), Err("out".to_string()), Err("err".to_string()));
    assert!(matches!(o, Outcome::Faulted(ref j) if j == "out"));
    let o = settle(Ok(Ok("{}".to_string())), Ok(RelayEnd::Drained), Err("err".to_string()));
    assert!(matches!(o, Outcome::Faulted(ref j) if j == "err"));
}
