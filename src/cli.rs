//! Command-line use: which script to run, and how a failure is reported on
//! the terminal.

use crate::payload::{append_decimal, decimal};
use vstd::prelude::*;
use vstd::string::*;

verus! {

/// Run when neither a file nor inline code was given.
pub const NO_SCRIPT_FALLBACK: &'static str = "echo \"NO VALID MUD PROVIDED\"";

/// A script handed over from the command line, taken at most once.
pub struct ScriptState(pub Option<String>);

impl ScriptState {
    /// Takes the script out, leaving none behind.
    pub fn take_script(&mut self) -> (r: Option<String>)
        ensures
            r == old(self).0,
            final(self).0 is None,
    {
        self.0.take()
    }
}

/// Where the script to run comes from.
pub enum ScriptSource {
    File(String),
    Inline(String),
    Fallback,
}

/// Picks the source: a file path given as text wins over inline code given as
/// text; with neither the fallback script runs.
pub fn select_script_source(file: Option<String>, code: Option<String>) -> (r: ScriptSource)
    ensures
        file matches Some(p) ==> r == ScriptSource::File(p),
        file is None ==> (code matches Some(c) ==> r == ScriptSource::Inline(c)),
        file is None && code is None ==> r == ScriptSource::Fallback,
{
    match file {
        Some(p) => ScriptSource::File(p),
        None => match code {
            Some(c) => ScriptSource::Inline(c),
            None => ScriptSource::Fallback,
        },
    }
}

/// The script text for a source; `file_text` is what reading the file gave
/// (its text, or the text of the read error), and is not looked at otherwise.
pub fn script_text(source: ScriptSource, file_text: Result<String, String>) -> (r: String)
    ensures
        source matches ScriptSource::Inline(c) ==> r@ == c@,
        source is Fallback ==> r@ == NO_SCRIPT_FALLBACK@,
        source is File ==> (file_text matches Ok(t) ==> r@ == t@),
        source is File ==> (file_text matches Err(e) ==> r@ == "echo \"FAILED TO READ FILE: "@
            + e@ + "\""@),
{
    match source {
        ScriptSource::Inline(c) => c,
        ScriptSource::Fallback => String::from_str(NO_SCRIPT_FALLBACK),
        ScriptSource::File(_) => match file_text {
            Ok(t) => t,
            Err(e) => {
                let mut out = String::from_str("echo \"FAILED TO READ FILE: ");
                out.append(e.as_str());
                out.append("\"");
                out
            },
        },
    }
}

/// The text of a whole number, with a minus sign where it is negative.
pub open spec fn signed_decimal(n: i64) -> Seq<char> {
    if n < 0 {
        "-"@ + decimal((-(n as int)) as nat)
    } else {
        decimal(n as nat)
    }
}

/// The report of a failed run: a traceback naming the line where one is known
/// (a line of -1 stands for none), else the message alone.
pub open spec fn report_text(message: Seq<char>, line: i64) -> Seq<char> {
    if line != -1 {
        "Traceback (most recent call last):\n  Line "@ + signed_decimal(line) + ": "@ + message
    } else {
        "Error: "@ + message
    }
}

/// The report of a failed run; a missing message reads "Unknown error" and a
/// missing line stands for none.
pub fn error_report(message: Option<String>, line: Option<i64>) -> (r: String)
    ensures
        r@ == report_text(
            match message {
                Some(t) => t@,
                None => "Unknown error"@,
            },
            match line {
                Some(n) => n,
                None => -1i64,
            },
        ),
{
    let m = match message {
        Some(t) => t,
        None => String::from_str("Unknown error"),
    };
    let l: i64 = match line {
        Some(n) => n,
        None => -1,
    };
    if l != -1 {
        let mut out = String::from_str("Traceback (most recent call last):\n  Line ");
        if l < 0 {
            out.append("-");
            let magnitude: u64 = if l == i64::MIN {
                9223372036854775808u64
            } else {
                (-l) as u64
            };
            append_decimal(&mut out, magnitude);
        } else {
            append_decimal(&mut out, l as u64);
        }
        out.append(": ");
        out.append(m.as_str());
        out
    } else {
        let mut out = String::from_str("Error: ");
        out.append(m.as_str());
        out
    }
}

pub open spec fn text_of(m: Option<String>) -> Option<Seq<char>> {
    match m {
        Some(t) => Some(t@),
        None => None,
    }
}

/// What a failure text holds where it is JSON: its "message" where that is a
/// string, and its "line" where that is a whole number that fits an `i64`;
/// none where the text is not JSON.
pub uninterp spec fn report_fields_of(t: Seq<char>) -> Option<(Option<Seq<char>>, Option<i64>)>;

/// Relies on serde_json::from_str into a Value, and on Value::get, as_str and
/// as_i64 to pick the two fields; the result depends on the text alone.
#[verifier::external_body]
fn parse_report_fields(t: &str) -> (r: Option<(Option<String>, Option<i64>)>)
    ensures
        r is None ==> report_fields_of(t@) is None,
        r matches Some((m, l)) ==> report_fields_of(t@) == Some((text_of(m), l)),
{
    serde_json::from_str::<serde_json::Value>(t).ok().map(
        |v| (v.get("message").and_then(|m| m.as_str()).map(String::from), v.get("line").and_then(|l| l.as_i64())),
    )
}

/// The message of a report: the given one, else "Unknown error".
pub open spec fn message_or_default(m: Option<Seq<char>>) -> Seq<char> {
    match m {
        Some(t) => t,
        None => "Unknown error"@,
    }
}

/// The line of a report: the given one, else -1, which stands for none.
pub open spec fn line_or_none(l: Option<i64>) -> i64 {
    match l {
        Some(n) => n,
        None => -1i64,
    }
}

/// The report for the fields read from a failure text; none where the text
/// was not JSON.
pub fn report_from_fields(fields: Option<(Option<String>, Option<i64>)>) -> (r: Option<String>)
    ensures
        fields is None ==> r is None,
        fields matches Some((m, l)) ==> (r matches Some(x) && x@ == report_text(
            message_or_default(text_of(m)),
            line_or_none(l),
        )),
{
    match fields {
        None => None,
        Some((m, l)) => Some(error_report(m, l)),
    }
}

/// The report for the failure text of a run: where the text is JSON, the
/// report of its message and line; else none.
pub fn failure_report(payload: &str) -> (r: Option<String>)
    ensures
        report_fields_of(payload@) is None ==> r is None,
        report_fields_of(payload@) matches Some((m, l)) ==> (r matches Some(x) && x@
            == report_text(message_or_default(m), line_or_none(l))),
{
    report_from_fields(parse_report_fields(payload))
}

} // verus!
