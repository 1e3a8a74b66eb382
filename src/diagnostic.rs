//! Translation of interpreter failures into a message and an optional line.

use vstd::prelude::*;

verus! {

/// A failure reported by the interpreter, one case per known kind plus a
/// fallback for every other kind.
pub enum ScriptFault {
    Runtime { message: String, line: Option<usize> },
    PreProcessNoCommandFound { line: Option<usize> },
    ControlWithoutValidValue { line: Option<usize> },
    InvalidControlLocation { line: Option<usize> },
    MissingEndQuotes { line: Option<usize> },
    MissingOutputVariableName { line: Option<usize> },
    InvalidEqualsLocation { line: Option<usize> },
    InvalidQuotesLocation { line: Option<usize> },
    EmptyLabel { line: Option<usize> },
    UnknownPreProcessorCommand { line: Option<usize> },
    Other,
}

/// A human-readable message and the 1-based source line, where known.
pub struct Diagnostic {
    pub message: String,
    pub line: Option<usize>,
}

/// The message of each fault.
pub open spec fn fault_message(f: ScriptFault) -> Seq<char> {
    match f {
        ScriptFault::Runtime { message, .. } => "Runtime Error: "@ + message@,
        ScriptFault::PreProcessNoCommandFound { .. } => "PreProcessor Error: preprocessor is missing a command"@,
        ScriptFault::ControlWithoutValidValue { .. } => "Error: control character found without a valid value"@,
        ScriptFault::InvalidControlLocation { .. } => "Error: invalid control character location"@,
        ScriptFault::MissingEndQuotes { .. } => "Error: missing end quotes"@,
        ScriptFault::MissingOutputVariableName { .. } => "Error: missing variable name"@,
        ScriptFault::InvalidEqualsLocation { .. } => "Error: invalid equals sign location"@,
        ScriptFault::InvalidQuotesLocation { .. } => "Error: invalid quotes location"@,
        ScriptFault::EmptyLabel { .. } => "Error: empty label found"@,
        ScriptFault::UnknownPreProcessorCommand { .. } => "Error: unknown preprocessor command"@,
        ScriptFault::Other => "Unknown error occurred"@,
    }
}

/// The source line of each fault; the fallback kind has none.
pub open spec fn fault_line(f: ScriptFault) -> Option<usize> {
    match f {
        ScriptFault::Runtime { line, .. } => line,
        ScriptFault::PreProcessNoCommandFound { line } => line,
        ScriptFault::ControlWithoutValidValue { line } => line,
        ScriptFault::InvalidControlLocation { line } => line,
        ScriptFault::MissingEndQuotes { line } => line,
        ScriptFault::MissingOutputVariableName { line } => line,
        ScriptFault::InvalidEqualsLocation { line } => line,
        ScriptFault::InvalidQuotesLocation { line } => line,
        ScriptFault::EmptyLabel { line } => line,
        ScriptFault::UnknownPreProcessorCommand { line } => line,
        ScriptFault::Other => None,
    }
}

pub fn format_error_message(message: &str, line: Option<usize>) -> (r: (String, Option<usize>))
    ensures
        r.0@ == message@,
        r.1 == line,
{
    (message.to_string(), line)
}

/// Maps a fault to its fixed message prefix and its line.
pub fn translate(fault: &ScriptFault) -> (d: Diagnostic)
    ensures
        d.message@ == fault_message(*fault),
        d.line == fault_line(*fault),
{
    let (message, line) = match fault {
        ScriptFault::Runtime { message, line } => {
            let prefix = String::from_str("Runtime Error: ");
            (prefix.concat(message.as_str()), *line)
        },
        ScriptFault::PreProcessNoCommandFound { line } => format_error_message(
            "PreProcessor Error: preprocessor is missing a command",
            *line,
        ),
        ScriptFault::ControlWithoutValidValue { line } => format_error_message(
            "Error: control character found without a valid value",
            *line,
        ),
        ScriptFault::InvalidControlLocation { line } => format_error_message(
            "Error: invalid control character location",
            *line,
        ),
        ScriptFault::MissingEndQuotes { line } => format_error_message(
            "Error: missing end quotes",
            *line,
        ),
        ScriptFault::MissingOutputVariableName { line } => format_error_message(
            "Error: missing variable name",
            *line,
        ),
        ScriptFault::InvalidEqualsLocation { line } => format_error_message(
            "Error: invalid equals sign location",
            *line,
        ),
        ScriptFault::InvalidQuotesLocation { line } => format_error_message(
            "Error: invalid quotes location",
            *line,
        ),
        ScriptFault::EmptyLabel { line } => format_error_message("Error: empty label found", *line),
        ScriptFault::UnknownPreProcessorCommand { line } => format_error_message(
            "Error: unknown preprocessor command",
            *line,
        ),
        ScriptFault::Other => format_error_message("Unknown error occurred", None),
    };
    Diagnostic { message, line }
}

} // verus!
