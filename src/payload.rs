//! The JSON payloads handed back to the caller: a success value with the
//! captured output and the final variables, or a failure value with a
//! diagnostic. Each string is quoted by serde_json; the objects around them are
//! framed here.

use crate::diagnostic::{fault_line, fault_message, translate, ScriptFault};
use vstd::prelude::*;
use vstd::string::*;

verus! {

/// Returned in place of a failure payload that could not be encoded.
pub const ERROR_FALLBACK: &'static str = "{\"message\": \"Failed to serialize error\", \"line\": null}";

/// Returned in place of a success payload that could not be encoded.
pub const RESPONSE_FALLBACK: &'static str = "{\"message\": \"Failed to serialize response\"}";

pub open spec fn hex_digit(n: u32) -> char {
    seq!['0', '1', '2', '3', '4', '5', '6', '7', '8', '9', 'a', 'b', 'c', 'd', 'e', 'f'][n as int]
}

/// How one character stands inside a JSON string.
pub open spec fn escape_char(c: char) -> Seq<char> {
    if c == '"' {
        seq!['\\', '"']
    } else if c == '\\' {
        seq!['\\', '\\']
    } else if c == '\x08' {
        seq!['\\', 'b']
    } else if c == '\t' {
        seq!['\\', 't']
    } else if c == '\n' {
        seq!['\\', 'n']
    } else if c == '\x0c' {
        seq!['\\', 'f']
    } else if c == '\r' {
        seq!['\\', 'r']
    } else if (c as u32) < 0x20 {
        seq!['\\', 'u', '0', '0', hex_digit((c as u32) / 16), hex_digit((c as u32) % 16)]
    } else {
        seq![c]
    }
}

pub open spec fn json_escape(s: Seq<char>) -> Seq<char>
    decreases s.len(),
{
    if s.len() == 0 {
        seq![]
    } else {
        escape_char(s[0]) + json_escape(s.drop_first())
    }
}

/// A JSON string literal holding `s`.
pub open spec fn json_quote(s: Seq<char>) -> Seq<char> {
    seq!['"'] + json_escape(s) + seq!['"']
}

/// Relies on serde_json::to_string on a string slice, which writes the text
/// between double quotes with `"` and `\` escaped by a backslash, U+0008,
/// U+0009, U+000A, U+000C and U+000D as `\b`, `\t`, `\n`, `\f`, `\r`, every other
/// character below U+0020 as `\u00` and two lowercase hex digits, and every
/// other character as it is. A string slice serializes into an in-memory
/// buffer, which cannot fail.
#[verifier::external_body]
fn quote(s: &str) -> (r: Option<String>)
    ensures
        r is Some,
        r matches Some(t) ==> t@ == json_quote(s@),
{
    serde_json::to_string(s).ok()
}

/// The decimal digits of `n`, without leading zeros.
pub open spec fn decimal(n: nat) -> Seq<char>
    decreases n,
{
    if n < 10 {
        seq!["0123456789"@[n as int]]
    } else {
        decimal(n / 10) + seq!["0123456789"@[(n % 10) as int]]
    }
}

pub(crate) fn append_decimal(out: &mut String, n: u64)
    ensures
        final(out)@ == old(out)@ + decimal(n as nat),
    decreases n,
{
    if n >= 10 {
        append_decimal(out, n / 10);
    }
    let digits = "0123456789";
    proof {
        reveal_strlit("0123456789");
    }
    let d = (n % 10) as usize;
    out.append(digits.substring_char(d, d + 1));
}

/// The decimal text of `n`.
pub fn decimal_text(n: u64) -> (r: String)
    ensures
        r@ == decimal(n as nat),
{
    let mut out = String::new();
    append_decimal(&mut out, n);
    out
}

pub open spec fn line_json(line: Option<usize>) -> Seq<char> {
    match line {
        Some(n) => decimal(n as nat),
        None => "null"@,
    }
}

/// The failure payload: `{"stdout":..,"stderr":..,"message":..,"line":..}`.
pub open spec fn failure_json(
    stdout: Seq<char>,
    stderr: Seq<char>,
    message: Seq<char>,
    line: Option<usize>,
) -> Seq<char> {
    "{\"stdout\":"@ + json_quote(stdout) + ",\"stderr\":"@ + json_quote(stderr)
        + ",\"message\":"@ + json_quote(message) + ",\"line\":"@ + line_json(line) + "}"@
}

pub open spec fn binding_json(b: (Seq<char>, Seq<char>)) -> Seq<char> {
    json_quote(b.0) + ":"@ + json_quote(b.1)
}

/// The members of a JSON object, one per binding, in order, separated by commas.
pub open spec fn bindings_json(bs: Seq<(Seq<char>, Seq<char>)>) -> Seq<char>
    decreases bs.len(),
{
    if bs.len() == 0 {
        seq![]
    } else if bs.len() == 1 {
        binding_json(bs[0])
    } else {
        bindings_json(bs.drop_last()) + ","@ + binding_json(bs.last())
    }
}

/// The success payload: `{"stdout":..,"stderr":..,"variables":{..}}`.
pub open spec fn success_json(
    stdout: Seq<char>,
    stderr: Seq<char>,
    bindings: Seq<(Seq<char>, Seq<char>)>,
) -> Seq<char> {
    "{\"stdout\":"@ + json_quote(stdout) + ",\"stderr\":"@ + json_quote(stderr)
        + ",\"variables\":{"@ + bindings_json(bindings) + "}}"@
}

/// The text of each name and value of a variable table.
pub open spec fn bindings_view(vs: Seq<(String, String)>) -> Seq<(Seq<char>, Seq<char>)> {
    vs.map_values(|b: (String, String)| (b.0@, b.1@))
}

/// What a failed run hands back.
pub struct ScriptErrorResponse {
    pub stdout: String,
    pub stderr: String,
    pub message: String,
    pub line: Option<usize>,
}

impl ScriptErrorResponse {
    /// The failure payload. Where a string could not be encoded, the fixed
    /// fallback would stand in its place.
    pub fn to_json(&self) -> (r: String)
        ensures
            r@ == failure_json(self.stdout@, self.stderr@, self.message@, self.line),
    {
        let fallback = String::from_str(ERROR_FALLBACK);
        let stdout = match quote(self.stdout.as_str()) {
            Some(t) => t,
            None => return fallback,
        };
        let stderr = match quote(self.stderr.as_str()) {
            Some(t) => t,
            None => return fallback,
        };
        let message = match quote(self.message.as_str()) {
            Some(t) => t,
            None => return fallback,
        };
        let mut out = String::from_str("{\"stdout\":");
        out.append(stdout.as_str());
        out.append(",\"stderr\":");
        out.append(stderr.as_str());
        out.append(",\"message\":");
        out.append(message.as_str());
        out.append(",\"line\":");
        match self.line {
            Some(n) => append_decimal(&mut out, n as u64),
            None => out.append("null"),
        }
        out.append("}");
        out
    }
}

/// Diagnoses `error` and encodes it together with the output captured up to
/// the failure.
pub fn handle_script_error(error: ScriptFault, stderr_output: String, stdout_output: String) -> (r:
    String)
    ensures
        r@ == failure_json(stdout_output@, stderr_output@, fault_message(error), fault_line(error)),
{
    let diagnostic = translate(&error);
    let response = ScriptErrorResponse {
        message: diagnostic.message,
        line: diagnostic.line,
        stderr: stderr_output,
        stdout: stdout_output,
    };
    response.to_json()
}

/// Whether no two bindings share a name.
pub open spec fn names_unique(vs: Seq<(String, String)>) -> bool {
    forall|i: int, j: int|
        0 <= i < j < vs.len() ==> #[trigger] vs[i].0@ != #[trigger] vs[j].0@
}

/// The table of a list of bindings, from name to value.
pub open spec fn table_of(bs: Seq<(Seq<char>, Seq<char>)>) -> Map<Seq<char>, Seq<char>> {
    Map::new(
        |k: Seq<char>| exists|i: int| 0 <= i < bs.len() && bs[i].0 == k,
        |k: Seq<char>| bs[choose|i: int| 0 <= i < bs.len() && bs[i].0 == k].1,
    )
}

/// What a completed run hands back: the captured output and the variables
/// that the interpreter held at the end, each name once.
pub struct ScriptResponse {
    pub stdout: String,
    pub stderr: String,
    pub variables: Vec<(String, String)>,
}

impl ScriptResponse {
    /// Assembles the success value from the two output snapshots and the final
    /// variable table.
    pub fn new(stdout: String, stderr: String, variables: Vec<(String, String)>) -> (r: Self)
        requires
            names_unique(variables@),
        ensures
            r.stdout@ == stdout@,
            r.stderr@ == stderr@,
            bindings_view(r.variables@) == bindings_view(variables@),
            table_of(bindings_view(r.variables@)).dom().len() == variables@.len(),
    {
        proof {
            lemma_table_size(variables@);
        }
        ScriptResponse { stdout, stderr, variables }
    }

    /// The success payload. Where a string could not be encoded, the fixed
    /// fallback would stand in its place.
    pub fn to_json(&self) -> (r: String)
        ensures
            r@ == success_json(self.stdout@, self.stderr@, bindings_view(self.variables@)),
    {
        let fallback = String::from_str(RESPONSE_FALLBACK);
        let stdout = match quote(self.stdout.as_str()) {
            Some(t) => t,
            None => return fallback,
        };
        let stderr = match quote(self.stderr.as_str()) {
            Some(t) => t,
            None => return fallback,
        };
        let ghost bs = bindings_view(self.variables@);
        let mut members = String::new();
        let mut i: usize = 0;
        while i < self.variables.len()
            invariant
                i <= self.variables@.len(),
                fallback@ == RESPONSE_FALLBACK@,
                bs == bindings_view(self.variables@),
                members@ == bindings_json(bs.take(i as int)),
            decreases self.variables@.len() - i,
        {
            let name = match quote(self.variables[i].0.as_str()) {
                Some(t) => t,
                None => return fallback,
            };
            let value = match quote(self.variables[i].1.as_str()) {
                Some(t) => t,
                None => return fallback,
            };
            if i > 0 {
                members.append(",");
            }
            members.append(name.as_str());
            members.append(":");
            members.append(value.as_str());
            proof {
                let t = bs.take(i + 1);
                assert(t.drop_last() =~= bs.take(i as int));
                assert(t.last() == bs[i as int]);
                if i == 0 {
                    assert(bs.take(0) =~= seq![]);
                }
            }
            i = i + 1;
        }
        proof {
            assert(bs.take(i as int) =~= bs);
        }
        let mut out = String::from_str("{\"stdout\":");
        out.append(stdout.as_str());
        out.append(",\"stderr\":");
        out.append(stderr.as_str());
        out.append(",\"variables\":{");
        out.append(members.as_str());
        out.append("}}");
        out
    }
}

/// A list of bindings with unique names makes a table with one entry per
/// binding.
pub proof fn lemma_table_size(vs: Seq<(String, String)>)
    requires
        names_unique(vs),
    ensures
        table_of(bindings_view(vs)).dom().len() == vs.len(),
    decreases vs.len(),
{
    let bs = bindings_view(vs);
    if vs.len() == 0 {
        assert(table_of(bs).dom() =~= Set::empty());
    } else {
        let rest = vs.drop_last();
        let br = bindings_view(rest);
        assert(names_unique(rest)) by {
            assert forall|i: int, j: int| 0 <= i < j < rest.len() implies #[trigger] rest[i].0@
                != #[trigger] rest[j].0@ by {
                assert(rest[i] == vs[i] && rest[j] == vs[j]);
            }
        }
        lemma_table_size(rest);
        let k = vs.last().0@;
        assert(table_of(bs).dom() =~= table_of(br).dom().insert(k)) by {
            assert forall|x: Seq<char>| table_of(bs).dom().contains(x) <==> #[trigger] table_of(
                br,
            ).dom().insert(k).contains(x) by {
                if table_of(bs).dom().contains(x) {
                    let i = choose|i: int| 0 <= i < bs.len() && bs[i].0 == x;
                    if i < vs.len() - 1 {
                        assert(br[i].0 == x);
                    }
                }
                if table_of(br).dom().contains(x) {
                    let i = choose|i: int| 0 <= i < br.len() && br[i].0 == x;
                    assert(bs[i].0 == x);
                }
                if x == k {
                    assert(bs[vs.len() - 1].0 == x);
                }
            }
        }
        assert(!table_of(br).dom().contains(k)) by {
            if table_of(br).dom().contains(k) {
                let i = choose|i: int| 0 <= i < br.len() && br[i].0 == k;
                assert(vs[i].0@ == vs[vs.len() - 1].0@);
            }
        }
        lemma_table_finite(br);
    }
}

proof fn lemma_table_finite(bs: Seq<(Seq<char>, Seq<char>)>)
    ensures
        table_of(bs).dom().finite(),
{
    let f = |i: int| bs[i].0;
    let idx = Set::new(|i: int| 0 <= i < bs.len());
    assert(idx =~= vstd::set_lib::set_int_range(0, bs.len() as int));
    vstd::set_lib::lemma_int_range(0, bs.len() as int);
    assert(table_of(bs).dom() =~= idx.map(f)) by {
        assert forall|x: Seq<char>| table_of(bs).dom().contains(x) implies #[trigger] idx.map(
            f,
        ).contains(x) by {
            let i = choose|i: int| 0 <= i < bs.len() && bs[i].0 == x;
            assert(idx.contains(i) && f(i) == x);
        }
    }
    idx.lemma_map_finite(f);
}

} // verus!
