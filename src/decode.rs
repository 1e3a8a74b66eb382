//! Reading the payloads back: how a JSON string, a line number, a variable
//! list and each payload are read, and the proofs that reading an encoded
//! payload gives back every field.

use crate::payload::{
    binding_json, bindings_json, bindings_view, decimal, escape_char, failure_json, hex_digit,
    json_escape, json_quote, lemma_table_size, line_json, names_unique, success_json, table_of,
    ScriptErrorResponse,
};
use vstd::prelude::*;
use vstd::utf8::*;

verus! {

/// The value of a hex digit.
pub open spec fn hex_value(c: char) -> Option<u32> {
    if '0' <= c && c <= '9' {
        Some((c as u32 - '0' as u32) as u32)
    } else if 'a' <= c && c <= 'f' {
        Some((c as u32 - 'a' as u32 + 10) as u32)
    } else if 'A' <= c && c <= 'F' {
        Some((c as u32 - 'A' as u32 + 10) as u32)
    } else {
        None
    }
}

/// The character that a backslash followed by `e` stands for, other than `\u`.
pub open spec fn short_escape(e: char) -> Option<char> {
    if e == '"' {
        Some('"')
    } else if e == '\\' {
        Some('\\')
    } else if e == '/' {
        Some('/')
    } else if e == 'b' {
        Some('\x08')
    } else if e == 'f' {
        Some('\x0c')
    } else if e == 'n' {
        Some('\n')
    } else if e == 'r' {
        Some('\r')
    } else if e == 't' {
        Some('\t')
    } else {
        None
    }
}

pub open spec fn prepend(
    c: char,
    o: Option<(Seq<char>, Seq<char>)>,
) -> Option<(Seq<char>, Seq<char>)> {
    match o {
        Some((s, r)) => Some((seq![c] + s, r)),
        None => None,
    }
}

/// Reads the body of a JSON string, after its opening quote, up to its
/// closing quote: the text it stands for, and what follows the closing quote.
/// Escapes `\u` are read for characters below U+0100.
pub open spec fn read_string_body(t: Seq<char>) -> Option<(Seq<char>, Seq<char>)>
    decreases t.len(),
{
    if t.len() == 0 {
        None
    } else if t[0] == '"' {
        Some((seq![], t.drop_first()))
    } else if t[0] == '\\' {
        if t.len() < 2 {
            None
        } else if t[1] == 'u' {
            if t.len() < 6 {
                None
            } else if t[2] == '0' && t[3] == '0' && hex_value(t[4]) is Some && hex_value(
                t[5],
            ) is Some {
                let v = (hex_value(t[4])->Some_0 * 16 + hex_value(t[5])->Some_0) as u32;
                prepend(v as char, read_string_body(t.skip(6)))
            } else {
                None
            }
        } else {
            match short_escape(t[1]) {
                Some(c) => prepend(c, read_string_body(t.skip(2))),
                None => None,
            }
        }
    } else if (t[0] as u32) < 0x20 {
        None
    } else {
        prepend(t[0], read_string_body(t.drop_first()))
    }
}

/// Reads a JSON string: its text, and what follows it.
pub open spec fn read_quoted(t: Seq<char>) -> Option<(Seq<char>, Seq<char>)> {
    if t.len() > 0 && t[0] == '"' {
        read_string_body(t.drop_first())
    } else {
        None
    }
}

/// What follows `lit` in `t`, where `t` starts with it.
pub open spec fn after(t: Seq<char>, lit: Seq<char>) -> Option<Seq<char>> {
    if t.len() >= lit.len() && t.take(lit.len() as int) == lit {
        Some(t.skip(lit.len() as int))
    } else {
        None
    }
}

pub open spec fn is_digit(c: char) -> bool {
    '0' <= c && c <= '9'
}

/// How many digits `t` starts with.
pub open spec fn leading_digits(t: Seq<char>) -> nat
    decreases t.len(),
{
    if t.len() == 0 || !is_digit(t[0]) {
        0
    } else {
        1 + leading_digits(t.drop_first())
    }
}

/// The number that a run of digits stands for.
pub open spec fn digits_value(d: Seq<char>) -> nat
    decreases d.len(),
{
    if d.len() == 0 {
        0
    } else {
        digits_value(d.drop_last()) * 10 + (d.last() as u32 - '0' as u32) as nat
    }
}

/// Reads a line number, `null` or digits that fit a `usize`, and what follows.
pub open spec fn read_line(t: Seq<char>) -> Option<(Option<usize>, Seq<char>)> {
    match after(t, "null"@) {
        Some(r) => Some((None, r)),
        None => {
            let k = leading_digits(t);
            let v = digits_value(t.take(k as int));
            if k == 0 || v > usize::MAX {
                None
            } else {
                Some((Some(v as usize), t.skip(k as int)))
            }
        },
    }
}

/// Reads a whole failure payload: its output, error output, message and line.
pub open spec fn read_failure(t: Seq<char>) -> Option<
    (Seq<char>, Seq<char>, Seq<char>, Option<usize>),
> {
    match after(t, "{\"stdout\":"@) {
        None => None,
        Some(t1) => match read_quoted(t1) {
            None => None,
            Some((stdout, t2)) => match after(t2, ",\"stderr\":"@) {
                None => None,
                Some(t3) => match read_quoted(t3) {
                    None => None,
                    Some((stderr, t4)) => match after(t4, ",\"message\":"@) {
                        None => None,
                        Some(t5) => match read_quoted(t5) {
                            None => None,
                            Some((message, t6)) => match after(t6, ",\"line\":"@) {
                                None => None,
                                Some(t7) => match read_line(t7) {
                                    None => None,
                                    Some((line, t8)) => if t8 == "}"@ {
                                        Some((stdout, stderr, message, line))
                                    } else {
                                        None
                                    },
                                },
                            },
                        },
                    },
                },
            },
        },
    }
}

proof fn lemma_after(lit: Seq<char>, x: Seq<char>)
    ensures
        after(lit + x, lit) == Some(x),
{
    assert((lit + x).take(lit.len() as int) =~= lit);
    assert((lit + x).skip(lit.len() as int) =~= x);
}

proof fn lemma_hex_round_trip(n: u32)
    requires
        n < 16,
    ensures
        hex_value(hex_digit(n)) == Some(n),
{
}

proof fn lemma_read_escaped(s: Seq<char>, rest: Seq<char>)
    ensures
        read_string_body(json_escape(s) + seq!['"'] + rest) == Some((s, rest)),
    decreases s.len(),
{
    let t = json_escape(s) + seq!['"'] + rest;
    if s.len() == 0 {
        assert(t =~= seq!['"'] + rest);
        assert(t.drop_first() =~= rest);
    } else {
        let c = s[0];
        let s2 = s.drop_first();
        let t2 = json_escape(s2) + seq!['"'] + rest;
        lemma_read_escaped(s2, rest);
        let e = escape_char(c);
        assert(t =~= e + t2);
        assert(seq![c] + s2 =~= s);
        let u = c as u32;
        if c == '"' || c == '\\' || c == '\x08' || c == '\t' || c == '\n' || c == '\x0c' || c
            == '\r' {
            assert(t.skip(2) =~= t2);
        } else if u < 0x20 {
            assert(t.skip(6) =~= t2);
            lemma_hex_round_trip(u / 16);
            lemma_hex_round_trip(u % 16);
            assert(t[4] == hex_digit(u / 16));
            assert(t[5] == hex_digit(u % 16));
            assert(((u / 16) * 16 + u % 16) as u32 == u);
            char_u32_cast(c, u);
        } else {
            assert(t.drop_first() =~= t2);
        }
    }
}

proof fn lemma_read_quoted(s: Seq<char>, rest: Seq<char>)
    ensures
        read_quoted(json_quote(s) + rest) == Some((s, rest)),
{
    let t = json_quote(s) + rest;
    assert(t.drop_first() =~= json_escape(s) + seq!['"'] + rest);
    lemma_read_escaped(s, rest);
}

proof fn lemma_digit_char(k: int)
    requires
        0 <= k < 10,
    ensures
        is_digit("0123456789"@[k]),
        ("0123456789"@[k] as u32 - '0' as u32) == k,
{
    reveal_strlit("0123456789");
    let digits = "0123456789"@;
    assert(digits =~= seq!['0', '1', '2', '3', '4', '5', '6', '7', '8', '9']);
    if k == 0 {
    } else if k == 1 {
    } else if k == 2 {
    } else if k == 3 {
    } else if k == 4 {
    } else if k == 5 {
    } else if k == 6 {
    } else if k == 7 {
    } else if k == 8 {
    } else {
        assert(k == 9);
    }
}

proof fn lemma_digits(n: nat)
    ensures
        decimal(n).len() >= 1,
        forall|i: int| 0 <= i < decimal(n).len() ==> is_digit(#[trigger] decimal(n)[i]),
        digits_value(decimal(n)) == n,
    decreases n,
{
    let d = decimal(n);
    if n < 10 {
        lemma_digit_char(n as int);
        assert(d.drop_last() =~= Seq::<char>::empty());
        assert(digits_value(d.drop_last()) == 0);
        assert(d.last() == "0123456789"@[n as int]);
    } else {
        lemma_digits(n / 10);
        lemma_digit_char((n % 10) as int);
        assert(d.drop_last() =~= decimal(n / 10));
        assert(d.last() == "0123456789"@[(n % 10) as int]);
        assert(digits_value(d) == (n / 10) * 10 + n % 10);
        assert((n / 10) * 10 + n % 10 == n) by (nonlinear_arith);
        assert forall|i: int| 0 <= i < d.len() implies is_digit(#[trigger] d[i]) by {
            if i < d.len() - 1 {
                assert(d[i] == decimal(n / 10)[i]);
            }
        }
    }
}

proof fn lemma_leading_digits(d: Seq<char>, x: Seq<char>)
    requires
        forall|i: int| 0 <= i < d.len() ==> is_digit(#[trigger] d[i]),
        x.len() > 0,
        !is_digit(x[0]),
    ensures
        leading_digits(d + x) == d.len(),
    decreases d.len(),
{
    if d.len() == 0 {
        assert(d + x =~= x);
    } else {
        let d2 = d.drop_first();
        assert((d + x).drop_first() =~= d2 + x);
        lemma_leading_digits(d2, x);
    }
}

proof fn lemma_read_line(line: Option<usize>)
    ensures
        read_line(line_json(line) + "}"@) == Some((line, "}"@)),
{
    reveal_strlit("null");
    reveal_strlit("}");
    let t = line_json(line) + "}"@;
    match line {
        None => {
            lemma_after("null"@, "}"@);
        },
        Some(n) => {
            let d = decimal(n as nat);
            lemma_digits(n as nat);
            assert("null"@.len() == 4);
            if t.len() >= 4 && t.take(4) == "null"@ {
                assert(t.take(4)[0] == t[0]);
                assert(t[0] == d[0]);
                assert(is_digit(d[0]));
                assert("null"@[0] == 'n');
                assert(false);
            }
            lemma_leading_digits(d, "}"@);
            assert(t.take(d.len() as int) =~= d);
            assert(t.skip(d.len() as int) =~= "}"@);
        },
    }
}

/// Reading the failure payload of any stdout, stderr, message and line gives
/// back exactly those four fields.
pub proof fn lemma_failure_round_trip(
    stdout: Seq<char>,
    stderr: Seq<char>,
    message: Seq<char>,
    line: Option<usize>,
)
    ensures
        read_failure(failure_json(stdout, stderr, message, line)) == Some(
            (stdout, stderr, message, line),
        ),
{
    let l1 = "{\"stdout\":"@;
    let l2 = ",\"stderr\":"@;
    let l3 = ",\"message\":"@;
    let l4 = ",\"line\":"@;
    let end = "}"@;
    let t8 = end;
    let t7 = line_json(line) + t8;
    let t6 = l4 + t7;
    let t5 = json_quote(message) + t6;
    let t4 = l3 + t5;
    let t3 = json_quote(stderr) + t4;
    let t2 = l2 + t3;
    let t1 = json_quote(stdout) + t2;
    let t0 = l1 + t1;
    assert(failure_json(stdout, stderr, message, line) =~= t0);
    lemma_after(l1, t1);
    lemma_read_quoted(stdout, t2);
    lemma_after(l2, t3);
    lemma_read_quoted(stderr, t4);
    lemma_after(l3, t5);
    lemma_read_quoted(message, t6);
    lemma_after(l4, t7);
    lemma_read_line(line);
}

/// Reads one variable binding, `"name":"value"`, and what follows it.
pub open spec fn read_binding(t: Seq<char>) -> Option<((Seq<char>, Seq<char>), Seq<char>)> {
    match read_quoted(t) {
        None => None,
        Some((k, t1)) => match after(t1, ":"@) {
            None => None,
            Some(t2) => match read_quoted(t2) {
                None => None,
                Some((v, t3)) => Some(((k, v), t3)),
            },
        },
    }
}

/// Reads further bindings, each after a comma, for at most `fuel` of them.
pub open spec fn read_more(t: Seq<char>, fuel: nat) -> Option<
    (Seq<(Seq<char>, Seq<char>)>, Seq<char>),
>
    decreases fuel,
{
    if fuel == 0 {
        None
    } else {
        match after(t, ","@) {
            None => Some((seq![], t)),
            Some(t1) => match read_binding(t1) {
                None => None,
                Some((b, t2)) => match read_more(t2, (fuel - 1) as nat) {
                    None => None,
                    Some((bs, t3)) => Some((seq![b] + bs, t3)),
                },
            },
        }
    }
}

/// Reads the members of the variables object, up to its closing brace.
pub open spec fn read_bindings(t: Seq<char>) -> Option<(Seq<(Seq<char>, Seq<char>)>, Seq<char>)> {
    if t.len() > 0 && t[0] == '}' {
        Some((seq![], t))
    } else {
        match read_binding(t) {
            None => None,
            Some((b, t1)) => match read_more(t1, t1.len() + 1) {
                None => None,
                Some((bs, t2)) => Some((seq![b] + bs, t2)),
            },
        }
    }
}

/// Reads a whole success payload: its output, error output and variables.
pub open spec fn read_success(t: Seq<char>) -> Option<
    (Seq<char>, Seq<char>, Seq<(Seq<char>, Seq<char>)>),
> {
    match after(t, "{\"stdout\":"@) {
        None => None,
        Some(t1) => match read_quoted(t1) {
            None => None,
            Some((stdout, t2)) => match after(t2, ",\"stderr\":"@) {
                None => None,
                Some(t3) => match read_quoted(t3) {
                    None => None,
                    Some((stderr, t4)) => match after(t4, ",\"variables\":{"@) {
                        None => None,
                        Some(t5) => match read_bindings(t5) {
                            None => None,
                            Some((bindings, t6)) => if t6 == "}}"@ {
                                Some((stdout, stderr, bindings))
                            } else {
                                None
                            },
                        },
                    },
                },
            },
        },
    }
}

/// The bindings after the first, each after a comma.
pub open spec fn more_json(cs: Seq<(Seq<char>, Seq<char>)>) -> Seq<char>
    decreases cs.len(),
{
    if cs.len() == 0 {
        seq![]
    } else {
        ","@ + binding_json(cs[0]) + more_json(cs.drop_first())
    }
}

proof fn lemma_more_push(cs: Seq<(Seq<char>, Seq<char>)>, x: (Seq<char>, Seq<char>))
    ensures
        more_json(cs.push(x)) == more_json(cs) + ","@ + binding_json(x),
    decreases cs.len(),
{
    let e = Seq::<(Seq<char>, Seq<char>)>::empty();
    assert(more_json(e) == Seq::<char>::empty());
    if cs.len() == 0 {
        assert(cs.push(x).drop_first() =~= e);
        assert(cs.push(x)[0] == x);
        assert(more_json(cs) == Seq::<char>::empty());
        assert(more_json(cs.push(x)) =~= more_json(cs) + ","@ + binding_json(x));
    } else {
        assert(cs.push(x).drop_first() =~= cs.drop_first().push(x));
        assert(cs.push(x)[0] == cs[0]);
        lemma_more_push(cs.drop_first(), x);
        assert(more_json(cs.push(x)) =~= more_json(cs) + ","@ + binding_json(x));
    }
}

proof fn lemma_bindings_front(bs: Seq<(Seq<char>, Seq<char>)>)
    requires
        bs.len() >= 1,
    ensures
        bindings_json(bs) == binding_json(bs[0]) + more_json(bs.drop_first()),
    decreases bs.len(),
{
    if bs.len() == 1 {
        assert(bs.drop_first() =~= Seq::<(Seq<char>, Seq<char>)>::empty());
        assert(bindings_json(bs) =~= binding_json(bs[0]) + more_json(bs.drop_first()));
    } else {
        let init = bs.drop_last();
        lemma_bindings_front(init);
        assert(bs.drop_first() =~= init.drop_first().push(bs.last()));
        lemma_more_push(init.drop_first(), bs.last());
        assert(init[0] == bs[0]);
        assert(bindings_json(bs) =~= binding_json(bs[0]) + more_json(bs.drop_first()));
    }
}

proof fn lemma_read_binding(b: (Seq<char>, Seq<char>), rest: Seq<char>)
    ensures
        read_binding(binding_json(b) + rest) == Some((b, rest)),
{
    let t2 = json_quote(b.1) + rest;
    let t1 = ":"@ + t2;
    assert(binding_json(b) + rest =~= json_quote(b.0) + t1);
    lemma_read_quoted(b.0, t1);
    lemma_after(":"@, t2);
    lemma_read_quoted(b.1, rest);
}

proof fn lemma_more_len(cs: Seq<(Seq<char>, Seq<char>)>)
    ensures
        more_json(cs).len() >= cs.len(),
    decreases cs.len(),
{
    if cs.len() > 0 {
        lemma_more_len(cs.drop_first());
    }
}

proof fn lemma_read_more(cs: Seq<(Seq<char>, Seq<char>)>, fuel: nat)
    requires
        fuel > cs.len(),
    ensures
        read_more(more_json(cs) + "}}"@, fuel) == Some((cs, "}}"@)),
    decreases cs.len(),
{
    reveal_strlit("}}");
    reveal_strlit(",");
    let t = more_json(cs) + "}}"@;
    if cs.len() == 0 {
        assert(t =~= "}}"@);
        assert(t.take(1) != ","@) by {
            assert(t.take(1)[0] == '}');
        }
    } else {
        let rest = more_json(cs.drop_first()) + "}}"@;
        let t1 = binding_json(cs[0]) + rest;
        assert(t =~= ","@ + t1);
        lemma_after(","@, t1);
        lemma_read_binding(cs[0], rest);
        lemma_read_more(cs.drop_first(), (fuel - 1) as nat);
        assert(seq![cs[0]] + cs.drop_first() =~= cs);
    }
}

proof fn lemma_read_bindings(bs: Seq<(Seq<char>, Seq<char>)>)
    ensures
        read_bindings(bindings_json(bs) + "}}"@) == Some((bs, "}}"@)),
{
    reveal_strlit("}}");
    let t = bindings_json(bs) + "}}"@;
    if bs.len() == 0 {
        assert(t =~= "}}"@);
    } else {
        lemma_bindings_front(bs);
        let cs = bs.drop_first();
        let t1 = more_json(cs) + "}}"@;
        assert(t =~= binding_json(bs[0]) + t1);
        assert(t[0] == '"');
        lemma_read_binding(bs[0], t1);
        lemma_more_len(cs);
        lemma_read_more(cs, t1.len() + 1);
        assert(seq![bs[0]] + cs =~= bs);
    }
}

/// Reading the success payload of any stdout, stderr and variable list gives
/// back exactly those fields, the variables in order.
pub proof fn lemma_success_round_trip(
    stdout: Seq<char>,
    stderr: Seq<char>,
    bindings: Seq<(Seq<char>, Seq<char>)>,
)
    ensures
        read_success(success_json(stdout, stderr, bindings)) == Some((stdout, stderr, bindings)),
{
    let l1 = "{\"stdout\":"@;
    let l2 = ",\"stderr\":"@;
    let l3 = ",\"variables\":{"@;
    let t5 = bindings_json(bindings) + "}}"@;
    let t4 = l3 + t5;
    let t3 = json_quote(stderr) + t4;
    let t2 = l2 + t3;
    let t1 = json_quote(stdout) + t2;
    assert(success_json(stdout, stderr, bindings) =~= l1 + t1);
    lemma_after(l1, t1);
    lemma_read_quoted(stdout, t2);
    lemma_after(l2, t3);
    lemma_read_quoted(stderr, t4);
    lemma_after(l3, t5);
    lemma_read_bindings(bindings);
}

/// The variables read back from a success payload are exactly the final
/// variable table: the same name-to-value table, one entry per variable, none
/// added and none missing.
pub proof fn lemma_variables_exact(
    stdout: Seq<char>,
    stderr: Seq<char>,
    variables: Seq<(String, String)>,
)
    requires
        names_unique(variables),
    ensures
        read_success(success_json(stdout, stderr, bindings_view(variables))) matches Some(
            (o, e, bs),
        ) && table_of(bs) == table_of(bindings_view(variables)) && table_of(bs).dom().len()
            == variables.len(),
{
    lemma_success_round_trip(stdout, stderr, bindings_view(variables));
    lemma_table_size(variables);
}

} // verus!
