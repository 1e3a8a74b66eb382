//! The decisions of one execution: what a relay does with each chunk it
//! receives, what the runner hands back once the interpreter is done, and how
//! the three units of work settle into one outcome.

use crate::capture::{lossy_text, next_cut, width_of, last_start, OutputCapture};
use crate::diagnostic::{fault_line, fault_message, ScriptFault};
use crate::payload::{
    bindings_view, failure_json, handle_script_error, names_unique, success_json,
    ScriptResponse,
};
use vstd::prelude::*;
use vstd::utf8::*;

verus! {

/// An event sent to the output listener.
pub enum PayloadEvent {
    Stdout { message: String },
    _Stderr { message: String },
    _Started { message: String },
    _Finished { message: String },
}

/// Why a relay stopped: its channel closed, or it saw the halt token raised.
#[derive(PartialEq, Eq, Structural, Clone, Copy, Debug)]
pub enum RelayEnd {
    Drained,
    Cancelled,
}

/// What a relay does with what it received.
pub enum RelayStep {
    Forward(String),
    Finish(RelayEnd),
}

/// One step of a relay: `received` is what its channel gave (`None` once the
/// channel is closed) and `halted` what it read of the halt token.
pub fn relay_step(halted: bool, received: Option<String>) -> (s: RelayStep)
    ensures
        received is None ==> s == RelayStep::Finish(RelayEnd::Drained),
        halted ==> (received is Some ==> s == RelayStep::Finish(RelayEnd::Cancelled)),
        !halted ==> (received matches Some(c) ==> (s matches RelayStep::Forward(d) && d@ == c@)),
{
    match received {
        None => RelayStep::Finish(RelayEnd::Drained),
        Some(c) => {
            if halted {
                RelayStep::Finish(RelayEnd::Cancelled)
            } else {
                RelayStep::Forward(c)
            }
        },
    }
}

/// The chunks that a relay forwards when it receives `chunks` in order and
/// reads `halts[i]` on receiving chunk `i`.
pub open spec fn relayed(chunks: Seq<Seq<char>>, halts: Seq<bool>) -> Seq<Seq<char>>
    decreases chunks.len(),
{
    if chunks.len() == 0 || halts.len() == 0 || halts[0] {
        seq![]
    } else {
        seq![chunks[0]] + relayed(chunks.drop_first(), halts.drop_first())
    }
}

/// Why that relay stops once its channel has closed after the last chunk.
pub open spec fn relay_end(chunks: Seq<Seq<char>>, halts: Seq<bool>) -> RelayEnd
    decreases chunks.len(),
{
    if chunks.len() == 0 || halts.len() == 0 {
        RelayEnd::Drained
    } else if halts[0] {
        RelayEnd::Cancelled
    } else {
        relay_end(chunks.drop_first(), halts.drop_first())
    }
}

/// The sink after the writes `ws` on an empty sink, none halted: its bytes
/// and how far it has offered them.
pub open spec fn sink_after(ws: Seq<Seq<u8>>) -> (Seq<u8>, int)
    decreases ws.len(),
{
    if ws.len() == 0 {
        (seq![], 0)
    } else {
        let (b, s) = sink_after(ws.drop_last());
        let nb = b + ws.last();
        (nb, next_cut(nb, s))
    }
}

/// The byte runs that the writes `ws` offer, in order, one per write that
/// offers anything.
pub open spec fn write_runs(ws: Seq<Seq<u8>>) -> Seq<Seq<u8>>
    decreases ws.len(),
{
    if ws.len() == 0 {
        seq![]
    } else {
        let (b, s) = sink_after(ws.drop_last());
        let nb = b + ws.last();
        let c = next_cut(nb, s);
        if c > s {
            write_runs(ws.drop_last()).push(nb.subrange(s, c))
        } else {
            write_runs(ws.drop_last())
        }
    }
}

/// The byte runs of a whole stream: those the writes offer, then the rest that
/// closing the stream offers.
pub open spec fn stream_runs(ws: Seq<Seq<u8>>) -> Seq<Seq<u8>> {
    let (b, s) = sink_after(ws);
    if s < b.len() {
        write_runs(ws).push(b.subrange(s, b.len() as int))
    } else {
        write_runs(ws)
    }
}

pub open spec fn decoded(runs: Seq<Seq<u8>>) -> Seq<Seq<char>> {
    runs.map_values(|r: Seq<u8>| decode_utf8(r))
}

pub open spec fn joined_text(cs: Seq<Seq<char>>) -> Seq<char>
    decreases cs.len(),
{
    if cs.len() == 0 {
        seq![]
    } else {
        joined_text(cs.drop_last()) + cs.last()
    }
}

pub open spec fn joined_bytes(ws: Seq<Seq<u8>>) -> Seq<u8>
    decreases ws.len(),
{
    if ws.len() == 0 {
        seq![]
    } else {
        joined_bytes(ws.drop_last()) + ws.last()
    }
}

proof fn lemma_last_start(b: Seq<u8>, from: int, end: int)
    requires
        0 <= from <= end <= b.len(),
    ensures
        last_start(b, from, end) matches Some(q) ==> from <= q < end && !is_continuation_byte(b[q])
            && forall|x: int| q < x < end ==> is_continuation_byte(#[trigger] b[x]),
        last_start(b, from, end) is None ==> forall|x: int|
            from <= x < end ==> is_continuation_byte(#[trigger] b[x]),
    decreases end - from,
{
    if end > from && is_continuation_byte(b[end - 1]) {
        lemma_last_start(b, from, end - 1);
    }
}

/// In valid UTF-8, the character at a boundary `q` fits, and ends at a boundary.
proof fn lemma_next_boundary(big: Seq<u8>, q: int)
    requires
        valid_utf8(big),
        is_char_boundary(big, q),
        0 <= q < big.len(),
    ensures
        q + width_of(big[q]) <= big.len(),
        is_char_boundary(big, q + width_of(big[q])),
    decreases big.len(),
{
    let l = length_of_first_scalar(big);
    let tail = pop_first_scalar(big);
    assert(valid_first_scalar(big) && valid_utf8(tail));
    assert(tail.len() == big.len() - l);
    if q == 0 {
        assert(l == width_of(big[0]));
        assert(is_char_boundary(tail, 0));
    } else {
        let q2 = q - l;
        assert(is_char_boundary(tail, q2));
        assert(0 <= q2 < tail.len());
        assert(tail[q2] == big[q]);
        lemma_next_boundary(tail, q2);
    }
}

/// Each cut of a sink whose bytes begin a valid stream falls on a character
/// boundary of that stream.
proof fn lemma_cut_boundary(big: Seq<u8>, b: Seq<u8>, s: int)
    requires
        valid_utf8(big),
        b.len() <= big.len(),
        b == big.subrange(0, b.len() as int),
        0 <= s <= b.len(),
        is_char_boundary(big, s),
    ensures
        s <= next_cut(b, s) <= b.len(),
        is_char_boundary(big, next_cut(b, s)),
{
    let n = b.len() as int;
    lemma_last_start(b, s, n);
    is_char_boundary_start_end_of_seq(big);
    match last_start(b, s, n) {
        Some(q) => {
            assert(b[q] == big[q]);
            is_char_boundary_iff_not_is_continuation_byte(big, q);
            if q + width_of(b[q]) <= n {
                lemma_next_boundary(big, q);
                let e = q + width_of(b[q]);
                if e < n {
                    assert(is_continuation_byte(b[e]));
                    assert(b[e] == big[e]);
                    is_char_boundary_iff_not_is_continuation_byte(big, e);
                }
            }
        },
        None => {
            if s < n {
                assert(is_continuation_byte(b[s]));
                assert(b[s] == big[s]);
                is_char_boundary_iff_not_is_continuation_byte(big, s);
            }
        },
    }
}

/// Decoding a valid stream up to a boundary `c` is decoding it up to an
/// earlier boundary `s` and then from `s` to `c`, and the run between is valid.
proof fn lemma_split_runs(big: Seq<u8>, s: int, c: int)
    requires
        valid_utf8(big),
        0 <= s <= c <= big.len(),
        is_char_boundary(big, s),
        is_char_boundary(big, c),
    ensures
        valid_utf8(big.subrange(s, c)),
        decode_utf8(big.subrange(0, c)) == decode_utf8(big.subrange(0, s)) + decode_utf8(
            big.subrange(s, c),
        ),
{
    valid_utf8_split(big, c);
    let pre = big.subrange(0, c);
    is_char_boundary_start_end_of_seq(pre);
    if s < c {
        is_char_boundary_iff_not_is_continuation_byte(big, s);
        assert(pre[s] == big[s]);
        is_char_boundary_iff_not_is_continuation_byte(pre, s);
    }
    valid_utf8_split(pre, s);
    decode_utf8_split(pre, s);
    assert(pre.subrange(0, s) =~= big.subrange(0, s));
    assert(pre.subrange(s, c) =~= big.subrange(s, c));
}

proof fn lemma_write_runs(ws: Seq<Seq<u8>>, big: Seq<u8>)
    requires
        valid_utf8(big),
        joined_bytes(ws).len() <= big.len(),
        joined_bytes(ws) == big.subrange(0, joined_bytes(ws).len() as int),
    ensures
        sink_after(ws).0 == joined_bytes(ws),
        0 <= sink_after(ws).1 <= sink_after(ws).0.len(),
        is_char_boundary(big, sink_after(ws).1),
        forall|i: int| 0 <= i < write_runs(ws).len() ==> valid_utf8(#[trigger] write_runs(ws)[i]),
        joined_text(decoded(write_runs(ws))) == decode_utf8(big.subrange(0, sink_after(ws).1)),
    decreases ws.len(),
{
    is_char_boundary_start_end_of_seq(big);
    if ws.len() == 0 {
        assert(big.subrange(0, 0) =~= Seq::<u8>::empty());
        assert(decoded(write_runs(ws)) =~= Seq::<Seq<char>>::empty());
    } else {
        let init = ws.drop_last();
        let nb = joined_bytes(ws);
        assert(joined_bytes(init) =~= big.subrange(0, joined_bytes(init).len() as int)) by {
            assert(joined_bytes(init) =~= nb.subrange(0, joined_bytes(init).len() as int));
        }
        lemma_write_runs(init, big);
        let (b, s) = sink_after(init);
        let c = next_cut(nb, s);
        lemma_cut_boundary(big, nb, s);
        lemma_split_runs(big, s, c);
        assert(nb.subrange(s, c) =~= big.subrange(s, c));
        let runs = write_runs(init);
        if c > s {
            let runs2 = runs.push(nb.subrange(s, c));
            assert(decoded(runs2).drop_last() =~= decoded(runs));
            assert(decoded(runs2).last() == decode_utf8(nb.subrange(s, c)));
        } else {
            assert(big.subrange(0, c) =~= big.subrange(0, s));
        }
    }
}

/// With no cancellation, a sink offers a stream as runs that, where the whole
/// stream is valid UTF-8, are each valid (so each chunk is the exact text of
/// its run), a relay forwards every chunk in order and stops only when the
/// channel closes, and the forwarded text put together is the text of the
/// whole stream, which is what the snapshot holds.
pub proof fn lemma_uncancelled_relay(ws: Seq<Seq<u8>>, halts: Seq<bool>)
    requires
        valid_utf8(joined_bytes(ws)),
        halts.len() == stream_runs(ws).len(),
        forall|i: int| 0 <= i < halts.len() ==> !#[trigger] halts[i],
    ensures
        forall|i: int|
            0 <= i < stream_runs(ws).len() ==> valid_utf8(#[trigger] stream_runs(ws)[i]),
        relayed(decoded(stream_runs(ws)), halts) == decoded(stream_runs(ws)),
        relay_end(decoded(stream_runs(ws)), halts) == RelayEnd::Drained,
        joined_text(relayed(decoded(stream_runs(ws)), halts)) == decode_utf8(joined_bytes(ws)),
{
    let big = joined_bytes(ws);
    assert(big == big.subrange(0, big.len() as int));
    lemma_write_runs(ws, big);
    let (b, s) = sink_after(ws);
    is_char_boundary_start_end_of_seq(big);
    lemma_split_runs(big, s, big.len() as int);
    let runs = write_runs(ws);
    if s < b.len() {
        let runs2 = runs.push(b.subrange(s, b.len() as int));
        assert(decoded(runs2).drop_last() =~= decoded(runs));
        assert(decoded(runs2).last() == decode_utf8(b.subrange(s, b.len() as int)));
    } else {
        assert(big.subrange(0, s) =~= big);
    }
    assert(big.subrange(0, big.len() as int) =~= big);
    lemma_relay_all(decoded(stream_runs(ws)), halts);
}

proof fn lemma_relay_all(chunks: Seq<Seq<char>>, halts: Seq<bool>)
    requires
        halts.len() == chunks.len(),
        forall|i: int| 0 <= i < halts.len() ==> !#[trigger] halts[i],
    ensures
        relayed(chunks, halts) == chunks,
        relay_end(chunks, halts) == RelayEnd::Drained,
    decreases chunks.len(),
{
    if chunks.len() > 0 {
        let hs = halts.drop_first();
        assert(forall|i: int| 0 <= i < hs.len() ==> #[trigger] hs[i] == halts[i + 1]);
        lemma_relay_all(chunks.drop_first(), hs);
        assert(!halts[0]);
        assert(seq![chunks[0]] + chunks.drop_first() =~= chunks);
    }
}

/// Once a relay reads the halt token raised on receiving chunk `k`, it forwards
/// nothing from chunk `k` on: what it forwarded is a prefix of fewer than `k + 1`
/// chunks, and it stops as cancelled rather than drained.
pub proof fn lemma_cancelled_relay(chunks: Seq<Seq<char>>, halts: Seq<bool>, k: int)
    requires
        halts.len() == chunks.len(),
        0 <= k < chunks.len(),
        halts[k],
    ensures
        relayed(chunks, halts).len() <= k,
        relayed(chunks, halts) == chunks.take(relayed(chunks, halts).len() as int),
        relay_end(chunks, halts) == RelayEnd::Cancelled,
    decreases chunks.len(),
{
    if !halts[0] {
        let cs = chunks.drop_first();
        let hs = halts.drop_first();
        assert(hs[k - 1] == halts[k]);
        lemma_cancelled_relay(cs, hs, k - 1);
        let r = relayed(cs, hs);
        assert(relayed(chunks, halts) =~= chunks.take(r.len() as int + 1));
    } else {
        assert(chunks.take(0) =~= Seq::<Seq<char>>::empty());
    }
}

/// What the runner hands back once the interpreter is done: on success the
/// success payload over both snapshots and the final variables, on failure the
/// failure payload over the diagnosis and both snapshots.
pub fn finish_run(capture: &OutputCapture, result: Result<Vec<(String, String)>, ScriptFault>) -> (r:
    Result<String, String>)
    requires
        result matches Ok(vs) ==> names_unique(vs@),
    ensures
        result matches Ok(vs) ==> (r matches Ok(j) && j@ == success_json(
            lossy_text(capture.out()@),
            lossy_text(capture.err()@),
            bindings_view(vs@),
        )),
        result matches Err(f) ==> (r matches Err(j) && j@ == failure_json(
            lossy_text(capture.out()@),
            lossy_text(capture.err()@),
            fault_message(f),
            fault_line(f),
        )),
{
    match result {
        Ok(variables) => {
            let response = ScriptResponse::new(
                capture.get_stdout(),
                capture.get_stderr(),
                variables,
            );
            Ok(response.to_json())
        },
        Err(fault) => {
            let stdout = capture.get_stdout();
            let stderr = capture.get_stderr();
            Err(handle_script_error(fault, stderr, stdout))
        },
    }
}

/// The terminal outcome of one execution, handed to the caller: the success
/// payload, or a failure text, with cancellation kept apart from faults.
pub enum Outcome {
    Completed(String),
    Cancelled(String),
    Faulted(String),
}

/// Joins the three units of work. Each argument is `Err` with a text where the
/// unit could not be joined. A failed join faults the execution (the runner's
/// first, then the relays' in order); otherwise a runner that succeeded
/// completes it whatever the relays saw, and a runner that failed after a
/// relay saw the halt token ends it as cancelled, else as faulted.
pub fn settle(
    runner: Result<Result<String, String>, String>,
    stdout_relay: Result<RelayEnd, String>,
    stderr_relay: Result<RelayEnd, String>,
) -> (o: Outcome)
    ensures
        runner matches Err(e) ==> o == Outcome::Faulted(e),
        runner is Ok ==> (stdout_relay matches Err(e) ==> o == Outcome::Faulted(e)),
        runner is Ok && stdout_relay is Ok ==> (stderr_relay matches Err(e) ==> o
            == Outcome::Faulted(e)),
        stdout_relay is Ok && stderr_relay is Ok ==> {
            &&& (runner matches Ok(Ok(j)) ==> o == Outcome::Completed(j))
            &&& (runner matches Ok(Err(j)) ==> (o == if stdout_relay == Ok::<RelayEnd, String>(
                RelayEnd::Cancelled,
            ) || stderr_relay == Ok::<RelayEnd, String>(RelayEnd::Cancelled) {
                Outcome::Cancelled(j)
            } else {
                Outcome::Faulted(j)
            }))
        },
{
    let result = match runner {
        Err(e) => return Outcome::Faulted(e),
        Ok(result) => result,
    };
    let out_end = match stdout_relay {
        Err(e) => return Outcome::Faulted(e),
        Ok(end) => end,
    };
    let err_end = match stderr_relay {
        Err(e) => return Outcome::Faulted(e),
        Ok(end) => end,
    };
    match result {
        Ok(j) => Outcome::Completed(j),
        Err(j) => {
            if out_end == RelayEnd::Cancelled || err_end == RelayEnd::Cancelled {
                Outcome::Cancelled(j)
            } else {
                Outcome::Faulted(j)
            }
        },
    }
}

} // verus!
