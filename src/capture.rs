//! Output capture: one sink per stream keeps every byte written, offers the
//! text as it completes for incremental delivery, and yields the whole text on
//! demand. The halt token records that cancellation was asked for.

use vstd::prelude::*;
use vstd::utf8::*;

verus! {

/// The text of a byte sequence, with each invalid sequence replaced.
pub uninterp spec fn lossy_text(b: Seq<u8>) -> Seq<char>;

/// Relies on String::from_utf8_lossy: bytes that are valid UTF-8 decode as they
/// are, and invalid sequences are replaced by U+FFFD, the same way for the same
/// bytes.
#[verifier::external_body]
fn decode_lossy(b: &[u8]) -> (r: String)
    ensures
        r@ == lossy_text(b@),
        valid_utf8(b@) ==> r@ == decode_utf8(b@),
{
    String::from_utf8_lossy(b).into_owned()
}

/// How many bytes the character starting with `b` takes, judged from its
/// leading byte; 1 for any other byte.
pub open spec fn width_of(b: u8) -> int {
    if is_leading_byte_width_2(b) {
        2
    } else if is_leading_byte_width_3(b) {
        3
    } else if is_leading_byte_width_4(b) {
        4
    } else {
        1
    }
}

/// The last position in `from..end` whose byte is not a continuation byte.
pub open spec fn last_start(b: Seq<u8>, from: int, end: int) -> Option<int>
    decreases end - from,
{
    if end <= from {
        None
    } else if !is_continuation_byte(b[end - 1]) {
        Some(end - 1)
    } else {
        last_start(b, from, end - 1)
    }
}

/// How far a sink holding `b`, and having offered up to `from`, may offer:
/// to the end, unless the last character that starts after `from` is not
/// complete yet, in which case up to where it starts.
pub open spec fn next_cut(b: Seq<u8>, from: int) -> int {
    match last_start(b, from, b.len() as int) {
        Some(q) => if q + width_of(b[q]) <= b.len() {
            b.len() as int
        } else {
            q
        },
        None => b.len() as int,
    }
}

/// Whether `chunk` is the text offered for the bytes `run`: their lossy text,
/// which is their exact text where they are valid UTF-8.
pub open spec fn offers(chunk: Option<String>, run: Seq<u8>) -> bool {
    match chunk {
        Some(c) => c@ == lossy_text(run) && (valid_utf8(run) ==> c@ == decode_utf8(run)),
        None => false,
    }
}

/// A byte sink for one output stream. Its view is every byte written so far;
/// it offers them as text, run by run, holding back a character whose bytes
/// have not all been written yet.
pub struct OutputSink {
    buf: Vec<u8>,
    sent: usize,
}

impl View for OutputSink {
    type V = Seq<u8>;

    closed spec fn view(&self) -> Seq<u8> {
        self.buf@
    }
}

impl OutputSink {
    /// How many bytes have been offered so far.
    pub closed spec fn offered(&self) -> int {
        self.sent as int
    }

    pub closed spec fn wf(&self) -> bool {
        self.sent <= self.buf@.len()
    }

    pub fn new() -> (r: Self)
        ensures
            r.wf(),
            r@ == Seq::<u8>::empty(),
            r.offered() == 0,
    {
        OutputSink { buf: Vec::new(), sent: 0 }
    }

    /// The text of the bytes from what was offered up to `end`, offered now.
    fn offer_upto(&mut self, end: usize) -> (chunk: String)
        requires
            old(self).wf(),
            old(self).offered() <= end <= old(self)@.len(),
        ensures
            final(self).wf(),
            final(self)@ == old(self)@,
            final(self).offered() == end,
            chunk@ == lossy_text(old(self)@.subrange(old(self).offered(), end as int)),
            valid_utf8(old(self)@.subrange(old(self).offered(), end as int)) ==> chunk@
                == decode_utf8(old(self)@.subrange(old(self).offered(), end as int)),
    {
        let mut run: Vec<u8> = Vec::new();
        let mut i: usize = self.sent;
        while i < end
            invariant
                self.sent <= i <= end,
                end <= self.buf@.len(),
                run@ == self.buf@.subrange(self.sent as int, i as int),
            decreases end - i,
        {
            run.push(self.buf[i]);
            proof {
                assert(self.buf@.subrange(self.sent as int, i + 1) =~= run@);
            }
            i = i + 1;
        }
        self.sent = end;
        decode_lossy(run.as_slice())
    }

    /// Appends `bytes` to the buffer, whatever `halted` says. Unless halted,
    /// offers the text from what was offered so far up to the next cut, where
    /// that is not empty.
    pub fn write(&mut self, bytes: &[u8], halted: bool) -> (chunk: Option<String>)
        requires
            old(self).wf(),
        ensures
            final(self).wf(),
            final(self)@ == old(self)@ + bytes@,
            halted ==> chunk is None && final(self).offered() == old(self).offered(),
            !halted ==> final(self).offered() == next_cut(final(self)@, old(self).offered()),
            !halted && final(self).offered() == old(self).offered() ==> chunk is None,
            !halted && final(self).offered() > old(self).offered() ==> offers(
                chunk,
                final(self)@.subrange(old(self).offered(), final(self).offered()),
            ),
    {
        let mut i: usize = 0;
        while i < bytes.len()
            invariant
                i <= bytes@.len(),
                self.sent == old(self).sent,
                self@ == old(self)@ + bytes@.take(i as int),
            decreases bytes@.len() - i,
        {
            self.buf.push(bytes[i]);
            proof {
                assert(bytes@.take(i + 1) =~= bytes@.take(i as int).push(bytes@[i as int]));
            }
            i = i + 1;
        }
        proof {
            assert(bytes@.take(i as int) =~= bytes@);
        }
        if halted {
            return None;
        }
        let len = self.buf.len();
        let mut j: usize = len;
        while j > self.sent && 0x80 <= self.buf[j - 1] && self.buf[j - 1] <= 0xbf
            invariant
                self.sent <= j <= len,
                len == self.buf@.len(),
                last_start(self.buf@, self.sent as int, len as int) == last_start(
                    self.buf@,
                    self.sent as int,
                    j as int,
                ),
            decreases j,
        {
            j = j - 1;
        }
        let cut: usize = if j == self.sent {
            len
        } else {
            let lead = self.buf[j - 1];
            let width: usize = if 0xc0 <= lead && lead <= 0xdf {
                2
            } else if 0xe0 <= lead && lead <= 0xef {
                3
            } else if 0xf0 <= lead && lead <= 0xf7 {
                4
            } else {
                1
            };
            if width <= len - (j - 1) {
                len
            } else {
                j - 1
            }
        };
        if cut == self.sent {
            None
        } else {
            Some(self.offer_upto(cut))
        }
    }

    /// Closes the stream: unless halted, offers the text of whatever has not
    /// been offered yet, complete or not.
    pub fn finish(&mut self, halted: bool) -> (chunk: Option<String>)
        requires
            old(self).wf(),
        ensures
            final(self).wf(),
            final(self)@ == old(self)@,
            halted || old(self).offered() == old(self)@.len() ==> chunk is None && *final(self)
                == *old(self),
            !halted && old(self).offered() < old(self)@.len() ==> final(self).offered()
                == old(self)@.len() && offers(
                chunk,
                old(self)@.subrange(old(self).offered(), old(self)@.len() as int),
            ),
    {
        if halted || self.sent == self.buf.len() {
            None
        } else {
            let end = self.buf.len();
            Some(self.offer_upto(end))
        }
    }

    /// The text of everything written so far.
    pub fn snapshot(&self) -> (r: String)
        ensures
            r@ == lossy_text(self@),
            valid_utf8(self@) ==> r@ == decode_utf8(self@),
    {
        decode_lossy(self.buf.as_slice())
    }
}

/// The two sinks of one execution.
pub struct OutputCapture {
    stdout: OutputSink,
    stderr: OutputSink,
}

impl OutputCapture {
    pub closed spec fn out(&self) -> OutputSink {
        self.stdout
    }

    pub closed spec fn err(&self) -> OutputSink {
        self.stderr
    }

    pub open spec fn wf(&self) -> bool {
        self.out().wf() && self.err().wf()
    }

    pub fn new() -> (r: Self)
        ensures
            r.wf(),
            r.out()@ == Seq::<u8>::empty(),
            r.err()@ == Seq::<u8>::empty(),
            r.out().offered() == 0,
            r.err().offered() == 0,
    {
        OutputCapture { stdout: OutputSink::new(), stderr: OutputSink::new() }
    }

    /// Writes to the stdout sink, as `OutputSink::write` does.
    pub fn write_stdout(&mut self, bytes: &[u8], halted: bool) -> (chunk: Option<String>)
        requires
            old(self).wf(),
        ensures
            final(self).wf(),
            final(self).err() == old(self).err(),
            final(self).out()@ == old(self).out()@ + bytes@,
            halted ==> chunk is None && final(self).out().offered() == old(self).out().offered(),
            !halted ==> final(self).out().offered() == next_cut(final(self).out()@, old(self).out().offered()),
            !halted && final(self).out().offered() == old(self).out().offered() ==> chunk is None,
            !halted && final(self).out().offered() > old(self).out().offered() ==> offers(
                chunk,
                final(self).out()@.subrange(old(self).out().offered(), final(self).out().offered()),
            ),
    {
        self.stdout.write(bytes, halted)
    }

    /// Writes to the stderr sink, as `OutputSink::write` does.
    pub fn write_stderr(&mut self, bytes: &[u8], halted: bool) -> (chunk: Option<String>)
        requires
            old(self).wf(),
        ensures
            final(self).wf(),
            final(self).out() == old(self).out(),
            final(self).err()@ == old(self).err()@ + bytes@,
            halted ==> chunk is None && final(self).err().offered() == old(self).err().offered(),
            !halted ==> final(self).err().offered() == next_cut(final(self).err()@, old(self).err().offered()),
            !halted && final(self).err().offered() == old(self).err().offered() ==> chunk is None,
            !halted && final(self).err().offered() > old(self).err().offered() ==> offers(
                chunk,
                final(self).err()@.subrange(old(self).err().offered(), final(self).err().offered()),
            ),
    {
        self.stderr.write(bytes, halted)
    }

    /// Closes the stdout stream, as `OutputSink::finish` does.
    pub fn finish_stdout(&mut self, halted: bool) -> (chunk: Option<String>)
        requires
            old(self).wf(),
        ensures
            final(self).wf(),
            final(self).err() == old(self).err(),
            final(self).out()@ == old(self).out()@,
            halted || old(self).out().offered() == old(self).out()@.len() ==> chunk is None && final(self).out() == old(self).out(),
            !halted && old(self).out().offered() < old(self).out()@.len() ==> final(self).out().offered() == old(self).out()@.len() && offers(
                chunk,
                old(self).out()@.subrange(old(self).out().offered(), old(self).out()@.len() as int),
            ),
    {
        self.stdout.finish(halted)
    }

    /// Closes the stderr stream, as `OutputSink::finish` does.
    pub fn finish_stderr(&mut self, halted: bool) -> (chunk: Option<String>)
        requires
            old(self).wf(),
        ensures
            final(self).wf(),
            final(self).out() == old(self).out(),
            final(self).err()@ == old(self).err()@,
            halted || old(self).err().offered() == old(self).err()@.len() ==> chunk is None && final(self).err() == old(self).err(),
            !halted && old(self).err().offered() < old(self).err()@.len() ==> final(self).err().offered() == old(self).err()@.len() && offers(
                chunk,
                old(self).err()@.subrange(old(self).err().offered(), old(self).err()@.len() as int),
            ),
    {
        self.stderr.finish(halted)
    }

    pub fn get_stdout(&self) -> (r: String)
        ensures
            r@ == lossy_text(self.out()@),
            valid_utf8(self.out()@) ==> r@ == decode_utf8(self.out()@),
    {
        self.stdout.snapshot()
    }

    pub fn get_stderr(&self) -> (r: String)
        ensures
            r@ == lossy_text(self.err()@),
            valid_utf8(self.err()@) ==> r@ == decode_utf8(self.err()@),
    {
        self.stderr.snapshot()
    }
}

/// Records that cancellation was asked for: raised at most once, never
/// lowered.
pub struct HaltToken {
    raised: bool,
}

impl HaltToken {
    pub closed spec fn is_raised_spec(&self) -> bool {
        self.raised
    }

    pub fn new() -> (r: Self)
        ensures
            !r.is_raised_spec(),
    {
        HaltToken { raised: false }
    }

    pub fn is_raised(&self) -> (r: bool)
        ensures
            r == self.is_raised_spec(),
    {
        self.raised
    }

    /// Raises the token. Returns whether this call raised it: a second call
    /// finds it raised, changes nothing and returns `false`.
    pub fn fire(&mut self) -> (changed: bool)
        ensures
            final(self).is_raised_spec(),
            changed == !old(self).is_raised_spec(),
            old(self).is_raised_spec() ==> *final(self) == *old(self),
    {
        let changed = !self.raised;
        self.raised = true;
        changed
    }
}

} // verus!
