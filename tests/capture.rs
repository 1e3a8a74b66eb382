use mud::capture::{HaltToken, OutputCapture, OutputSink};
use mud::execution::{relay_step, RelayEnd, RelayStep};

#[test]
fn sink_buffers_and_offers_each_write() {
    let mut sink = OutputSink::new();
    assert_eq!(sink.write(b"hello ", false), Some("hello ".to_string()));
    assert_eq!(sink.write(b"world", false), Some("world".to_string()));
    assert_eq!(sink.snapshot(), "hello world");
}

#[test]
fn empty_write_offers_nothing() {
    let mut sink = OutputSink::new();
    assert_eq!(sink.write(b"", false), None);
    assert_eq!(sink.snapshot(), "");
}

#[test]
fn halted_sink_still_buffers() {
    let mut sink = OutputSink::new();
    assert_eq!(sink.write(b"before ", false), Some("before ".to_string()));
    assert_eq!(sink.write(b"after", true), None);
    assert_eq!(sink.snapshot(), "before after");
}

#[test]
fn invalid_bytes_are_replaced() {
    let mut sink = OutputSink::new();
    assert_eq!(sink.write(&[b'a', 0xff, b'b'], false), Some("a\u{fffd}b".to_string()));
    assert_eq!(sink.snapshot(), "a\u{fffd}b");
}

#[test]
fn capture_keeps_streams_apart() {
    let mut c = OutputCapture::new();
    assert_eq!(c.write_stdout(b"out", false), Some("out".to_string()));
    assert_eq!(c.write_stderr(b"err", false), Some("err".to_string()));
    assert_eq!(c.get_stdout(), "out");
    assert_eq!(c.get_stderr(), "err");
}

#[test]
fn halt_token_fires_once() {
    let mut t = HaltToken::new();
    assert!(!t.is_raised());
    assert!(t.fire());
    assert!(t.is_raised());
    assert!(!t.fire());
    assert!(t.is_raised());
}

fn relay(chunks: Vec<Option<String>>, halts: Vec<bool>) -> (Vec<String>, RelayEnd) {
    let mut delivered = Vec::new();
    for (chunk, halted) in chunks.into_iter().chain(std::iter::once(None)).zip(halts.into_iter().chain(std::iter::once(false))) {
        match relay_step(halted, chunk) {
            RelayStep::Forward(c) => delivered.push(c),
            RelayStep::Finish(end) => return (delivered, end),
        }
    }
    unreachable!()
}

#[test]
fn uncancelled_stream_delivers_the_whole_text() {
    let writes: Vec<&[u8]> = vec![b"one ", "tw\u{f6} ".as_bytes(), b"", b"three\n"];
    let mut sink = OutputSink::new();
    let mut chunks: Vec<Option<String>> =
        writes.iter().filter_map(|w| sink.write(w, false)).map(Some).collect();
    chunks.extend(sink.finish(false).map(Some));
    let halts = vec![false; chunks.len()];
    let (delivered, end) = relay(chunks, halts);
    assert_eq!(end, RelayEnd::Drained);
    assert_eq!(delivered.concat(), sink.snapshot());
}

#[test]
fn split_character_is_held_until_complete() {
    let mut sink = OutputSink::new();
    assert_eq!(sink.write(&[b'a', 0xc3], false), Some("a".to_string()));
    assert_eq!(sink.write(&[0xa9, b'b'], false), Some("\u{e9}b".to_string()));
    assert_eq!(sink.finish(false), None);
    assert_eq!(sink.snapshot(), "a\u{e9}b");
}

#[test]
fn four_byte_character_across_three_writes() {
    let bytes = "\u{1f600}".as_bytes();
    let mut sink = OutputSink::new();
    assert_eq!(sink.write(&bytes[..1], false), None);
    assert_eq!(sink.write(&bytes[1..3], false), None);
    assert_eq!(sink.write(&bytes[3..], false), Some("\u{1f600}".to_string()));
}

#[test]
fn incomplete_tail_is_offered_at_close() {
    let mut sink = OutputSink::new();
    assert_eq!(sink.write(&[b'x', 0xe2, 0x82], false), Some("x".to_string()));
    assert_eq!(sink.finish(false), Some("\u{fffd}".to_string()));
    assert_eq!(sink.finish(false), None);
    assert_eq!(sink.snapshot(), "x\u{fffd}");
}

#[test]
fn halted_sink_offers_nothing_at_close() {
    let mut sink = OutputSink::new();
    assert_eq!(sink.write(&[0xe2], false), None);
    assert_eq!(sink.finish(true), None);
}

#[test]
fn cancelled_relay_stops_delivering() {
    let chunks = vec![Some("a".to_string()), Some("b".to_string()), Some("c".to_string())];
    let (delivered, end) = relay(chunks, vec![false, true, true]);
    assert_eq!(delivered, vec!["a".to_string()]);
    assert_eq!(end, RelayEnd::Cancelled);
}

#[test]
fn relay_step_cases() {
    assert!(matches!(relay_step(false, None), RelayStep::Finish(RelayEnd::Drained)));
    assert!(matches!(relay_step(true, None), RelayStep::Finish(RelayEnd::Drained)));
    assert!(matches!(relay_step(true, Some("x".to_string())), RelayStep::Finish(RelayEnd::Cancelled)));
    assert!(matches!(relay_step(false, Some("x".to_string())), RelayStep::Forward(c) if c == "x"));
}
