use std::io::ErrorKind;

use tcp_teardown::client::{nth_number, SendStep, Sender, INJECTED_ODD, SEND_LIMIT};
use tcp_teardown::frame::decode_frame;
use tcp_teardown::mode::TeardownMode;
use tcp_teardown::outcome::{classify, RunStats, SingleRunResult};
use tcp_teardown::server::{Action, ConnHandler, Event, Outcome};

#[test]
fn numbers_are_even_but_the_middle_one() {
    assert_eq!(nth_number(0, 10), 0);
    assert_eq!(nth_number(1, 10), 0);
    assert_eq!(nth_number(3, 10), 2);
    assert_eq!(nth_number(5, 10), 23);
    assert_eq!(nth_number(7, 10), 6);
    assert_eq!(nth_number(SEND_LIMIT / 2, SEND_LIMIT), INJECTED_ODD);
    assert_eq!(nth_number(SEND_LIMIT / 2 + 1, SEND_LIMIT), SEND_LIMIT / 2);
    assert_eq!(nth_number(SEND_LIMIT - 1, SEND_LIMIT), SEND_LIMIT - 2);
}

#[test]
fn sender_sends_the_stream_in_order() {
    let mut s = Sender::new(6);
    let mut sent = Vec::new();
    loop {
        match s.poll(false) {
            SendStep::Send { value, frame } => {
                assert_eq!(decode_frame(&frame), value);
                sent.push(value);
            }
            SendStep::Stop => break,
        }
    }
    assert_eq!(sent, vec![0, 0, 2, 23, 4, 4]);
    assert!(s.stopped);
}

#[test]
fn sender_stops_at_once_on_stop_signal() {
    let mut s = Sender::new(SEND_LIMIT);
    assert!(matches!(s.poll(false), SendStep::Send { .. }));
    assert!(matches!(s.poll(false), SendStep::Send { .. }));
    assert!(matches!(s.poll(true), SendStep::Stop));
    assert_eq!(s.next, 2);
    assert!(matches!(s.poll(false), SendStep::Stop));
    assert_eq!(s.next, 2);
}

#[test]
fn sender_stops_after_failed_write() {
    let mut s = Sender::new(SEND_LIMIT);
    assert!(matches!(s.poll(false), SendStep::Send { .. }));
    s.write_failed();
    assert!(matches!(s.poll(false), SendStep::Stop));
    assert_eq!(s.next, 1);
}

#[test]
fn sender_with_empty_stream_sends_nothing() {
    let mut s = Sender::new(0);
    assert!(matches!(s.poll(false), SendStep::Stop));
}

#[test]
fn classification_covers_every_combination() {
    assert_eq!(classify(Ok(23), None), SingleRunResult::ResponseCorrect);
    assert_eq!(
        classify(Err(ErrorKind::UnexpectedEof), None),
        SingleRunResult::ReadResponseError(ErrorKind::UnexpectedEof)
    );
    assert_eq!(
        classify(Ok(23), Some(ErrorKind::BrokenPipe)),
        SingleRunResult::WriteNumberError(ErrorKind::BrokenPipe)
    );
    assert_eq!(
        classify(Err(ErrorKind::ConnectionReset), Some(ErrorKind::BrokenPipe)),
        SingleRunResult::BothErr { read: ErrorKind::ConnectionReset, write: ErrorKind::BrokenPipe }
    );
    assert_ne!(
        classify(Err(ErrorKind::ConnectionReset), Some(ErrorKind::BrokenPipe)),
        SingleRunResult::BothErr { read: ErrorKind::BrokenPipe, write: ErrorKind::ConnectionReset }
    );
    assert_ne!(
        SingleRunResult::ReadResponseError(ErrorKind::BrokenPipe),
        SingleRunResult::WriteNumberError(ErrorKind::BrokenPipe)
    );
}

#[test]
fn new_table_is_empty() {
    let stats = RunStats::new();
    assert_eq!(stats.total(), 0);
    assert!(stats.entries().is_empty());
    assert_eq!(stats.count(&SingleRunResult::ResponseCorrect), 0);
}

#[test]
fn stats_keep_one_row_per_outcome() {
    let mut stats = RunStats::new();
    for _ in 0..4 {
        stats.record(SingleRunResult::WriteNumberError(ErrorKind::BrokenPipe));
    }
    stats.record(SingleRunResult::ResponseCorrect);
    assert_eq!(
        stats.entries(),
        &[
            (SingleRunResult::WriteNumberError(ErrorKind::BrokenPipe), 4),
            (SingleRunResult::ResponseCorrect, 1),
        ][..]
    );
}

#[test]
fn stats_count_each_outcome() {
    let mut stats = RunStats::new();
    assert_eq!(stats.total(), 0);
    stats.record(SingleRunResult::ResponseCorrect);
    stats.record(SingleRunResult::ReadResponseError(ErrorKind::ConnectionReset));
    stats.record(SingleRunResult::ResponseCorrect);
    stats.record(SingleRunResult::ReadResponseError(ErrorKind::UnexpectedEof));
    stats.record(SingleRunResult::ReadResponseError(ErrorKind::ConnectionReset));
    assert_eq!(stats.total(), 5);
    assert_eq!(stats.count(&SingleRunResult::ResponseCorrect), 2);
    assert_eq!(stats.count(&SingleRunResult::ReadResponseError(ErrorKind::ConnectionReset)), 2);
    assert_eq!(stats.count(&SingleRunResult::ReadResponseError(ErrorKind::UnexpectedEof)), 1);
    assert_eq!(stats.count(&SingleRunResult::WriteNumberError(ErrorKind::ConnectionReset)), 0);
    assert_eq!(stats.entries().len(), 3);
}

/// Runs one probe against a handler in memory: the sender's frames go to the
/// handler until it asks to echo, the echo stops the sender, and the handler
/// then tears down as its mode says, with the peer ending its stream.
fn probe_in_memory(mode: TeardownMode, limit: u32) -> (SingleRunResult, ConnHandler) {
    let mut handler = ConnHandler::new(mode);
    let mut sender = Sender::new(limit);
    let mut response: Option<u32> = None;
    loop {
        match sender.poll(response.is_some()) {
            SendStep::Stop => break,
            SendStep::Send { frame, .. } => {
                if matches!(handler.action(), Action::ReadFrame) {
                    handler.advance(Event::FrameRead { frame });
                }
                if let Action::WriteEcho { frame } = handler.action() {
                    response = Some(decode_frame(&frame));
                    handler.advance(Event::EchoWritten);
                }
            }
        }
    }
    loop {
        let event = match handler.action() {
            Action::Shutdown { .. } => Event::ShutdownDone,
            Action::Sleep => Event::Slept,
            Action::DrainRead => Event::DrainRead { len: 0 },
            Action::Close => break,
            other => panic!("unexpected action {:?}", other),
        };
        handler.advance(event);
    }
    let read = match response {
        Some(v) => Ok(v),
        None => Err(ErrorKind::UnexpectedEof),
    };
    assert_eq!(read, Ok(INJECTED_ODD));
    (classify(read, None), handler)
}

#[test]
fn close_immediately_probe_is_correct() {
    let (result, handler) = probe_in_memory(TeardownMode::CloseImmediately, SEND_LIMIT);
    assert_eq!(result, SingleRunResult::ResponseCorrect);
    assert_eq!(handler.outcome(), Some(Outcome::Released));
    let mut stats = RunStats::new();
    stats.record(result);
    assert_eq!(stats.total(), 1);
    assert_eq!(stats.count(&SingleRunResult::ResponseCorrect), 1);
}

#[test]
fn ten_shutdown_write_probes_sum_to_ten() {
    let mut stats = RunStats::new();
    for _ in 0..10 {
        let (result, handler) = probe_in_memory(TeardownMode::ShutdownWriteThenClose, 1000);
        assert_eq!(handler.outcome(), Some(Outcome::Released));
        stats.record(result);
    }
    assert_eq!(stats.total(), 10);
    let sum: u64 = stats.entries().iter().map(|(_, n)| *n).sum();
    assert_eq!(sum, 10);
}
