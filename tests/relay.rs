use serial_logger::error::Error;
use serial_logger::loops::{prepare_input_line, relay_should_stop, ShutdownPoll, TakeOutcome, WriteLoop};

#[test]
fn line_is_forwarded_with_newline() {
    let w = WriteLoop::new(false);
    assert_eq!(w.run(TakeOutcome::Line(b"AT".to_vec())), Ok(Some(b"AT\n".to_vec())));
}

#[test]
fn windows_line_ending_forwards_crlf() {
    let w = WriteLoop::new(true);
    assert_eq!(w.run(TakeOutcome::Line(b"AT".to_vec())), Ok(Some(b"AT\r\n".to_vec())));
}

#[test]
fn nothing_waiting_forwards_nothing() {
    let w = WriteLoop::new(false);
    assert_eq!(w.run(TakeOutcome::Empty), Ok(None));
}

#[test]
fn disconnected_relay_is_fatal() {
    let w = WriteLoop::new(false);
    assert_eq!(w.run(TakeOutcome::Disconnected), Err(Error::StdInThreadDisconnected));
}

#[test]
fn each_taken_line_is_forwarded_once_in_order() {
    let w = WriteLoop::new(false);
    let polls = vec![
        TakeOutcome::Line(b"one".to_vec()),
        TakeOutcome::Empty,
        TakeOutcome::Line(b"two".to_vec()),
        TakeOutcome::Line(b"".to_vec()),
    ];
    let mut device: Vec<u8> = Vec::new();
    for p in polls {
        if let Some(bytes) = w.run(p).unwrap() {
            device.extend(bytes);
        }
    }
    assert_eq!(device, b"one\ntwo\n\n".to_vec());
}

#[test]
fn input_line_is_trimmed() {
    assert_eq!(prepare_input_line(b"hello\n"), Ok(b"hello".to_vec()));
    assert_eq!(prepare_input_line(b"hi\r\n"), Ok(b"hi".to_vec()));
    assert_eq!(prepare_input_line(b"last"), Ok(b"last".to_vec()));
    assert_eq!(prepare_input_line(b"\n"), Ok(vec![]));
}

#[test]
fn input_line_with_nul_is_refused() {
    assert_eq!(prepare_input_line(b"a\0b\n"), Err(Error::InputContainsNul));
}

#[test]
fn relay_stops_on_signal_or_lost_sender() {
    assert!(relay_should_stop(ShutdownPoll::Signalled));
    assert!(relay_should_stop(ShutdownPoll::SenderGone));
    assert!(!relay_should_stop(ShutdownPoll::Pending));
}
