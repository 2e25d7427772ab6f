use melsec_mc::mc_define::McFrameFormat;
use melsec_mc::request::{McRequest, SerialCounter};
use melsec_mc::transport::{
    backoff_ms, bind_address, hex_dump, scan_buffer, serial_matches, serial_of, RetryPolicy, RetryStep,
    StreamAction, StreamEvent, StreamReader, TcpAction, TcpEvent, TcpExchange, TcpPhase,
    UdpAction, UdpEvent, UdpExchange, UdpPhase,
};

fn response(serial: u16, end_code: u16, body: &[u8]) -> Vec<u8> {
    let mut f = vec![0xD4, 0x00];
    f.extend_from_slice(&serial.to_le_bytes());
    f.extend_from_slice(&[0x00, 0x00, 0x00, 0xFF, 0xFF, 0x03, 0x00]);
    f.extend_from_slice(&((body.len() + 2) as u16).to_le_bytes());
    f.extend_from_slice(&end_code.to_le_bytes());
    f.extend_from_slice(body);
    f
}

fn request(serial: u16) -> Vec<u8> {
    let mut counter = SerialCounter::new();
    McRequest::new(&mut counter)
        .with_serial_number(serial)
        .try_with_request_data(&[0x01, 0x04])
        .expect("body")
        .build_with_format(McFrameFormat::MC4E)
}

#[test]
fn stream_resynchronises_after_a_garbage_byte() {
    // The frame announces 0x0100 bytes, so that the header read one byte
    // early shows a length field of 0 and is malformed.
    let frame = response(42, 0, &[0x5A; 254]);
    let mut stream = vec![0x54u8];
    stream.extend_from_slice(&frame);
    let mut reader = StreamReader::new(&request(42));
    assert_eq!(reader.expected_serial, 42);
    match reader.step(StreamEvent::Received(stream)) {
        StreamAction::Deliver(got) => assert_eq!(got, frame),
        other => panic!("unexpected action {other:?}"),
    }
    assert!(reader.buf.is_empty());
}

#[test]
fn stream_waits_for_the_rest_of_a_frame() {
    let frame = response(7, 0, &[1, 2, 3, 4]);
    let mut reader = StreamReader::new(&request(7));
    assert!(matches!(reader.step(StreamEvent::Received(frame[..10].to_vec())), StreamAction::Read));
    assert!(matches!(reader.step(StreamEvent::Received(frame[10..18].to_vec())), StreamAction::Read));
    assert_eq!(reader.buf.len(), 18);
    let mut tail = frame[18..].to_vec();
    tail.extend_from_slice(&[0xD4, 0x00]);
    match reader.step(StreamEvent::Received(tail)) {
        StreamAction::Deliver(got) => assert_eq!(got, frame),
        other => panic!("unexpected action {other:?}"),
    }
    assert_eq!(reader.buf, vec![0xD4, 0x00]);
}

#[test]
fn stream_drops_frames_under_other_serials() {
    let mut stream = response(6, 0, &[9]);
    let wanted = response(7, 0, &[1, 2]);
    stream.extend_from_slice(&wanted);
    let mut buf = stream.clone();
    assert_eq!(scan_buffer(&mut buf, 7), Some(wanted.clone()));
    assert!(buf.is_empty());
    // Serial 0 takes the first frame.
    let mut buf = stream.clone();
    assert_eq!(scan_buffer(&mut buf, 0), Some(response(6, 0, &[9])));
    assert_eq!(buf, wanted);
    // No frame under serial 8: both are dropped.
    let mut buf = stream;
    assert_eq!(scan_buffer(&mut buf, 8), None);
    assert!(buf.is_empty());
}

#[test]
fn stream_drops_one_byte_of_an_oversized_header() {
    // An extended header that announces 0xFFFF bytes of data.
    let mut stream = vec![0xD4, 0, 1, 0, 0, 0, 0, 0, 0, 0, 0, 0xFF, 0xFF, 0, 0];
    let mut buf = stream.clone();
    assert_eq!(scan_buffer(&mut buf, 0), None);
    assert_eq!(buf, stream[1..].to_vec());
    stream.truncate(1);
    assert_eq!(scan_buffer(&mut stream, 0), None);
    assert_eq!(stream, vec![0xD4]);
}

#[test]
fn stream_ends_on_close_and_failure() {
    let mut reader = StreamReader::new(&request(7));
    assert!(matches!(reader.step(StreamEvent::Received(vec![1, 2, 3])), StreamAction::Read));
    assert!(matches!(reader.step(StreamEvent::Received(Vec::new())), StreamAction::Fail));
    assert!(matches!(reader.step(StreamEvent::Failed), StreamAction::Fail));
    assert_eq!(reader.buf, vec![1, 2, 3]);
}

#[test]
fn serial_of_frames() {
    assert_eq!(serial_of(&[0x54, 0x00, 0x34, 0x12, 0xFF]), 0x1234);
    assert_eq!(serial_of(&[0x54, 0x00, 0x34]), 0);
    assert_eq!(serial_of(&[]), 0);
    assert!(serial_matches(0, 5));
    assert!(serial_matches(5, 5));
    assert!(!serial_matches(5, 6));
    assert!(!serial_matches(5, 0));
}

#[test]
fn datagram_under_another_serial_is_discarded() {
    let (mut ex, first) = UdpExchange::start(1, 3, &request(7));
    assert!(matches!(first, UdpAction::Bind(0)));
    assert_eq!(ex.expected_serial, 7);
    assert!(matches!(ex.step(UdpEvent::Bound), UdpAction::Send));
    assert!(matches!(ex.step(UdpEvent::Sent), UdpAction::Receive));
    assert!(matches!(ex.step(UdpEvent::Packet(response(6, 0, &[1]))), UdpAction::Receive));
    assert_eq!(ex.phase, UdpPhase::Receiving);
    assert_eq!(ex.attempt, 0);
    match ex.step(UdpEvent::Packet(response(7, 0, &[2]))) {
        UdpAction::Deliver(p) => assert_eq!(p, response(7, 0, &[2])),
        other => panic!("unexpected action {other:?}"),
    }
    assert_eq!(ex.phase, UdpPhase::Finished);
}

#[test]
fn datagram_exchange_uses_up_attempts_and_addresses() {
    let (mut ex, first) = UdpExchange::start(2, 2, &request(9));
    assert!(matches!(first, UdpAction::Bind(0)));
    assert!(matches!(ex.step(UdpEvent::BindFailed), UdpAction::Bind(1)));
    assert!(matches!(ex.step(UdpEvent::Bound), UdpAction::Send));
    assert!(matches!(ex.step(UdpEvent::SendFailed), UdpAction::Send));
    assert_eq!(ex.attempt, 1);
    assert!(matches!(ex.step(UdpEvent::Sent), UdpAction::Receive));
    assert!(matches!(ex.step(UdpEvent::ReceiveFailed), UdpAction::Fail));
    assert_eq!(ex.phase, UdpPhase::Finished);
    assert!(matches!(ex.step(UdpEvent::Bound), UdpAction::Fail));

    let (ex, first) = UdpExchange::start(0, 3, &request(9));
    assert!(matches!(first, UdpAction::Fail));
    assert_eq!(ex.phase, UdpPhase::Finished);

    let (mut ex, _) = UdpExchange::start(2, 0, &request(9));
    assert!(matches!(ex.step(UdpEvent::Bound), UdpAction::Bind(1)));
    assert!(matches!(ex.step(UdpEvent::Bound), UdpAction::Fail));

    // A short datagram counts as serial 0.
    let (mut ex, _) = UdpExchange::start(1, 1, &[0x54, 0x00]);
    assert_eq!(ex.expected_serial, 0);
    ex.step(UdpEvent::Bound);
    ex.step(UdpEvent::Sent);
    assert!(matches!(ex.step(UdpEvent::Packet(vec![1])), UdpAction::Deliver(_)));

    // An event out of turn ends the exchange.
    let (mut ex, _) = UdpExchange::start(1, 1, &request(9));
    assert!(matches!(ex.step(UdpEvent::Sent), UdpAction::Fail));
}

#[test]
fn pooled_connection_is_used_while_fresh() {
    let (ex, action) = TcpExchange::begin(2, Some((0, 0)), 300);
    assert_eq!((ex.phase, action), (TcpPhase::OnCached, TcpAction::UseCached));
    let (ex, action) = TcpExchange::begin(2, Some((299, 999_999_999)), 300);
    assert_eq!((ex.phase, action), (TcpPhase::OnCached, TcpAction::UseCached));
    let (ex, action) = TcpExchange::begin(2, Some((300, 0)), 300);
    assert_eq!((ex.phase, action), (TcpPhase::Connecting(0), TcpAction::Connect(0)));
    let (ex, action) = TcpExchange::begin(2, Some((300, 1)), 300);
    assert_eq!((ex.phase, action), (TcpPhase::Connecting(0), TcpAction::Connect(0)));
    let (ex, action) = TcpExchange::begin(2, Some((301, 0)), 300);
    assert_eq!((ex.phase, action), (TcpPhase::Connecting(0), TcpAction::Connect(0)));
    let (ex, action) = TcpExchange::begin(2, None, 300);
    assert_eq!((ex.phase, action), (TcpPhase::Connecting(0), TcpAction::Connect(0)));
    let (ex, action) = TcpExchange::begin(0, None, 300);
    assert_eq!((ex.phase, action), (TcpPhase::Finished, TcpAction::Fail));
}

#[test]
fn pool_exchange_steps() {
    let (mut ex, _) = TcpExchange::begin(2, Some((1, 0)), 300);
    assert_eq!(ex.step(TcpEvent::ExchangeFailed), TcpAction::Connect(0));
    assert_eq!(ex.step(TcpEvent::Connected), TcpAction::Exchange);
    assert_eq!(ex.phase, TcpPhase::OnFresh(0));
    assert_eq!(ex.step(TcpEvent::ExchangeFailed), TcpAction::Connect(1));
    assert_eq!(ex.step(TcpEvent::Connected), TcpAction::Exchange);
    assert_eq!(ex.step(TcpEvent::Delivered), TcpAction::Store);
    assert_eq!(ex.phase, TcpPhase::Finished);
    assert_eq!(ex.step(TcpEvent::Delivered), TcpAction::Fail);

    let (mut ex, _) = TcpExchange::begin(2, Some((1, 0)), 300);
    assert_eq!(ex.step(TcpEvent::Delivered), TcpAction::Store);

    let (mut ex, _) = TcpExchange::begin(2, None, 300);
    assert_eq!(ex.step(TcpEvent::ConnectFailed), TcpAction::Fail);
    assert_eq!(ex.phase, TcpPhase::Finished);

    let (mut ex, _) = TcpExchange::begin(1, None, 300);
    assert_eq!(ex.step(TcpEvent::Connected), TcpAction::Exchange);
    assert_eq!(ex.step(TcpEvent::ExchangeFailed), TcpAction::Fail);
}

#[test]
fn backoff_doubles_and_saturates() {
    assert_eq!(backoff_ms(100, 0), 100);
    assert_eq!(backoff_ms(100, 1), 100);
    assert_eq!(backoff_ms(100, 2), 200);
    assert_eq!(backoff_ms(100, 3), 400);
    assert_eq!(backoff_ms(100, 11), 102_400);
    assert_eq!(backoff_ms(1, 64), 1 << 63);
    assert_eq!(backoff_ms(1, 65), 1 << 63);
    assert_eq!(backoff_ms(1, usize::MAX), 1 << 63);
    assert_eq!(backoff_ms(2, 64), u64::MAX);
    assert_eq!(backoff_ms(u64::MAX, 2), u64::MAX);
    assert_eq!(backoff_ms(0, 40), 0);
}

#[test]
fn retry_policy_steps() {
    let policy = RetryPolicy { attempts: 3, base_backoff_ms: 100 };
    assert_eq!(policy.start(), RetryStep::Attempt(1));
    assert_eq!(
        policy.after_failure(1),
        RetryStep::WaitThenAttempt { millis: 100, attempt: 2 }
    );
    assert_eq!(
        policy.after_failure(2),
        RetryStep::WaitThenAttempt { millis: 200, attempt: 3 }
    );
    assert_eq!(policy.after_failure(3), RetryStep::GiveUp);
    let none = RetryPolicy { attempts: 0, base_backoff_ms: 100 };
    assert_eq!(none.start(), RetryStep::GiveUp);
    assert_eq!(none.after_failure(0), RetryStep::GiveUp);
}

#[test]
fn hex_dump_of_bytes() {
    assert_eq!(hex_dump(&[]), "");
    assert_eq!(hex_dump(&[0x0A]), "0A");
    assert_eq!(hex_dump(&[0x54, 0x00, 0xFF, 0x9c]), "54 00 FF 9C");
}

#[test]
fn datagram_socket_is_bound_in_the_family_of_the_remote() {
    assert_eq!(bind_address(true), "0.0.0.0:0");
    assert_eq!(bind_address(false), "[::]:0");
}

#[test]
fn stream_counts_what_it_drops() {
    // One garbage byte before the frame.
    let frame = response(42, 0, &[0x5A; 254]);
    let mut stream = vec![0x54u8];
    stream.extend_from_slice(&frame);
    let mut reader = StreamReader::new(&request(42));
    assert_eq!(reader.dropped, 0);
    assert!(matches!(reader.step(StreamEvent::Received(stream)), StreamAction::Deliver(_)));
    assert_eq!(reader.dropped, 1);
    assert!(matches!(reader.step(StreamEvent::Failed), StreamAction::Fail));
    assert_eq!(reader.dropped, 0);

    // A whole frame under another serial before the awaited one.
    let other = response(6, 0, &[9]);
    let wanted = response(7, 0, &[1, 2]);
    let mut stream = other.clone();
    stream.extend_from_slice(&wanted);
    let mut reader = StreamReader::new(&request(7));
    assert!(matches!(reader.step(StreamEvent::Received(stream)), StreamAction::Deliver(_)));
    assert_eq!(reader.dropped, other.len());

    // Nothing is dropped while a frame is incomplete, nor by a step that
    // scans nothing.
    let mut reader = StreamReader::new(&request(7));
    assert!(matches!(reader.step(StreamEvent::Received(wanted[..10].to_vec())), StreamAction::Read));
    assert_eq!(reader.dropped, 0);
    assert_eq!(reader.buf.len(), 10);
    assert!(matches!(reader.step(StreamEvent::Failed), StreamAction::Fail));
    assert_eq!(reader.dropped, 0);
}
