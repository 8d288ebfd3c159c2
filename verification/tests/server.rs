use std::str::FromStr;

use sqelf::error::Error;
use sqelf::process;
use sqelf::receive::Gelf;
use sqelf::server::tcp::{keep_alive, Decode, KeepAlive, Listen, Polled, MAX_CONNECTIONS};
use sqelf::server::{
    into_received, on_event, on_processed, receive, udp, Action, Bind, Config, Event, Metrics,
    Protocol, Received, MSG_HANDLE_CLOSED, MSG_INTERRUPTED, MSG_PROCESSING_FAILED,
    MSG_RECEIVING_FAILED,
};

fn frames(decode: &mut Decode, buf: &mut Vec<u8>) -> Vec<Vec<u8>> {
    let mut out = Vec::new();

    while let Some(frame) = decode.decode(buf) {
        out.push(frame);
    }

    out
}

#[test]
fn tcp_frames_end_at_null_bytes() {
    let mut decode = Decode::new(512);
    let mut buf = b"{\"short_message\":\"a\"}\0".to_vec();

    let frame = decode.decode(&mut buf).expect("missing frame");

    assert_eq!(b"{\"short_message\":\"a\"}".to_vec(), frame);
    assert!(buf.is_empty());
    assert_eq!(None, decode.decode(&mut buf));
}

#[test]
fn tcp_multiple_frames_single_write() {
    let mut decode = Decode::new(512);
    let mut buf = b"first\0second\0thi".to_vec();

    assert_eq!(
        vec![b"first".to_vec(), b"second".to_vec()],
        frames(&mut decode, &mut buf)
    );
    assert_eq!(b"thi".to_vec(), buf);

    buf.extend(b"rd\0");

    assert_eq!(vec![b"third".to_vec()], frames(&mut decode, &mut buf));
    assert!(buf.is_empty());
    assert_eq!(0, decode.take_overflows());
}

#[test]
fn tcp_overflow_recovery() {
    let mut decode = Decode::new(512);

    let mut buf = Vec::new();
    buf.extend(b"{\"host\":\"foo\",\"short_message\":\"");
    buf.extend([b'a'; 1024]);
    buf.extend(b"\"}\0");
    buf.extend(b"{\"host\":\"foo\",\"short_message\":\"bar\"}\0");

    let got = frames(&mut decode, &mut buf);

    assert_eq!(vec![b"{\"host\":\"foo\",\"short_message\":\"bar\"}".to_vec()], got);
    assert_eq!(1, decode.take_overflows());
    assert_eq!(0, decode.take_overflows());
    assert!(!decode.is_discarding());
}

#[test]
fn tcp_overflow_in_pieces_is_counted_once() {
    let mut decode = Decode::new(8);
    let mut buf = Vec::new();

    for _ in 0..5 {
        buf.extend(b"aaaa");
        assert_eq!(None, decode.decode(&mut buf));
    }

    assert!(decode.is_discarding());
    assert!(buf.is_empty());

    buf.extend(b"aa\0ok\0");
    assert_eq!(vec![b"ok".to_vec()], frames(&mut decode, &mut buf));
    assert!(!decode.is_discarding());
    assert_eq!(1, decode.take_overflows());
}

#[test]
fn tcp_frame_of_exactly_the_limit_is_accepted() {
    let mut decode = Decode::new(4);
    let mut buf = b"abcd\0abcde\0\0".to_vec();

    assert_eq!(
        vec![b"abcd".to_vec(), Vec::new()],
        frames(&mut decode, &mut buf)
    );
    assert_eq!(1, decode.take_overflows());
}

#[test]
fn tcp_frames_do_not_depend_on_how_the_stream_is_cut() {
    let stream = b"one\0toolongframe\0two\0\0three\0tail".to_vec();

    let mut whole = Decode::new(6);
    let mut buf = stream.clone();
    let expected = frames(&mut whole, &mut buf);
    let expected_overflows = whole.take_overflows();

    assert_eq!(
        vec![
            b"one".to_vec(),
            b"two".to_vec(),
            Vec::new(),
            b"three".to_vec()
        ],
        expected
    );
    assert_eq!(1, expected_overflows);
    assert_eq!(b"tail".to_vec(), buf);

    for cut in 0..=stream.len() {
        let mut decode = Decode::new(6);
        let mut buf = stream[..cut].to_vec();
        let mut got = frames(&mut decode, &mut buf);

        buf.extend(&stream[cut..]);
        got.extend(frames(&mut decode, &mut buf));

        assert_eq!(expected, got);
        assert_eq!(expected_overflows, decode.take_overflows());
        assert_eq!(b"tail".to_vec(), buf);
    }

    // byte by byte
    let mut decode = Decode::new(6);
    let mut buf = Vec::new();
    let mut got = Vec::new();
    for b in &stream {
        buf.push(*b);
        got.extend(frames(&mut decode, &mut buf));
    }
    assert_eq!(expected, got);
    assert_eq!(expected_overflows, decode.take_overflows());
}

#[test]
fn tcp_rest_of_the_stream_is_the_last_frame() {
    let mut decode = Decode::new(16);
    let mut buf = b"first\0rest".to_vec();

    assert_eq!(Some(b"first".to_vec()), decode.decode_eof(&mut buf));
    assert_eq!(Some(b"rest".to_vec()), decode.decode_eof(&mut buf));
    assert_eq!(None, decode.decode_eof(&mut buf));
    assert!(buf.is_empty());

    // what is being discarded is no frame
    let mut decode = Decode::new(2);
    let mut buf = b"much too long".to_vec();
    assert_eq!(None, decode.decode_eof(&mut buf));
    assert!(buf.is_empty());
    assert_eq!(1, decode.take_overflows());
}

#[test]
fn udp_simple() {
    let mut gelf = Gelf::new(Default::default());
    let mut src = b"{\"version\":\"1.1\",\"host\":\"example.org\",\"short_message\":\"bar\"}".to_vec();
    let datagram = src.clone();

    match udp::decode(&mut gelf, &mut src, 0) {
        Some(Received::Complete(msg)) => {
            assert_eq!(vec![datagram], msg.chunks());
        }
        other => panic!("unexpected {:?}", other),
    }

    assert!(src.is_empty());
}

#[test]
fn udp_empty_datagram_is_passed_over() {
    let mut gelf = Gelf::new(Default::default());
    let mut src = Vec::new();

    assert!(udp::decode(&mut gelf, &mut src, 0).is_none());
    assert_eq!(0, gelf.incomplete_len());
}

#[test]
fn udp_refused_chunk_is_received_as_an_error() {
    let mut gelf = Gelf::new(Default::default());
    let mut src = vec![0x1e, 0x0f, 0x00];

    match udp::decode(&mut gelf, &mut src, 0) {
        Some(Received::Error(_)) => {}
        other => panic!("unexpected {:?}", other),
    }

    let mut src = vec![0x1e, 0x0f, 0, 0, 0, 0, 0, 0, 0, 1, 0, 2, b'x'];
    match udp::decode(&mut gelf, &mut src, 0) {
        Some(Received::Incomplete) => {}
        other => panic!("unexpected {:?}", other),
    }
    assert!(gelf.is_pending(1));
}

#[test]
fn what_a_decoder_says_is_always_something_received() {
    assert!(matches!(into_received(Ok(None)), Some(Received::Incomplete)));
    assert!(matches!(
        into_received(Err(Error::msg("broken"))),
        Some(Received::Error(_))
    ));

    let mut gelf = Gelf::new(Default::default());
    let r = receive(&mut gelf, b"whole".to_vec(), 0);
    assert!(matches!(r, Received::Complete(_)));
    assert!(matches!(into_received(Ok(match r {
        Received::Complete(msg) => Some(msg),
        _ => None,
    })), Some(Received::Complete(_))));
}

#[test]
fn bind_addresses_name_their_protocol() {
    let bind = Bind::from_str("tcp://0.0.0.0:12201").unwrap();
    assert_eq!("0.0.0.0:12201", bind.addr);
    assert_eq!(Protocol::Tcp, bind.protocol);

    let bind = Bind::from_str("udp://127.0.0.1:5000").unwrap();
    assert_eq!("127.0.0.1:5000", bind.addr);
    assert_eq!(Protocol::Udp, bind.protocol);

    let bind = Bind::parse("localhost:12201");
    assert_eq!("localhost:12201", bind.addr);
    assert_eq!(Protocol::Udp, bind.protocol);

    let bind = Bind::parse("tcp:/");
    assert_eq!("tcp:/", bind.addr);
    assert_eq!(Protocol::Udp, bind.protocol);

    let bind = Bind::parse("tcp://");
    assert_eq!("", bind.addr);
    assert_eq!(Protocol::Tcp, bind.protocol);

    let bind = Bind::parse("");
    assert_eq!("", bind.addr);
    assert_eq!(Protocol::Udp, bind.protocol);

    let bind = Bind::parse("TCP://host:1");
    assert_eq!("TCP://host:1", bind.addr);
    assert_eq!(Protocol::Udp, bind.protocol);
}

#[test]
fn the_default_configuration_of_the_server() {
    let config = Config::default();

    assert_eq!("0.0.0.0:12201", config.bind.addr);
    assert_eq!(Protocol::Udp, config.bind.protocol);
    assert_eq!(120, config.tcp_keep_alive_secs);
    assert_eq!(256 * 1024, config.tcp_max_size_bytes);
    assert!(config.certificate.is_none());
}

#[test]
fn only_the_handle_and_a_signal_stop_the_loop() {
    let mut metrics = Metrics::new();
    let mut gelf = Gelf::new(Default::default());

    let received = receive(&mut gelf, b"whole".to_vec(), 0);
    match on_event(Event::Received(received), &mut metrics) {
        Action::Process(msg) => assert_eq!(vec![b"whole".to_vec()], msg.chunks()),
        _ => panic!("expected the message to be processed"),
    }
    assert_eq!(1, metrics.receive_ok);

    assert!(matches!(
        on_event(Event::Received(Received::Incomplete), &mut metrics),
        Action::Continue
    ));

    match on_event(
        Event::Received(Received::Error(Error::msg("bad chunk"))),
        &mut metrics,
    ) {
        Action::Report(err, text) => {
            assert_eq!("bad chunk", err.to_string());
            assert_eq!(MSG_PROCESSING_FAILED, text);
        }
        _ => panic!("expected the error to be reported"),
    }

    match on_event(Event::Failed(Error::msg("socket")), &mut metrics) {
        Action::Report(err, text) => {
            assert_eq!("socket", err.to_string());
            assert_eq!(MSG_RECEIVING_FAILED, text);
        }
        _ => panic!("expected the error to be reported"),
    }
    assert_eq!(2, metrics.receive_err);

    match on_event(Event::Closed, &mut metrics) {
        Action::Stop(text) => assert_eq!(MSG_HANDLE_CLOSED, text),
        _ => panic!("expected the loop to stop"),
    }
    match on_event(Event::Interrupted, &mut metrics) {
        Action::Stop(text) => assert_eq!(MSG_INTERRUPTED, text),
        _ => panic!("expected the loop to stop"),
    }

    assert!(on_processed(Ok(()), &mut metrics).is_none());
    let report = on_processed(Err(Error::msg("not json")), &mut metrics);
    assert_eq!("not json", report.unwrap().to_string());

    let taken = metrics.take();
    assert_eq!(
        Metrics {
            receive_ok: 1,
            receive_err: 2,
            process_ok: 1,
            process_err: 1,
            tcp_conn_accept: 0,
            tcp_conn_close: 0,
            tcp_conn_timeout: 0,
            tcp_msg_overflow: 0,
        },
        taken
    );
    assert_eq!(Metrics::new(), metrics);
}

#[test]
fn a_counter_starts_again_after_the_largest_number() {
    let mut metrics = Metrics::new();
    metrics.process_ok = u64::MAX;

    on_processed(Ok(()), &mut metrics);

    assert_eq!(0, metrics.process_ok);
}

#[test]
fn the_pool_holds_no_more_connections_than_it_may() {
    assert_eq!(1024, MAX_CONNECTIONS);

    let mut pool = Listen::new(2);

    assert!(pool.has_room());
    assert!(pool.accept());
    assert!(pool.accept());
    assert!(!pool.has_room());
    assert!(!pool.accept());

    pool.close();
    assert!(pool.has_room());
    assert!(pool.accept());
    assert!(!pool.accept());

    pool.close();
    pool.close();
    pool.close();
    assert!(pool.accept());
    assert!(pool.accept());
    assert!(!pool.accept());

    let mut none = Listen::new(0);
    assert!(!none.accept());
}

#[test]
fn a_connection_is_closed_when_no_message_comes_in_time() {
    let mut timeouts = 0u64;

    assert!(matches!(
        keep_alive(Polled::<u8>::Elapsed, &mut timeouts),
        KeepAlive::TimedOut
    ));
    assert_eq!(1, timeouts);

    assert!(matches!(
        keep_alive(Polled::Ready(Some(7u8)), &mut timeouts),
        KeepAlive::Reset(Some(7))
    ));
    assert!(matches!(
        keep_alive(Polled::<u8>::Ready(None), &mut timeouts),
        KeepAlive::Reset(None)
    ));
    assert!(matches!(
        keep_alive(Polled::<u8>::Pending, &mut timeouts),
        KeepAlive::Pending
    ));
    assert_eq!(1, timeouts);
}

#[test]
fn tcp_frames_become_events_in_their_order() {
    let mut decode = Decode::new(512);
    let mut gelf = Gelf::new(Default::default());
    let process = process::build(Default::default());
    let mut metrics = Metrics::new();

    let mut buf = Vec::new();
    buf.extend(b"{\"host\":\"foo\",\"short_message\":\"");
    buf.extend([b'a'; 1024]);
    buf.extend(b"\"}\0");
    buf.extend(b"{\"host\":\"foo\",\"short_message\":\"bar\"}\0");
    buf.extend(b"not json!\0");
    buf.extend(b"{\"host\":\"foo\",\"short_message\":\"baz\"}\0");

    let mut events = Vec::new();
    let mut errors = 0;

    for frame in frames(&mut decode, &mut buf) {
        match on_event(Event::Received(receive(&mut gelf, frame, 0)), &mut metrics) {
            Action::Process(msg) => {
                let result = process.read_as_clef(msg).map(|line| events.push(line));

                if on_processed(result, &mut metrics).is_some() {
                    errors += 1;
                }
            }
            _ => panic!("expected the message to be processed"),
        }
    }

    assert_eq!(2, events.len());
    assert!(events[0].contains("\"@m\":\"bar\""));
    assert!(events[1].contains("\"@m\":\"baz\""));
    assert_eq!(1, errors);
    assert_eq!(1, decode.take_overflows());
    assert_eq!(3, metrics.receive_ok);
    assert_eq!(2, metrics.process_ok);
    assert_eq!(1, metrics.process_err);
}
