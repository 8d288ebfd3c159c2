use sqelf::process::{self, Process};
use sqelf::receive::{self, Gelf};
use sqelf::server::tcp::Decode;
use sqelf::server::{on_event, on_processed, udp, Action, Event, Metrics, Received};

struct Server {
    gelf: Gelf,
    process: Process,
    metrics: Metrics,
    events: Vec<serde_json::Value>,
    errors: Vec<String>,
}

impl Server {
    fn new(receive: receive::Config) -> Server {
        Server {
            gelf: receive::build(receive),
            process: process::build(Default::default()),
            metrics: Metrics::new(),
            events: Vec::new(),
            errors: Vec::new(),
        }
    }

    fn received(&mut self, received: Received) {
        match on_event(Event::Received(received), &mut self.metrics) {
            Action::Process(msg) => {
                let result = match self.process.read_as_clef(msg) {
                    Ok(line) => {
                        self.events
                            .push(serde_json::from_str(&line).expect("failed to read event"));
                        Ok(())
                    }
                    Err(err) => Err(err),
                };

                if let Some(err) = on_processed(result, &mut self.metrics) {
                    self.errors.push(err.to_string());
                }
            }
            Action::Continue => {}
            Action::Report(err, _) => self.errors.push(err.to_string()),
            Action::Stop(_) => panic!("nothing that arrives stops the server"),
        }
    }

    fn datagram(&mut self, bytes: &[u8]) {
        let mut src = bytes.to_vec();

        if let Some(received) = udp::decode(&mut self.gelf, &mut src, 0) {
            self.received(received);
        }
    }
}

struct Connection {
    decode: Decode,
    buf: Vec<u8>,
}

impl Connection {
    fn new(max_size_bytes: usize) -> Connection {
        Connection {
            decode: Decode::new(max_size_bytes),
            buf: Vec::new(),
        }
    }

    fn write(&mut self, server: &mut Server, bytes: &[u8]) {
        self.buf.extend(bytes);

        while let Some(frame) = self.decode.decode(&mut self.buf) {
            let mut frame = frame;

            if let Some(received) = udp::decode(&mut server.gelf, &mut frame, 0) {
                server.received(received);
            }
        }
    }
}

fn udp_chunk(id: u64, seq_num: u8, seq_total: u8, bytes: &[u8]) -> Vec<u8> {
    let mut header = vec![0x1e, 0x0f];

    header.extend(&id.to_be_bytes());
    header.push(seq_num);
    header.push(seq_total);
    header.extend(bytes);

    header
}

const BAR: &[u8] = br#"{"host":"foo","short_message":"bar"}"#;

#[test]
fn udp_chunked_simple() {
    let mut server = Server::new(Default::default());
    let (first, second) = BAR.split_at(BAR.len() / 2);

    server.datagram(&udp_chunk(0, 0, 2, first));
    assert_eq!(0, server.events.len());

    server.datagram(&udp_chunk(0, 1, 2, second));

    assert_eq!(1, server.events.len());
    assert_eq!("bar", server.events[0]["@m"]);
}

#[test]
fn udp_chunked_reorder() {
    let mut server = Server::new(Default::default());
    let (first, second) = BAR.split_at(BAR.len() / 2);

    server.datagram(&udp_chunk(0, 1, 2, second));
    assert_eq!(0, server.events.len());

    server.datagram(&udp_chunk(0, 0, 2, first));

    assert_eq!(1, server.events.len());
    assert_eq!("bar", server.events[0]["@m"]);
    assert!(server.errors.is_empty());
}

#[test]
fn udp_invalid() {
    let mut server = Server::new(Default::default());

    server.datagram(b"not json!");
    assert_eq!(0, server.events.len());
    assert_eq!(1, server.errors.len());

    server.datagram(BAR);

    assert_eq!(1, server.events.len());
    assert_eq!("bar", server.events[0]["@m"]);
    assert_eq!(2, server.metrics.receive_ok);
    assert_eq!(1, server.metrics.process_ok);
    assert_eq!(1, server.metrics.process_err);
}

#[test]
fn udp_chunked_overflow() {
    let mut server = Server::new(receive::Config {
        max_chunks_per_message: 3,
        ..Default::default()
    });

    let msg = br#"{"host":"foo","short_message":"this is a short message but long enough for 5 chunks"}"#;
    let chunks: Vec<&[u8]> = msg.chunks(msg.len() / 5 + 1).collect();
    assert_eq!(5, chunks.len());

    for (i, chunk) in chunks.iter().enumerate() {
        server.datagram(&udp_chunk(0, i as u8, 5, chunk));
    }

    assert_eq!(0, server.events.len());
    assert_eq!(5, server.errors.len());
    assert_eq!(0, server.gelf.incomplete_len());

    server.datagram(BAR);

    assert_eq!(1, server.events.len());
    assert_eq!("bar", server.events[0]["@m"]);
}

#[test]
fn udp_chunked_overflow_invalid_header() {
    let mut server = Server::new(receive::Config {
        max_chunks_per_message: 3,
        ..Default::default()
    });

    let msg = br#"{"host":"foo","short_message":"this is a short message but long enough for 5 chunks"}"#;
    let chunks: Vec<&[u8]> = msg.chunks(msg.len() / 5 + 1).collect();

    // We have 5 chunks but are going to pretend there's two
    for (i, chunk) in chunks.iter().enumerate() {
        server.datagram(&udp_chunk(0, i as u8, 2, chunk));
    }

    // the first two make a message that is no JSON, the others are refused
    assert_eq!(0, server.events.len());
    assert_eq!(4, server.errors.len());

    server.datagram(BAR);

    assert_eq!(1, server.events.len());
    assert_eq!("bar", server.events[0]["@m"]);
}

#[test]
fn tcp_simple() {
    let mut server = Server::new(Default::default());
    let mut stream = Connection::new(512);

    stream.write(&mut server, BAR);
    stream.write(&mut server, b"\0");

    assert_eq!(1, server.events.len());
    assert_eq!("bar", server.events[0]["@m"]);
}

#[test]
fn tcp_partial() {
    let mut server = Server::new(Default::default());
    let mut stream = Connection::new(512);

    stream.write(&mut server, BAR);

    assert_eq!(0, server.events.len());
    assert!(server.errors.is_empty());
}

#[test]
fn tcp_invalid() {
    let mut server = Server::new(Default::default());
    let mut stream = Connection::new(512);

    stream.write(&mut server, b"not json!\0");
    assert_eq!(0, server.events.len());

    stream.write(&mut server, BAR);
    stream.write(&mut server, b"\0");

    assert_eq!(1, server.events.len());
    assert_eq!("bar", server.events[0]["@m"]);
}

#[test]
fn tcp_huge() {
    let mut server = Server::new(Default::default());
    let mut stream = Connection::new(1024 * 32);

    let short_message = "a".repeat(1024 * 12);
    let msg = format!(r#"{{"host":"foo","short_message":"{}"}}"#, short_message);

    for piece in msg.as_bytes().chunks(1000) {
        stream.write(&mut server, piece);
    }
    stream.write(&mut server, b"\0");

    assert_eq!(1, server.events.len());
    assert_eq!(short_message, server.events[0]["@m"]);
}

#[test]
fn tcp_overflow() {
    let mut server = Server::new(Default::default());
    let mut stream = Connection::new(512);

    let msg = format!(r#"{{"host":"foo","short_message":"{}"}}"#, "a".repeat(1024));

    stream.write(&mut server, msg.as_bytes());
    stream.write(&mut server, b"\0");
    stream.write(&mut server, BAR);
    stream.write(&mut server, b"\0");

    assert_eq!(1, server.events.len());
    assert_eq!("bar", server.events[0]["@m"]);
    assert!(server.errors.is_empty());
    assert_eq!(1, stream.decode.take_overflows());
}

#[test]
fn tcp_multiple_conns() {
    let mut server = Server::new(Default::default());
    let mut first = Connection::new(512);
    let mut second = Connection::new(512);

    first.write(&mut server, &BAR[..10]);
    second.write(&mut server, br#"{"short_message":"baz"}"#);
    first.write(&mut server, &BAR[10..]);
    second.write(&mut server, b"\0");
    first.write(&mut server, b"\0");

    assert_eq!(2, server.events.len());
    assert_eq!("baz", server.events[0]["@m"]);
    assert_eq!("bar", server.events[1]["@m"]);
}
