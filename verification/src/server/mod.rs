//! The decisions of the server: where it binds, what a thing that arrives is,
//! and what the event loop does about it.
//!
//! The sockets, the timers and the loop itself are not here. The loop hands
//! each event to `on_event` and does what it is told.
use vstd::prelude::*;
use vstd::string::*;

use crate::diagnostics::bump;
use crate::diagnostics::bumped;
use crate::error::Error;
use crate::receive::decode_spec;
use crate::receive::Gelf;
use crate::receive::Message;
use crate::receive::Step;

pub mod laws;
pub mod tcp;
pub mod udp;

verus! {

/// Message that goes with an error of receiving or processing.
pub const MSG_PROCESSING_FAILED: &'static str = "GELF processing failed";

/// Message that goes with an error of the transport itself.
pub const MSG_RECEIVING_FAILED: &'static str = "GELF processing failed irrecoverably";

/// Message for a stop by the handle.
pub const MSG_HANDLE_CLOSED: &'static str = "Handle closed; shutting down";

/// Message for a stop by a signal.
pub const MSG_INTERRUPTED: &'static str = "Termination signal received; shutting down";

/// The transport that the server listens on.
#[derive(Debug, Clone, Copy, PartialEq, Eq, Structural)]
pub enum Protocol {
    Udp,
    Tcp,
}

/// The address to bind the server to.
#[derive(Debug, Clone)]
pub struct Bind {
    pub addr: String,
    pub protocol: Protocol,
}

/// The paths of a PEM certificate chain and of its private key.
#[derive(Debug, Clone)]
pub struct Certificate {
    pub path: String,
    pub private_key_path: String,
}

/// Server configuration.
#[derive(Debug, Clone)]
pub struct Config {
    /// The address to bind the server to.
    pub bind: Bind,
    /// The duration to keep client TCP connections alive for.
    ///
    /// A connection that completes no message within it is closed.
    pub tcp_keep_alive_secs: u64,
    /// The maximum size of a single event before it is discarded.
    pub tcp_max_size_bytes: u64,
    /// The certificate that puts TCP connections under TLS.
    pub certificate: Option<Certificate>,
}

/// The address and the transport that a bind string names.
///
/// `tcp://` in front selects TCP, `udp://` selects UDP, and the address is
/// what follows. A string without either is an address for UDP.
pub open spec fn bind_spec(s: Seq<char>) -> (Seq<char>, Protocol) {
    if s.len() >= 6 && s.subrange(0, 6) == "tcp://"@ {
        (s.subrange(6, s.len() as int), Protocol::Tcp)
    } else if s.len() >= 6 && s.subrange(0, 6) == "udp://"@ {
        (s.subrange(6, s.len() as int), Protocol::Udp)
    } else {
        (s, Protocol::Udp)
    }
}

/// Whether two strings hold the same characters.
fn same_text(a: &str, b: &str) -> (r: bool)
    ensures
        r == (a@ == b@),
{
    let a = a.to_owned();
    let b = b.to_owned();
    a == b
}

impl Bind {
    /// Reads a bind string.
    pub fn parse(s: &str) -> (b: Bind)
        ensures
            (b.addr@, b.protocol) == bind_spec(s@),
    {
        let n = s.unicode_len();
        if n >= 6 {
            let scheme = s.substring_char(0, 6);
            if same_text(scheme, "tcp://") {
                return Bind { addr: s.substring_char(6, n).to_owned(), protocol: Protocol::Tcp };
            }
            if same_text(scheme, "udp://") {
                return Bind { addr: s.substring_char(6, n).to_owned(), protocol: Protocol::Udp };
            }
        }
        Bind { addr: s.to_owned(), protocol: Protocol::Udp }
    }
}

impl std::str::FromStr for Bind {
    type Err = Error;

    /// Reads a bind string. Every string is one.
    fn from_str(s: &str) -> (r: Result<Bind, Error>)
        ensures
            r matches Ok(bind) && (bind.addr@, bind.protocol) == bind_spec(s@),
    {
        Ok(Bind::parse(s))
    }
}

impl Default for Config {
    fn default() -> (c: Config)
        ensures
            c.bind.addr@ == "0.0.0.0:12201"@,
            c.bind.protocol == Protocol::Udp,
            c.tcp_keep_alive_secs == 120,
            c.tcp_max_size_bytes == 262144,
            c.certificate is None,
    {
        Config {
            bind: Bind { addr: "0.0.0.0:12201".to_owned(), protocol: Protocol::Udp },
            tcp_keep_alive_secs: 2 * 60,
            tcp_max_size_bytes: 1024 * 256,
            certificate: None,
        }
    }
}

/// What a transport has received.
#[derive(Debug)]
pub enum Received {
    /// A chunk that completes nothing yet.
    Incomplete,
    /// A complete message.
    Complete(Message),
    /// A datagram or frame that the decoder refused.
    Error(Error),
}

/// What its decoder says of a datagram or frame, as something received.
pub open spec fn received_spec(outcome: Result<Option<Message>, Error>) -> Received {
    match outcome {
        Ok(Some(msg)) => Received::Complete(msg),
        Ok(None) => Received::Incomplete,
        Err(err) => Received::Error(err),
    }
}

/// What its decoder says of a datagram or frame, as something received. There
/// is always something.
pub fn into_received(outcome: Result<Option<Message>, Error>) -> (r: Option<Received>)
    ensures
        r == Some(received_spec(outcome)),
{
    match outcome {
        Ok(Some(msg)) => Some(Received::Complete(msg)),
        Ok(None) => Some(Received::Incomplete),
        Err(err) => Some(Received::Error(err)),
    }
}

/// The view of something received: that of what the decoder said.
pub open spec fn received_view(r: Received) -> Result<
    Option<crate::receive::MessageView>,
    Seq<char>,
> {
    match r {
        Received::Complete(msg) => Ok(Some(msg@)),
        Received::Incomplete => Ok(None),
        Received::Error(err) => Err(err@),
    }
}

/// Hands a datagram or a frame that came at `now` to the decoder.
pub fn receive(gelf: &mut Gelf, src: Vec<u8>, now: u128) -> (r: Received)
    ensures
        final(gelf).config() == old(gelf).config(),
        (Step {
            pending: final(gelf).pending(),
            counter: final(gelf).counter(),
            outcome: received_view(r),
        }) == decode_spec(old(gelf).config(), old(gelf).pending(), old(gelf).counter(), src@, now),
{
    match gelf.decode_at(src, now) {
        Ok(Some(msg)) => Received::Complete(msg),
        Ok(None) => Received::Incomplete,
        Err(err) => Received::Error(err),
    }
}

/// The counters of the server. Each counts from the last time it was taken,
/// and starts again at 0 after the largest number.
#[derive(Debug, Clone, Copy, PartialEq, Eq, Structural)]
pub struct Metrics {
    pub receive_ok: u64,
    pub receive_err: u64,
    pub process_ok: u64,
    pub process_err: u64,
    pub tcp_conn_accept: u64,
    pub tcp_conn_close: u64,
    pub tcp_conn_timeout: u64,
    pub tcp_msg_overflow: u64,
}

impl Metrics {
    /// Counters at 0.
    pub fn new() -> (m: Metrics)
        ensures
            m == Metrics::zero(),
    {
        Metrics {
            receive_ok: 0,
            receive_err: 0,
            process_ok: 0,
            process_err: 0,
            tcp_conn_accept: 0,
            tcp_conn_close: 0,
            tcp_conn_timeout: 0,
            tcp_msg_overflow: 0,
        }
    }

    /// Counters at 0.
    pub open spec fn zero() -> Metrics {
        Metrics {
            receive_ok: 0,
            receive_err: 0,
            process_ok: 0,
            process_err: 0,
            tcp_conn_accept: 0,
            tcp_conn_close: 0,
            tcp_conn_timeout: 0,
            tcp_msg_overflow: 0,
        }
    }

    /// Hands out the counts and sets every counter to 0.
    pub fn take(&mut self) -> (m: Metrics)
        ensures
            m == *old(self),
            *final(self) == Metrics::zero(),
    {
        let m = *self;
        *self = Metrics::new();
        m
    }
}

/// What can happen while the server runs.
pub enum Event {
    /// A transport has received something.
    Received(Received),
    /// A transport has failed to receive.
    Failed(Error),
    /// The handle was closed.
    Closed,
    /// The process was told to stop.
    Interrupted,
}

/// What the event loop is to do next.
pub enum Action {
    /// Process the message, then go on.
    Process(Message),
    /// Go on.
    Continue,
    /// Report the error under the message, then go on.
    Report(Error, &'static str),
    /// Say the message and stop.
    Stop(&'static str),
}

/// The view of an action.
pub enum ActionView {
    Process(crate::receive::MessageView),
    Continue,
    Report(Seq<char>, Seq<char>),
    Stop(Seq<char>),
}

impl View for Action {
    type V = ActionView;

    open spec fn view(&self) -> ActionView {
        match self {
            Action::Process(msg) => ActionView::Process(msg@),
            Action::Continue => ActionView::Continue,
            Action::Report(err, text) => ActionView::Report(err@, text@),
            Action::Stop(text) => ActionView::Stop(text@),
        }
    }
}

/// What the loop does about an event.
///
/// A message is processed. A refused datagram and a failed transport are
/// reported, and the loop goes on: nothing that arrives ends it. Only the
/// handle and a signal do.
pub open spec fn action_spec(event: Event) -> ActionView {
    match event {
        Event::Received(Received::Complete(msg)) => ActionView::Process(msg@),
        Event::Received(Received::Incomplete) => ActionView::Continue,
        Event::Received(Received::Error(err)) => ActionView::Report(err@, MSG_PROCESSING_FAILED@),
        Event::Failed(err) => ActionView::Report(err@, MSG_RECEIVING_FAILED@),
        Event::Closed => ActionView::Stop(MSG_HANDLE_CLOSED@),
        Event::Interrupted => ActionView::Stop(MSG_INTERRUPTED@),
    }
}

/// The counters after an event: a complete message counts as received, a
/// refused datagram and a failed transport as not received.
pub open spec fn counted_spec(event: Event, metrics: Metrics) -> Metrics {
    match event {
        Event::Received(Received::Complete(_)) => Metrics {
            receive_ok: bumped(metrics.receive_ok),
            ..metrics
        },
        Event::Received(Received::Error(_)) => Metrics {
            receive_err: bumped(metrics.receive_err),
            ..metrics
        },
        Event::Failed(_) => Metrics { receive_err: bumped(metrics.receive_err), ..metrics },
        _ => metrics,
    }
}

/// Decides what the loop does about an event, and counts it.
pub fn on_event(event: Event, metrics: &mut Metrics) -> (action: Action)
    ensures
        action@ == action_spec(event),
        *final(metrics) == counted_spec(event, *old(metrics)),
        action@ is Stop <==> event is Closed || event is Interrupted,
{
    match event {
        // A complete message has been received
        Event::Received(Received::Complete(msg)) => {
            metrics.receive_ok = bump(metrics.receive_ok);
            Action::Process(msg)
        },
        // A chunk of a message has been received
        Event::Received(Received::Incomplete) => Action::Continue,
        // An error occurred receiving a chunk
        Event::Received(Received::Error(err)) => {
            metrics.receive_err = bump(metrics.receive_err);
            Action::Report(err, MSG_PROCESSING_FAILED)
        },
        // The transport itself failed
        Event::Failed(err) => {
            metrics.receive_err = bump(metrics.receive_err);
            Action::Report(err, MSG_RECEIVING_FAILED)
        },
        // A termination signal from the programmatic handle
        Event::Closed => Action::Stop(MSG_HANDLE_CLOSED),
        // A termination signal from the environment
        Event::Interrupted => Action::Stop(MSG_INTERRUPTED),
    }
}

/// Counts how the processing of a message ended, and hands back the error to
/// report under `MSG_PROCESSING_FAILED`, if it ended with one. The loop goes
/// on in either case.
pub fn on_processed(result: Result<(), Error>, metrics: &mut Metrics) -> (report: Option<Error>)
    ensures
        result is Ok ==> report is None && *final(metrics) == (Metrics {
            process_ok: bumped(old(metrics).process_ok),
            ..*old(metrics)
        }),
        result matches Err(e) ==> report == Some(e) && *final(metrics) == (Metrics {
            process_err: bumped(old(metrics).process_err),
            ..*old(metrics)
        }),
{
    match result {
        Ok(()) => {
            metrics.process_ok = bump(metrics.process_ok);
            None
        },
        Err(err) => {
            metrics.process_err = bump(metrics.process_err);
            Some(err)
        },
    }
}

} // verus!
