//! A GELF gateway: it takes GELF messages from datagrams or framed byte streams
//! and turns each into one line of CLEF.
//!
//! The parts, in the order in which a log event meets them:
//!
//! - `server`: splits a TCP byte stream into frames and decides what the event
//!   loop does with each thing that arrives.
//! - `receive`: puts chunked, compressed, out-of-order datagrams together into
//!   complete messages.
//! - `process`: reads a message as GELF and maps it to CLEF.
mod clock;
pub mod config;
pub mod diagnostics;
pub mod error;
pub mod io;
pub mod process;
pub mod receive;
pub mod server;

pub use config::Config;
pub use error::Error;
