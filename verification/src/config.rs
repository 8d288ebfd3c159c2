//! The configuration of the gateway as a whole.
use vstd::prelude::*;

use crate::diagnostics;
use crate::process;
use crate::receive;
use crate::server;

verus! {

/// The configuration of every part of the gateway.
#[derive(Debug, Clone)]
pub struct Config {
    pub receive: receive::Config,
    pub process: process::Config,
    pub server: server::Config,
    pub diagnostics: diagnostics::Config,
}

/// Whether a value switches an option on: `True` and `true` do.
pub open spec fn truthy_spec(value: Seq<char>) -> bool {
    value == "True"@ || value == "true"@
}

/// Whether a value switches an option on.
pub fn is_truthy_value(value: &str) -> (r: bool)
    ensures
        r == truthy_spec(value@),
{
    crate::process::str::same_text(value, "True") || crate::process::str::same_text(value, "true")
}

impl Default for Config {
    fn default() -> (c: Config)
        ensures
            c.receive.incomplete_capacity == 1024,
            c.receive.max_chunks_per_message == 128,
            c.receive.incomplete_timeout_ms == 5000,
            !c.process.include_raw_payload,
            c.server.bind.addr@ == "0.0.0.0:12201"@,
            c.server.bind.protocol == server::Protocol::Udp,
            c.server.tcp_keep_alive_secs == 120,
            c.server.tcp_max_size_bytes == 262144,
            c.server.certificate is None,
            c.diagnostics.metrics_interval_ms == 60_000,
            c.diagnostics.min_level == diagnostics::Level::Error,
    {
        Config {
            receive: receive::Config::default(),
            process: process::Config::default(),
            server: server::Config::default(),
            diagnostics: diagnostics::Config::default(),
        }
    }
}

impl Config {
    /// The configuration with what diagnostics switch on: the log from
    /// `Debug` on, and the raw payload in every event.
    pub fn with_diagnostics(self) -> (c: Config)
        ensures
            c.diagnostics.min_level == diagnostics::Level::Debug,
            c.diagnostics.metrics_interval_ms == self.diagnostics.metrics_interval_ms,
            c.process.include_raw_payload,
            c.receive == self.receive,
            c.server == self.server,
    {
        let mut c = self;
        c.diagnostics.min_level = diagnostics::Level::Debug;
        c.process.include_raw_payload = true;
        c
    }

    /// The configuration with a certificate, which puts TCP under TLS. An
    /// empty path of the key stands for the path of the certificate.
    pub fn with_certificate(self, path: String, private_key_path: String) -> (c: Config)
        ensures
            c.server.certificate matches Some(certificate) && certificate.path@ == path@
                && certificate.private_key_path@ == if private_key_path@.len() == 0 {
                path@
            } else {
                private_key_path@
            },
            c.server.bind == self.server.bind,
            c.server.tcp_keep_alive_secs == self.server.tcp_keep_alive_secs,
            c.server.tcp_max_size_bytes == self.server.tcp_max_size_bytes,
            c.receive == self.receive,
            c.process == self.process,
            c.diagnostics == self.diagnostics,
    {
        let mut c = self;
        let key = if private_key_path.as_str().is_empty() {
            path.clone()
        } else {
            private_key_path
        };
        c.server.certificate = Some(server::Certificate { path, private_key_path: key });
        c
    }
}

} // verus!
