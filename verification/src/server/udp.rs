//! Datagrams: each one is handed to the decoder whole.
use vstd::prelude::*;

use crate::receive::decode_spec;
use crate::receive::Gelf;
use crate::receive::Step;
use crate::server::receive;
use crate::server::received_view;
use crate::server::Received;

verus! {

/// Takes the datagram in `src`, which came at `now`, and hands it to the
/// decoder. `src` is empty afterwards.
///
/// A datagram without a byte is passed over: there is nothing received, no
/// error, and the decoder is left alone.
pub fn decode(gelf: &mut Gelf, src: &mut Vec<u8>, now: u128) -> (r: Option<Received>)
    ensures
        final(gelf).config() == old(gelf).config(),
        final(src)@.len() == 0,
        old(src)@.len() == 0 ==> r is None && final(gelf).pending() == old(gelf).pending()
            && final(gelf).counter() == old(gelf).counter(),
        old(src)@.len() > 0 ==> r is Some && (Step {
            pending: final(gelf).pending(),
            counter: final(gelf).counter(),
            outcome: received_view(r->0),
        }) == decode_spec(
            old(gelf).config(),
            old(gelf).pending(),
            old(gelf).counter(),
            old(src)@,
            now,
        ),
{
    // All datagrams are considered a valid message
    let datagram = src.split_off(0);
    assert(datagram@ =~= old(src)@);
    if datagram.len() == 0 {
        return None;
    }
    Some(receive(gelf, datagram, now))
}

} // verus!
