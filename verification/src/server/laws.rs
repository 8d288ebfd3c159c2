//! What holds of the frames of a byte stream, however it is cut into pieces
//! on its way.
use vstd::prelude::*;

use crate::receive::decode_spec;
use crate::receive::is_chunk;
use crate::receive::single_spec;
use crate::receive::Config;
use crate::receive::MessageView;
use crate::receive::Partial;
use crate::server::action_spec;
use crate::server::received_view;
use crate::server::ActionView;
use crate::server::Event;
use crate::server::Received;
use crate::server::tcp::find_nul;
use crate::server::tcp::lemma_find_nul;
use crate::server::tcp::scan;
use crate::server::tcp::DELIMITER;

verus! {

/// The frames of `stream` that are within the limit, in their order. A frame
/// is what stands between two null bytes, or before the first; what follows
/// the last null byte is no frame yet.
pub open spec fn accepted(stream: Seq<u8>, max: usize) -> Seq<Seq<u8>>
    decreases stream.len(),
{
    let at = find_nul(stream, 0);
    if 0 <= at < stream.len() {
        let more = accepted(stream.subrange(at + 1, stream.len() as int), max);
        if at <= max {
            seq![stream.subrange(0, at)] + more
        } else {
            more
        }
    } else {
        Seq::empty()
    }
}

/// The number of frames of `stream` that are longer than the limit. What
/// follows the last null byte counts once it is longer than the limit.
pub open spec fn overflowed(stream: Seq<u8>, max: usize) -> nat
    decreases stream.len(),
{
    let at = find_nul(stream, 0);
    if 0 <= at < stream.len() {
        overflowed(stream.subrange(at + 1, stream.len() as int), max) + if at <= max {
            0nat
        } else {
            1nat
        }
    } else if stream.len() > max {
        1
    } else {
        0
    }
}

/// What the calls of a decoder do, taken together, up to the first that
/// hands nothing back.
pub struct Drain {
    /// The frames that were handed back, in their order.
    pub frames: Seq<Seq<u8>>,
    /// The frames that were found too long.
    pub overflows: nat,
    /// Whether the decoder goes on discarding.
    pub discarding: bool,
    /// From where it will search next.
    pub read_head: nat,
    /// What is left in the buffer.
    pub rest: Seq<u8>,
}

/// What a decoder in the given state does with the buffer `buf`, when it is
/// called until it hands nothing back.
pub open spec fn drained(max: usize, discarding: bool, read_head: int, buf: Seq<u8>) -> Drain
    decreases buf.len(),
{
    let at = find_nul(buf, read_head);
    if 0 <= at < buf.len() {
        let more = drained(max, false, 0, buf.subrange(at + 1, buf.len() as int));
        if !discarding && at <= max {
            Drain { frames: seq![buf.subrange(0, at)] + more.frames, ..more }
        } else {
            Drain {
                overflows: more.overflows + if discarding {
                    0nat
                } else {
                    1nat
                },
                ..more
            }
        }
    } else if discarding {
        Drain {
            frames: Seq::empty(),
            overflows: 0,
            discarding: true,
            read_head: 0,
            rest: Seq::empty(),
        }
    } else if buf.len() > max {
        Drain {
            frames: Seq::empty(),
            overflows: 1,
            discarding: true,
            read_head: 0,
            rest: Seq::empty(),
        }
    } else {
        Drain {
            frames: Seq::empty(),
            overflows: 0,
            discarding: false,
            read_head: buf.len(),
            rest: buf,
        }
    }
}

/// `drained` is what the single calls add up to: a call that hands nothing
/// back ends it, and a call that hands back a frame shortens the buffer and is
/// followed by what the calls after it do.
pub proof fn lemma_drained_by_calls(max: usize, discarding: bool, read_head: int, buf: Seq<u8>)
    requires
        0 <= read_head <= buf.len(),
    ensures
        ({
            let one = scan(max, discarding, read_head, buf);
            let all = drained(max, discarding, read_head, buf);
            &&& one.frame is None ==> all == (Drain {
                frames: Seq::empty(),
                overflows: one.overflows,
                discarding: one.discarding,
                read_head: one.read_head,
                rest: one.rest,
            })
            &&& one.frame matches Some(frame) ==> {
                let more = drained(max, one.discarding, one.read_head as int, one.rest);
                &&& one.rest.len() < buf.len()
                &&& one.read_head <= one.rest.len()
                &&& all.frames == seq![frame] + more.frames
                &&& all.overflows == one.overflows + more.overflows
                &&& all.discarding == more.discarding
                &&& all.read_head == more.read_head
                &&& all.rest == more.rest
            }
        }),
    decreases buf.len(),
{
    lemma_find_nul(buf, read_head);
    let at = find_nul(buf, read_head);
    if at < buf.len() {
        let rest = buf.subrange(at + 1, buf.len() as int);
        if !discarding && at <= max {
        } else {
            lemma_drained_by_calls(max, false, 0, rest);
        }
    }
}

/// A decoder that starts on a stream hands back the frames within the limit
/// and counts the others: each frame up to `max` bytes is handed back once, in
/// its place, and each longer one is dropped and counted once.
pub proof fn lemma_frames_within_limit(max: usize, stream: Seq<u8>)
    ensures
        drained(max, false, 0, stream).frames == accepted(stream, max),
        drained(max, false, 0, stream).overflows == overflowed(stream, max),
    decreases stream.len(),
{
    lemma_find_nul(stream, 0);
    let at = find_nul(stream, 0);
    if at < stream.len() {
        lemma_frames_within_limit(max, stream.subrange(at + 1, stream.len() as int));
    }
}

/// The place that `find_nul` finds is the only one with a null byte and none
/// before it.
pub proof fn lemma_find_nul_is(buf: Seq<u8>, from: int, at: int)
    requires
        0 <= from <= at <= buf.len(),
        at < buf.len() ==> buf[at] == DELIMITER,
        forall|j: int| from <= j < at ==> buf[j] != DELIMITER,
    ensures
        find_nul(buf, from) == at,
    decreases at - from,
{
    if from < at {
        lemma_find_nul_is(buf, from + 1, at);
    }
}

/// A decoder does not care how the stream is cut: what it does with a first
/// piece `a` and then, with what it kept, with a second piece `b` is what it
/// does with both at once. The same frames are handed back, as many are
/// counted as too long, and the decoder ends in the same state.
pub proof fn lemma_any_split(max: usize, a: Seq<u8>, b: Seq<u8>)
    ensures
        ({
            let first = drained(max, false, 0, a);
            let second = drained(max, first.discarding, first.read_head as int, first.rest + b);
            let whole = drained(max, false, 0, a + b);
            &&& whole.frames == first.frames + second.frames
            &&& whole.overflows == first.overflows + second.overflows
            &&& whole.discarding == second.discarding
            &&& whole.read_head == second.read_head
            &&& whole.rest == second.rest
        }),
    decreases a.len(),
{
    let first = drained(max, false, 0, a);
    let second = drained(max, first.discarding, first.read_head as int, first.rest + b);
    let whole = drained(max, false, 0, a + b);
    lemma_find_nul(a, 0);
    lemma_find_nul(b, 0);
    let at = find_nul(a, 0);
    if at < a.len() {
        // the first frame ends in `a`
        lemma_find_nul_is(a + b, 0, at);
        let rest = a.subrange(at + 1, a.len() as int);
        assert((a + b).subrange(at + 1, (a + b).len() as int) =~= rest + b);
        assert((a + b).subrange(0, at) =~= a.subrange(0, at));
        lemma_any_split(max, rest, b);
        let more = drained(max, false, 0, rest);
        let more_whole = drained(max, false, 0, rest + b);
        if at <= max {
            assert(whole.frames =~= first.frames + second.frames);
        }
    } else if a.len() <= max {
        // `a` is kept, and the search goes on behind it
        let j = find_nul(b, 0);
        lemma_find_nul_is(a + b, 0, a.len() + j);
        lemma_find_nul_is(a + b, a.len() as int, a.len() + j);
        assert(whole.frames =~= first.frames + second.frames);
    } else {
        // `a` is too long already and is dropped
        let j = find_nul(b, 0);
        lemma_find_nul_is(a + b, 0, a.len() + j);
        assert(first.rest + b =~= b);
        if j < b.len() {
            assert((a + b).subrange(a.len() + j + 1, (a + b).len() as int) =~= b.subrange(
                j + 1,
                b.len() as int,
            ));
        }
        assert(whole.frames =~= first.frames + second.frames);
    }
}

/// A frame that is handed on is one message, whatever is pending: the decoder
/// hands it back whole and keeps nothing of it, and the loop is told to
/// process it. This holds of a frame with a byte in it that does not begin
/// with the magic of a chunk.
pub proof fn lemma_frame_is_one_message(
    config: Config,
    pending: Map<u64, Partial>,
    counter: u64,
    frame: Seq<u8>,
    now: u128,
    received: Received,
)
    requires
        frame.len() > 0,
        !is_chunk(frame),
        received_view(received) == decode_spec(config, pending, counter, frame, now).outcome,
    ensures
        decode_spec(config, pending, counter, frame, now).pending == pending,
        decode_spec(config, pending, counter, frame, now).counter == counter,
        single_spec(frame) matches Some(message) && action_spec(Event::Received(received))
            == ActionView::Process(message),
        single_spec(frame) matches Some(MessageView::Single { bytes, .. }) && bytes == frame,
{
}

} // verus!
