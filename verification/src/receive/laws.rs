//! What holds of the decoder over more than one datagram.
use vstd::prelude::*;

use crate::receive::content_spec;
use crate::receive::detect_spec;
use crate::receive::gzip_decoded;
use crate::receive::joined;
use crate::receive::single_spec;
use crate::receive::zlib_decoded;
use crate::receive::Compression;
use crate::receive::collected;
use crate::receive::decode_spec;
use crate::receive::expired;
use crate::receive::header_spec;
use crate::receive::in_order;
use crate::receive::is_chunk;
use crate::receive::lemma_holds_all;
use crate::receive::Config;
use crate::receive::MessageView;
use crate::receive::Partial;
use crate::receive::Step;
use crate::receive::CHUNK_HEADER_SIZE;
use crate::receive::NANOS_PER_MILLI;

verus! {

/// The bytes of a chunk datagram that follow its header.
pub open spec fn body_spec(src: Seq<u8>) -> Seq<u8> {
    src.subrange(CHUNK_HEADER_SIZE as int, src.len() as int)
}

/// What the last of `datagrams` does when they come one after the other, each
/// at its time, to a decoder with the table `pending` and the tiebreak
/// `counter`.
pub open spec fn delivered(
    config: Config,
    pending: Map<u64, Partial>,
    counter: u64,
    datagrams: Seq<Seq<u8>>,
    times: Seq<u128>,
) -> Step
    decreases datagrams.len(),
{
    if datagrams.len() == 0 {
        Step { pending, counter, outcome: Ok(None) }
    } else {
        let before = delivered(config, pending, counter, datagrams.drop_last(), times.drop_last());
        decode_spec(config, before.pending, before.counter, datagrams.last(), times.last())
    }
}

/// Whether `datagrams` are the chunks of the one message `id` that is cut into
/// `parts`: each carries the header of one part and that part, and no part
/// comes twice. The order is free.
pub open spec fn chunks_of(id: u64, parts: Seq<Seq<u8>>, datagrams: Seq<Seq<u8>>) -> bool {
    &&& datagrams.len() == parts.len()
    &&& forall|i: int|
        0 <= i < datagrams.len() ==> {
            &&& is_chunk(#[trigger] datagrams[i])
            &&& datagrams[i].len() >= CHUNK_HEADER_SIZE
            &&& header_spec(datagrams[i]).id == id
            &&& header_spec(datagrams[i]).seq_count == parts.len()
            &&& header_spec(datagrams[i]).seq_num < parts.len()
            &&& body_spec(datagrams[i]) == parts[header_spec(datagrams[i]).seq_num as int]
        }
    &&& forall|i: int, j: int|
        0 <= i < j < datagrams.len() ==> header_spec(#[trigger] datagrams[i]).seq_num
            != header_spec(#[trigger] datagrams[j]).seq_num
}

/// Whether the chunks come in time and find room: when the first comes the
/// message is not pending and the table, with it, stays below its capacity,
/// and no chunk comes more than the timeout after the first.
pub open spec fn in_time(
    config: Config,
    pending: Map<u64, Partial>,
    id: u64,
    times: Seq<u128>,
) -> bool {
    &&& pending.dom().len() + 1 < config.incomplete_capacity
    &&& !collected(config, pending, times[0]).contains_key(id)
    &&& forall|i: int|
        0 <= i < times.len() ==> times[0] + config.incomplete_timeout_ms * NANOS_PER_MILLI
            >= #[trigger] times[i]
}

/// A table at its capacity is dropped whole by the next chunk that takes a
/// place in it: after that chunk its message is the only one pending, with
/// that one chunk, and nothing is handed back.
///
/// A chunk takes a place when its header is accepted and its message has more
/// than one chunk. Other datagrams leave the table as it is.
pub proof fn lemma_full_table_is_dropped(
    config: Config,
    pending: Map<u64, Partial>,
    counter: u64,
    src: Seq<u8>,
    now: u128,
)
    requires
        pending.dom().len() >= config.incomplete_capacity,
        is_chunk(src),
        src.len() >= CHUNK_HEADER_SIZE,
        header_spec(src).seq_num < header_spec(src).seq_count,
        1 < header_spec(src).seq_count <= config.max_chunks_per_message,
    ensures
        decode_spec(config, pending, counter, src, now).outcome == Ok::<
            Option<MessageView>,
            Seq<char>,
        >(None),
        decode_spec(config, pending, counter, src, now).pending == Map::<u64, Partial>::empty().insert(
            header_spec(src).id,
            Partial {
                total: header_spec(src).seq_count,
                chunks: Map::<u8, Seq<u8>>::empty().insert(header_spec(src).seq_num, body_spec(src)),
                arrival: (now, counter),
            },
        ),
{
    let kept = collected(config, pending, now);
    assert(kept == Map::<u64, Partial>::empty());
    assert(kept.restrict(Set::new(|id: u64| kept[id].arrival != (now, counter))) =~= kept);
}

/// What holds after the first `k` chunks of a message, where more are to come.
spec fn waiting(
    config: Config,
    pending: Map<u64, Partial>,
    id: u64,
    parts: Seq<Seq<u8>>,
    datagrams: Seq<Seq<u8>>,
    times: Seq<u128>,
    k: int,
    step: Step,
) -> bool {
    &&& step.outcome == Ok::<Option<MessageView>, Seq<char>>(None)
    &&& step.pending.dom().finite()
    &&& step.pending.dom().len() <= pending.dom().len() + 1
    &&& step.pending.contains_key(id)
    &&& step.pending[id].total == parts.len()
    &&& step.pending[id].arrival.0 == times[0]
    &&& step.pending[id].chunks.dom().finite()
    &&& step.pending[id].chunks.dom().len() == k
    &&& forall|s: u8| #[trigger]
        step.pending[id].chunks.contains_key(s) ==> {
            &&& s < parts.len()
            &&& step.pending[id].chunks[s] == parts[s as int]
            &&& exists|j: int| 0 <= j < k && header_spec(#[trigger] datagrams[j]).seq_num == s
        }
}

proof fn lemma_restrict_len<K, V>(m: Map<K, V>, s: Set<K>)
    requires
        m.dom().finite(),
    ensures
        m.restrict(s).dom().finite(),
        m.restrict(s).dom().len() <= m.dom().len(),
{
    assert(m.restrict(s).dom().subset_of(m.dom()));
    vstd::set_lib::lemma_len_subset(m.restrict(s).dom(), m.dom());
}

proof fn lemma_waiting(
    config: Config,
    pending: Map<u64, Partial>,
    counter: u64,
    id: u64,
    parts: Seq<Seq<u8>>,
    datagrams: Seq<Seq<u8>>,
    times: Seq<u128>,
    k: int,
)
    requires
        pending.dom().finite(),
        2 <= parts.len() <= config.max_chunks_per_message,
        chunks_of(id, parts, datagrams),
        times.len() == datagrams.len(),
        in_time(config, pending, id, times),
        1 <= k < parts.len(),
    ensures
        waiting(
            config,
            pending,
            id,
            parts,
            datagrams,
            times,
            k,
            delivered(config, pending, counter, datagrams.take(k), times.take(k)),
        ),
    decreases k,
{
    let src = datagrams[k - 1];
    let now = times[k - 1];
    let header = header_spec(src);
    let body = body_spec(src);
    assert(datagrams.take(k).drop_last() =~= datagrams.take(k - 1));
    assert(times.take(k).drop_last() =~= times.take(k - 1));
    assert(datagrams.take(k).last() == src);
    assert(times.take(k).last() == now);
    let before = delivered(config, pending, counter, datagrams.take(k - 1), times.take(k - 1));
    let step = decode_spec(config, before.pending, before.counter, src, now);
    assert(step == delivered(config, pending, counter, datagrams.take(k), times.take(k)));
    if k == 1 {
        assert(datagrams.take(0).len() == 0);
        assert(before.pending == pending);
        let kept = collected(config, pending, now);
        let rest = Set::new(|other: u64| pending[other].arrival != (now, before.counter));
        if pending.dom().len() >= config.incomplete_capacity {
        } else {
            lemma_restrict_len(
                pending,
                Set::new(|other: u64| !expired(pending[other], config.incomplete_timeout_ms, now)),
            );
        }
        lemma_restrict_len(kept, Set::new(|other: u64| kept[other].arrival != (now, before.counter)));
        let chunks = Map::<u8, Seq<u8>>::empty().insert(header.seq_num, body);
        assert(chunks.dom() =~= Set::<u8>::empty().insert(header.seq_num));
        assert(step.pending[id].chunks == chunks);
        assert forall|s: u8| #[trigger] chunks.contains_key(s) implies exists|j: int|
            0 <= j < k && header_spec(#[trigger] datagrams[j]).seq_num == s by {
            assert(header_spec(datagrams[0]).seq_num == s);
        }
    } else {
        lemma_waiting(config, pending, counter, id, parts, datagrams, times, k - 1);
        let kept = collected(config, before.pending, now);
        let partial = before.pending[id];
        assert(!expired(partial, config.incomplete_timeout_ms, now));
        assert(kept.contains_key(id) && kept[id] == partial);
        lemma_restrict_len(
            before.pending,
            Set::new(
                |other: u64| !expired(before.pending[other], config.incomplete_timeout_ms, now),
            ),
        );
        assert(!partial.chunks.contains_key(header.seq_num)) by {
            if partial.chunks.contains_key(header.seq_num) {
                let j = choose|j: int|
                    0 <= j < k - 1 && header_spec(#[trigger] datagrams[j]).seq_num
                        == header.seq_num;
                assert(header_spec(datagrams[j]).seq_num != header_spec(datagrams[k - 1]).seq_num);
            }
        }
        let chunks = partial.chunks.insert(header.seq_num, body);
        assert(chunks.dom() =~= partial.chunks.dom().insert(header.seq_num));
        assert(chunks.dom().len() == k);
        assert(step.pending == kept.insert(id, Partial { chunks, ..partial }));
        assert(step.pending.dom() =~= kept.dom());
        assert forall|s: u8| #[trigger] chunks.contains_key(s) implies {
            &&& s < parts.len()
            &&& chunks[s] == parts[s as int]
            &&& exists|j: int| 0 <= j < k && header_spec(#[trigger] datagrams[j]).seq_num == s
        } by {
            if s == header.seq_num {
                assert(header_spec(datagrams[k - 1]).seq_num == s);
            } else {
                assert(partial.chunks.contains_key(s));
                let j = choose|j: int|
                    0 <= j < k - 1 && header_spec(#[trigger] datagrams[j]).seq_num == s;
                assert(header_spec(datagrams[j]).seq_num == s);
            }
        }
    }
}

/// The chunks of one message, come in any order, in time and with room in the
/// table, give that message once: every chunk but the last hands nothing
/// back, and the last hands back the message with its parts in the order of
/// their sequence numbers.
pub proof fn lemma_chunks_in_any_order(
    config: Config,
    pending: Map<u64, Partial>,
    counter: u64,
    id: u64,
    parts: Seq<Seq<u8>>,
    datagrams: Seq<Seq<u8>>,
    times: Seq<u128>,
)
    requires
        pending.dom().finite(),
        2 <= parts.len() <= config.max_chunks_per_message,
        chunks_of(id, parts, datagrams),
        times.len() == datagrams.len(),
        in_time(config, pending, id, times),
    ensures
        forall|k: int|
            1 <= k < parts.len() ==> (#[trigger] delivered(
                config,
                pending,
                counter,
                datagrams.take(k),
                times.take(k),
            )).outcome == Ok::<Option<MessageView>, Seq<char>>(None),
        delivered(config, pending, counter, datagrams, times).outcome == Ok::<
            Option<MessageView>,
            Seq<char>,
        >(Some(MessageView::Chunked { chunks: parts })),
        !delivered(config, pending, counter, datagrams, times).pending.contains_key(id),
{
    assert forall|k: int| 1 <= k < parts.len() implies (#[trigger] delivered(
        config,
        pending,
        counter,
        datagrams.take(k),
        times.take(k),
    )).outcome == Ok::<Option<MessageView>, Seq<char>>(None) by {
        lemma_waiting(config, pending, counter, id, parts, datagrams, times, k);
    }
    let n = parts.len() as int;
    lemma_waiting(config, pending, counter, id, parts, datagrams, times, n - 1);
    let src = datagrams[n - 1];
    let now = times[n - 1];
    let header = header_spec(src);
    let body = body_spec(src);
    assert(datagrams.drop_last() =~= datagrams.take(n - 1));
    assert(times.drop_last() =~= times.take(n - 1));
    let before = delivered(config, pending, counter, datagrams.take(n - 1), times.take(n - 1));
    let step = decode_spec(config, before.pending, before.counter, src, now);
    assert(step == delivered(config, pending, counter, datagrams, times));
    let kept = collected(config, before.pending, now);
    let partial = before.pending[id];
    assert(!expired(partial, config.incomplete_timeout_ms, now));
    assert(kept.contains_key(id) && kept[id] == partial);
    assert(!partial.chunks.contains_key(header.seq_num)) by {
        if partial.chunks.contains_key(header.seq_num) {
            let j = choose|j: int|
                0 <= j < n - 1 && header_spec(#[trigger] datagrams[j]).seq_num == header.seq_num;
            assert(header_spec(datagrams[j]).seq_num != header_spec(datagrams[n - 1]).seq_num);
        }
    }
    let chunks = partial.chunks.insert(header.seq_num, body);
    assert(chunks.dom() =~= partial.chunks.dom().insert(header.seq_num));
    assert(chunks.dom().len() == n);
    lemma_complete(chunks, parts);
}

/// Chunks that are as many as the parts, each the part of its number, are the
/// parts when put in order.
proof fn lemma_complete(chunks: Map<u8, Seq<u8>>, parts: Seq<Seq<u8>>)
    requires
        parts.len() <= u8::MAX,
        chunks.dom().finite(),
        chunks.dom().len() == parts.len(),
        forall|s: u8| #[trigger]
            chunks.contains_key(s) ==> s < parts.len() && chunks[s] == parts[s as int],
    ensures
        in_order(chunks, parts.len() as u8) == parts,
{
    let n = parts.len() as u8;
    lemma_holds_all(chunks.dom(), n);
    assert forall|i: int| 0 <= i < n implies in_order(chunks, n)[i] == parts[i] by {
        assert(chunks.dom().contains(i as u8));
        assert(chunks.contains_key(i as u8));
    }
    assert(in_order(chunks, n) =~= parts);
}

/// What a compression makes of bytes when it is undone.
pub open spec fn decoded(compression: Compression, packed: Seq<u8>) -> Option<Seq<u8>> {
    match compression {
        Compression::Gzip => gzip_decoded(packed),
        Compression::Zlib => zlib_decoded(packed),
    }
}

/// A message stands for the same bytes whether it comes as it is or
/// compressed: where `packed` announces a compression and is `envelope` when
/// the compression is undone, both are messages with the content `envelope`.
///
/// `envelope` itself must not look compressed, as no JSON text does.
pub proof fn lemma_compression_is_transparent(
    envelope: Seq<u8>,
    packed: Seq<u8>,
    compression: Compression,
)
    requires
        envelope.len() > 0,
        detect_spec(envelope) is None,
        detect_spec(packed) == Some(compression),
        decoded(compression, packed) == Some(envelope),
    ensures
        single_spec(envelope) matches Some(plain) && content_spec(plain) == Some(envelope),
        single_spec(packed) matches Some(compressed) && content_spec(compressed) == Some(envelope),
{
}

/// A message stands for the same bytes whether it comes whole or in chunks:
/// chunks of which the first has two bytes or more have the content of the
/// message that they make end to end.
pub proof fn lemma_chunking_is_transparent(parts: Seq<Seq<u8>>)
    requires
        parts.len() > 0,
        parts[0].len() >= 2,
    ensures
        single_spec(joined(parts)) matches Some(whole) && content_spec(whole) == content_spec(
            MessageView::Chunked { chunks: parts },
        ),
{
    crate::receive::lemma_joined_take(parts, 1);
    crate::receive::lemma_joined_take(parts, 0);
    assert(parts.take(0) =~= Seq::<Seq<u8>>::empty());
    let all = joined(parts);
    let first = joined(parts.take(1));
    assert(first =~= parts[0]);
    assert(all[0] == parts[0][0] && all[1] == parts[0][1]) by {
        assert(first == all.subrange(0, first.len() as int));
        assert(all.subrange(0, first.len() as int)[0] == all[0]);
        assert(all.subrange(0, first.len() as int)[1] == all[1]);
    }
}

} // verus!
