//! Puts GELF messages together from the datagrams that carry them.
//!
//! A datagram is a whole message, or one chunk of a message that was cut into
//! pieces. Chunks may come in any order. A message may be compressed; the
//! decoder here does not look into it any further than its first two bytes.
use std::collections::BTreeMap;
use std::collections::HashMap;
use vstd::prelude::*;

use crate::clock::since_epoch;
use crate::diagnostics::bump;
use crate::diagnostics::bumped;
use crate::error::Error;

pub mod laws;
pub mod message;

pub use message::buffers;
pub use message::chunked_spec;
pub use message::compression_spec;
pub use message::content_spec;
pub use message::detect_compression;
pub use message::detect_spec;
pub use message::gzip_decoded;
pub use message::joined;
pub use message::lemma_joined_push;
pub use message::lemma_joined_take;
pub use message::message_view;
pub use message::raw_spec;
pub use message::single_spec;
pub use message::valid;
pub use message::zlib_decoded;
pub use message::Compression;
pub use message::Message;
pub use message::MessageView;
pub use message::Reader;
pub use message::ERR_DECOMPRESS;

verus! {

/// First byte of a datagram that carries a chunk.
pub const MAGIC_CHUNKED_0: u8 = 0x1e;

/// Second byte of a datagram that carries a chunk.
pub const MAGIC_CHUNKED_1: u8 = 0x0f;

/// Bytes that a chunk header takes: the magic, the message id, the sequence
/// number and the sequence count.
pub const CHUNK_HEADER_SIZE: usize = 12;

/// Message of the error for a chunk datagram that is shorter than its header.
pub const ERR_HEADER_TOO_SMALL: &'static str =
    "buffer is too small to contain a valid chunk header";

/// Message of the error for a chunk whose number is not below its count.
pub const ERR_CHUNK_OUT_OF_RANGE: &'static str =
    "chunk sequence number is not below the expected number of chunks";

/// Message of the error for a message that is cut into too many chunks.
pub const ERR_TOO_MANY_CHUNKS: &'static str =
    "message expects more chunks than the max allowed";

/// Message of the error for a chunk whose count differs from the one seen first.
pub const ERR_INCONSISTENT_TOTAL: &'static str =
    "chunk expected total is not consistent with previous value";

/// Message of the error for a clock that is set before the Unix epoch.
pub const ERR_CLOCK: &'static str = "the system time is before the Unix epoch";

/// Nanoseconds in a millisecond.
pub const NANOS_PER_MILLI: u128 = 1_000_000;

/// Whether `bytes` starts with the magic of a chunk.
pub open spec fn is_chunk(bytes: Seq<u8>) -> bool {
    bytes.len() >= 2 && bytes[0] == MAGIC_CHUNKED_0 && bytes[1] == MAGIC_CHUNKED_1
}

/// The number that eight bytes hold, most significant byte first.
pub open spec fn be_u64(bytes: Seq<u8>) -> nat
    recommends
        bytes.len() == 8,
{
    (((((((bytes[0] as nat * 256 + bytes[1] as nat) * 256 + bytes[2] as nat) * 256
        + bytes[3] as nat) * 256 + bytes[4] as nat) * 256 + bytes[5] as nat) * 256
        + bytes[6] as nat) * 256 + bytes[7] as nat)
}

/// What the header of a chunk says.
#[derive(Debug, Clone, Copy, PartialEq, Eq, Structural)]
pub struct ChunkHeader {
    /// The message that the chunk belongs to.
    pub id: u64,
    /// The place of the chunk in its message, from 0.
    pub seq_num: u8,
    /// The number of chunks in the message.
    pub seq_count: u8,
}

/// The header that the first twelve bytes of `bytes` hold.
pub open spec fn header_spec(bytes: Seq<u8>) -> ChunkHeader
    recommends
        bytes.len() >= CHUNK_HEADER_SIZE,
{
    ChunkHeader {
        id: be_u64(bytes.subrange(2, 10)) as u64,
        seq_num: bytes[10],
        seq_count: bytes[11],
    }
}

impl ChunkHeader {
    /// Takes the header off the front of `buf`.
    ///
    /// A buffer shorter than a header is refused and left alone. A header whose
    /// sequence number is not below its count is refused; the header is then
    /// gone from the buffer. The magic itself is not looked at.
    pub fn get(buf: &mut Vec<u8>) -> (r: Result<ChunkHeader, Error>)
        ensures
            old(buf)@.len() < CHUNK_HEADER_SIZE ==> {
                &&& r matches Err(e)
                &&& e@ == ERR_HEADER_TOO_SMALL@
                &&& final(buf)@ == old(buf)@
            },
            old(buf)@.len() >= CHUNK_HEADER_SIZE ==> final(buf)@ == old(buf)@.subrange(
                CHUNK_HEADER_SIZE as int,
                old(buf)@.len() as int,
            ),
            old(buf)@.len() >= CHUNK_HEADER_SIZE && header_spec(old(buf)@).seq_num >= header_spec(
                old(buf)@,
            ).seq_count ==> (r matches Err(e) && e@ == ERR_CHUNK_OUT_OF_RANGE@),
            old(buf)@.len() >= CHUNK_HEADER_SIZE && header_spec(old(buf)@).seq_num < header_spec(
                old(buf)@,
            ).seq_count ==> r == Ok::<ChunkHeader, Error>(header_spec(old(buf)@)),
    {
        if buf.len() < CHUNK_HEADER_SIZE {
            return Err(Error::msg(ERR_HEADER_TOO_SMALL));
        }
        let rest = buf.split_off(CHUNK_HEADER_SIZE);
        let id: u64 = read_be_u64(buf, 2);
        let seq_num: u8 = buf[10];
        let seq_count: u8 = buf[11];
        assert(buf@.subrange(2, 10) =~= old(buf)@.subrange(2, 10));
        *buf = rest;
        if seq_num >= seq_count {
            return Err(Error::msg(ERR_CHUNK_OUT_OF_RANGE));
        }
        Ok(ChunkHeader { id, seq_num, seq_count })
    }
}

/// Reads the eight bytes of `buf` from `at` on as one number, most significant
/// byte first.
fn read_be_u64(buf: &Vec<u8>, at: usize) -> (n: u64)
    requires
        at + 8 <= buf@.len(),
    ensures
        n == be_u64(buf@.subrange(at as int, at + 8)),
{
    assert(buf@.len() == buf.len());
    let b0: u64 = buf[at] as u64;
    let b1: u64 = buf[at + 1] as u64;
    let b2: u64 = buf[at + 2] as u64;
    let b3: u64 = buf[at + 3] as u64;
    let b4: u64 = buf[at + 4] as u64;
    let b5: u64 = buf[at + 5] as u64;
    let b6: u64 = buf[at + 6] as u64;
    let b7: u64 = buf[at + 7] as u64;
    let n3: u64 = ((b0 * 256 + b1) * 256 + b2) * 256 + b3;
    let n5: u64 = (n3 * 256 + b4) * 256 + b5;
    (n5 * 256 + b6) * 256 + b7
}

/// GELF receiver configuration.
#[derive(Debug, Clone, Copy)]
pub struct Config {
    /// The maximum number of incomplete chunked messages.
    ///
    /// When this many are pending, the next chunk drops *all* of them.
    pub incomplete_capacity: usize,
    /// The maximum number of chunks for a single chunked message.
    ///
    /// A chunk of a message with more than this is refused.
    pub max_chunks_per_message: u8,
    /// The timeout in milliseconds for all chunks of a chunked message to
    /// arrive.
    ///
    /// It runs from the arrival of the first chunk, and later chunks do not
    /// start it again.
    pub incomplete_timeout_ms: u64,
}

impl Default for Config {
    fn default() -> (c: Config)
        ensures
            c.incomplete_capacity == 1024,
            c.max_chunks_per_message == 128,
            c.incomplete_timeout_ms == 5000,
    {
        Config {
            incomplete_capacity: 1024,
            max_chunks_per_message: 128,
            incomplete_timeout_ms: 5 * 1000,
        }
    }
}

/// The counters of the decoder.
#[derive(Debug, Clone, Copy, PartialEq, Eq, Structural)]
pub struct Metrics {
    /// The datagrams that carried a chunk.
    pub chunk: u64,
    /// The messages that were put together from chunks.
    pub msg_chunked: u64,
    /// The datagrams that carried no chunk.
    pub msg_unchunked: u64,
    /// The times that the table was dropped for being at its capacity.
    pub overflow_incomplete_chunks: u64,
}

impl Metrics {
    /// Counters at 0.
    pub open spec fn zero() -> Metrics {
        Metrics { chunk: 0, msg_chunked: 0, msg_unchunked: 0, overflow_incomplete_chunks: 0 }
    }

    /// Counters at 0.
    pub fn new() -> (m: Metrics)
        ensures
            m == Metrics::zero(),
    {
        Metrics { chunk: 0, msg_chunked: 0, msg_unchunked: 0, overflow_incomplete_chunks: 0 }
    }

    /// Hands out the counts and sets every counter to 0.
    pub fn take(&mut self) -> (m: Metrics)
        ensures
            m == *old(self),
            *final(self) == Metrics::zero(),
    {
        let m = *self;
        *self = Metrics::new();
        m
    }
}

/// Whether a datagram is a chunk that takes a place in the table: its header
/// is accepted and its message has more than one chunk.
pub open spec fn takes_place(config: Config, src: Seq<u8>) -> bool {
    &&& is_chunk(src)
    &&& src.len() >= CHUNK_HEADER_SIZE
    &&& header_spec(src).seq_num < header_spec(src).seq_count
    &&& 1 < header_spec(src).seq_count <= config.max_chunks_per_message
}

/// The counters after a datagram. Every datagram counts as a chunk or as
/// none. A chunk that takes a place in a table at its capacity counts the
/// table as dropped, and a chunk that completes its message counts the
/// message.
pub open spec fn counted_spec(
    config: Config,
    pending: Map<u64, Partial>,
    counter: u64,
    metrics: Metrics,
    src: Seq<u8>,
    now: u128,
) -> Metrics {
    if !is_chunk(src) {
        Metrics { msg_unchunked: bumped(metrics.msg_unchunked), ..metrics }
    } else if !takes_place(config, src) {
        Metrics { chunk: bumped(metrics.chunk), ..metrics }
    } else {
        Metrics {
            chunk: bumped(metrics.chunk),
            overflow_incomplete_chunks: if pending.dom().len() >= config.incomplete_capacity {
                bumped(metrics.overflow_incomplete_chunks)
            } else {
                metrics.overflow_incomplete_chunks
            },
            msg_chunked: if decode_spec(config, pending, counter, src, now).outcome matches Ok(
                Some(_),
            ) {
                bumped(metrics.msg_chunked)
            } else {
                metrics.msg_chunked
            },
            ..metrics
        }
    }
}

/// A chunked message of which some chunks are still missing.
pub struct Partial {
    /// The number of chunks that the first chunk declared.
    pub total: u8,
    /// The chunks that have come, by sequence number.
    pub chunks: Map<u8, Seq<u8>>,
    /// When the first chunk came, in nanoseconds since the Unix epoch, and the
    /// tiebreak that tells apart arrivals in the same nanosecond.
    pub arrival: (u128, u64),
}

/// What one datagram does: the messages that are pending after it, the next
/// tiebreak, and what the decoder hands back.
pub struct Step {
    pub pending: Map<u64, Partial>,
    pub counter: u64,
    pub outcome: Result<Option<MessageView>, Seq<char>>,
}

/// Whether the deadline of `p` is over at `now`. It is over when the first
/// chunk came more than the timeout before `now`.
pub open spec fn expired(p: Partial, timeout_ms: u64, now: u128) -> bool {
    p.arrival.0 + timeout_ms * NANOS_PER_MILLI < now
}

/// The pending messages that are kept when a chunk comes at `now`: none if
/// the table is at its capacity, else those whose deadline is not over.
pub open spec fn collected(config: Config, pending: Map<u64, Partial>, now: u128) -> Map<
    u64,
    Partial,
> {
    if pending.dom().len() >= config.incomplete_capacity {
        Map::empty()
    } else {
        pending.restrict(
            Set::new(|id: u64| !expired(pending[id], config.incomplete_timeout_ms, now)),
        )
    }
}

/// The table after the first chunk of a message has come: the message is
/// pending with that one chunk. A message that was pending under the very same
/// arrival key gives way.
pub open spec fn started(
    pending: Map<u64, Partial>,
    header: ChunkHeader,
    body: Seq<u8>,
    key: (u128, u64),
) -> Map<u64, Partial> {
    pending.restrict(Set::new(|id: u64| pending[id].arrival != key)).insert(
        header.id,
        Partial {
            total: header.seq_count,
            chunks: Map::<u8, Seq<u8>>::empty().insert(header.seq_num, body),
            arrival: key,
        },
    )
}

/// The first `total` chunks in the order of their sequence numbers.
pub open spec fn in_order(chunks: Map<u8, Seq<u8>>, total: u8) -> Seq<Seq<u8>> {
    Seq::new(total as nat, |i: int| chunks[i as u8])
}

/// The tiebreak that follows `counter`. After the largest comes 0.
pub open spec fn next_counter(counter: u64) -> u64 {
    if counter == u64::MAX {
        0
    } else {
        (counter + 1) as u64
    }
}

/// What a chunk of a message in several chunks does to a table from which
/// what was due has been dropped.
///
/// A chunk of a pending message must declare the same count as the first one
/// did, or it is refused and the pending message stays. Otherwise it takes its
/// place, and replaces an earlier chunk of the same number; when no chunk is
/// missing any more, the message leaves the table and is handed back. A chunk
/// of a message that is not pending starts it.
pub open spec fn pushed(
    pending: Map<u64, Partial>,
    counter: u64,
    header: ChunkHeader,
    body: Seq<u8>,
    now: u128,
) -> Step {
    if pending.contains_key(header.id) {
        let partial = pending[header.id];
        if partial.total != header.seq_count {
            Step { pending, counter, outcome: Err(ERR_INCONSISTENT_TOTAL@) }
        } else {
            let chunks = partial.chunks.insert(header.seq_num, body);
            if chunks.dom().len() == partial.total {
                Step {
                    pending: pending.remove(header.id),
                    counter,
                    outcome: Ok(chunked_spec(in_order(chunks, partial.total))),
                }
            } else {
                Step {
                    pending: pending.insert(header.id, Partial { chunks, ..partial }),
                    counter,
                    outcome: Ok(None),
                }
            }
        }
    } else {
        Step {
            pending: started(pending, header, body, (now, counter)),
            counter: next_counter(counter),
            outcome: Ok(None),
        }
    }
}

/// What the datagram `src` does when it comes at `now`.
///
/// A datagram without the chunk magic is a message in one piece, and so is a
/// chunk that says it is the only one. Both leave the table alone, and so does
/// a chunk that is refused for its header. Any other chunk first has the table
/// cleared of what is due, then takes its place.
pub open spec fn decode_spec(
    config: Config,
    pending: Map<u64, Partial>,
    counter: u64,
    src: Seq<u8>,
    now: u128,
) -> Step {
    if !is_chunk(src) {
        Step { pending, counter, outcome: Ok(single_spec(src)) }
    } else if src.len() < CHUNK_HEADER_SIZE {
        Step { pending, counter, outcome: Err(ERR_HEADER_TOO_SMALL@) }
    } else {
        let header = header_spec(src);
        let body = src.subrange(CHUNK_HEADER_SIZE as int, src.len() as int);
        if header.seq_num >= header.seq_count {
            Step { pending, counter, outcome: Err(ERR_CHUNK_OUT_OF_RANGE@) }
        } else if header.seq_count > config.max_chunks_per_message {
            Step { pending, counter, outcome: Err(ERR_TOO_MANY_CHUNKS@) }
        } else if header.seq_count == 1 {
            Step { pending, counter, outcome: Ok(single_spec(body)) }
        } else {
            pushed(collected(config, pending, now), counter, header, body, now)
        }
    }
}

/// The view of what a decoder hands back.
pub open spec fn outcome_view(r: Result<Option<Message>, Error>) -> Result<
    Option<MessageView>,
    Seq<char>,
> {
    match r {
        Ok(m) => Ok(message_view(m)),
        Err(e) => Err(e@),
    }
}

/// When a chunk came: the time, and a tiebreak that makes the arrival unique.
#[derive(Debug, Clone, Copy)]
pub struct UniqueTimestamp {
    nanos: u128,
    tiebreak: u64,
}

impl UniqueTimestamp {
    /// The time and the tiebreak.
    pub closed spec fn key(&self) -> (u128, u64) {
        (self.nanos, self.tiebreak)
    }

    /// The arrival that lies `since` nanoseconds before `now`, with tiebreak 0.
    /// Every arrival below it is older than `since`. There is none where it
    /// would lie before the epoch.
    pub fn since(now: u128, since: u128) -> (r: Option<UniqueTimestamp>)
        ensures
            now < since ==> r is None,
            now >= since ==> (r matches Some(t) && t.key() == ((now - since) as u128, 0u64)),
    {
        if now < since {
            None
        } else {
            Some(UniqueTimestamp { nanos: now - since, tiebreak: 0 })
        }
    }

    fn pair(&self) -> (k: (u128, u64))
        ensures
            k == self.key(),
    {
        (self.nanos, self.tiebreak)
    }
}

/// One chunk of a message.
struct Chunk {
    seq: u8,
    bytes: Vec<u8>,
}

/// The chunks of one message that have come.
struct Chunks {
    expected_total: u8,
    inner: BTreeMap<u8, Vec<u8>>,
}

impl Chunks {
    spec fn chunks(&self) -> Map<u8, Seq<u8>> {
        Map::new(|k: u8| self.inner@.contains_key(k), |k: u8| self.inner@[k]@)
    }

    spec fn wf(&self) -> bool {
        forall|k: u8| self.inner@.contains_key(k) ==> k < self.expected_total
    }

    proof fn lemma_dom(&self)
        ensures
            self.chunks().dom() == self.inner@.dom(),
            self.chunks().dom().finite(),
    {
        assert(self.chunks().dom() =~= self.inner@.dom());
    }

    fn new(expected_total: u8, chunk: Chunk) -> (r: Chunks)
        requires
            chunk.seq < expected_total,
        ensures
            r.wf(),
            r.expected_total == expected_total,
            r.chunks() == Map::<u8, Seq<u8>>::empty().insert(chunk.seq, chunk.bytes@),
    {
        let mut inner: BTreeMap<u8, Vec<u8>> = BTreeMap::new();
        inner.insert(chunk.seq, chunk.bytes);
        let r = Chunks { expected_total, inner };
        assert(r.chunks() =~= Map::<u8, Seq<u8>>::empty().insert(chunk.seq, chunk.bytes@));
        r
    }

    fn insert(&mut self, chunk: Chunk)
        requires
            old(self).wf(),
            chunk.seq < old(self).expected_total,
        ensures
            final(self).wf(),
            final(self).expected_total == old(self).expected_total,
            final(self).chunks() == old(self).chunks().insert(chunk.seq, chunk.bytes@),
    {
        self.inner.insert(chunk.seq, chunk.bytes);
        assert(self.chunks() =~= old(self).chunks().insert(chunk.seq, chunk.bytes@));
    }

    fn is_complete(&self) -> (r: bool)
        ensures
            r == (self.chunks().dom().len() == self.expected_total),
    {
        proof {
            self.lemma_dom();
        }
        self.expected_total as usize == self.inner.len()
    }

    /// The chunks in the order of their sequence numbers.
    fn into_ordered(self) -> (r: Vec<Vec<u8>>)
        requires
            self.wf(),
            self.chunks().dom().len() == self.expected_total,
        ensures
            buffers(r@) == in_order(self.chunks(), self.expected_total),
    {
        let total: u8 = self.expected_total;
        let ghost chunks = self.chunks();
        let mut inner = self.inner;
        proof {
            self.lemma_dom();
            lemma_holds_all(chunks.dom(), total);
        }
        let mut out: Vec<Vec<u8>> = Vec::new();
        let mut k: u8 = 0;
        while k < total
            invariant
                k <= total,
                out@.len() == k,
                forall|i: int| 0 <= i < k ==> (#[trigger] out@[i])@ == chunks[i as u8],
                forall|j: u8|
                    k <= j < total ==> #[trigger] inner@.contains_key(j) && inner@[j]@
                        == chunks[j],
            decreases total - k,
        {
            let ghost before = inner@;
            assert(before.contains_key(k));
            let found = inner.remove(&k);
            assert(inner@ == before.remove(k));
            match found {
                Some(bytes) => {
                    assert(bytes == before[k]);
                    out.push(bytes);
                },
                None => {
                    assert(false);
                },
            }
            k += 1;
        }
        assert(buffers(out@) =~= in_order(chunks, total));
        out
    }
}

/// A set of numbers below `n` that has `n` members holds every number below
/// `n`.
pub proof fn lemma_holds_all(s: Set<u8>, n: u8)
    requires
        s.finite(),
        s.len() == n,
        forall|k: u8| s.contains(k) ==> k < n,
    ensures
        forall|k: u8| k < n ==> s.contains(k),
{
    let all = Set::new(|k: u8| k < n);
    lemma_below_len(n);
    assert(s.subset_of(all));
    vstd::set_lib::lemma_subset_equality(s, all);
    assert forall|k: u8| k < n implies s.contains(k) by {
        assert(all.contains(k));
    }
}

/// There are `n` numbers below `n`.
proof fn lemma_below_len(n: u8)
    ensures
        Set::new(|k: u8| k < n).finite(),
        Set::new(|k: u8| k < n).len() == n,
    decreases n,
{
    let all = Set::new(|k: u8| k < n);
    if n == 0 {
        assert(all =~= Set::<u8>::empty());
    } else {
        let m = (n - 1) as u8;
        lemma_below_len(m);
        assert(all =~= Set::new(|k: u8| k < m).insert(m));
    }
}

/// The pending messages by id.
struct ById {
    chunks: HashMap<u64, (Chunks, UniqueTimestamp)>,
}

impl ById {
    fn new() -> (r: ById)
        ensures
            r.chunks@ == Map::<u64, (Chunks, UniqueTimestamp)>::empty(),
    {
        ById { chunks: HashMap::new() }
    }
}

/// The ids of the pending messages by arrival, and the next tiebreak.
struct ByArrival {
    counter: u64,
    chunks: BTreeMap<(u128, u64), u64>,
}

impl ByArrival {
    fn new() -> (r: ByArrival)
        ensures
            r.counter == 0,
            r.chunks@ == Map::<(u128, u64), u64>::empty(),
    {
        ByArrival { counter: 0, chunks: BTreeMap::new() }
    }

    /// The arrival of a chunk that comes at `now`. It takes the next tiebreak.
    fn ts(&mut self, now: u128) -> (t: UniqueTimestamp)
        ensures
            t.key() == (now, old(self).counter),
            final(self).counter == next_counter(old(self).counter),
            final(self).chunks == old(self).chunks,
    {
        let counter = self.counter;
        self.counter = self.counter.wrapping_add(1);
        UniqueTimestamp { nanos: now, tiebreak: counter }
    }
}

/// The entries of `index` whose arrival time is below `nanos`, by a call of
/// `BTreeMap::range` with the end bound `(nanos, 0)`, which is left out. Tuples
/// are ordered by their first parts, then by their second, so the entries
/// below that bound are those with a time below `nanos`. Every one of them is
/// in the result, and nothing else.
#[verifier::external_body]
fn arrivals_before(index: &BTreeMap<(u128, u64), u64>, nanos: u128) -> (r: Vec<((u128, u64), u64)>)
    ensures
        forall|i: int|
            0 <= i < r@.len() ==> index@.contains_key((#[trigger] r@[i]).0) && index@[r@[i].0]
                == r@[i].1 && r@[i].0.0 < nanos,
        forall|k: (u128, u64)|
            #[trigger] index@.contains_key(k) && k.0 < nanos ==> exists|i: int|
                0 <= i < r@.len() && (#[trigger] r@[i]).0 == k,
{
    index.range(..(nanos, 0u64)).map(|(k, v)| (*k, *v)).collect()
}

/// Nanoseconds in a second.
pub const NANOS_PER_SEC: u128 = 1_000_000_000;

/// The nanoseconds since the Unix epoch that a reading of the clock stands
/// for: its seconds and the nanoseconds of the second taken together. A clock
/// before the epoch reads nothing.
pub open spec fn nanos_spec(reading: Option<(u64, u32)>) -> Option<u128> {
    match reading {
        Some((secs, nanos)) => Some((secs * NANOS_PER_SEC + nanos) as u128),
        None => None,
    }
}

/// The time of the system clock in nanoseconds since the Unix epoch; none
/// where the clock is set before the epoch. What the clock reads is not
/// known, so the time is that of some reading.
fn unix_now() -> (r: Option<u128>)
    ensures
        exists|reading: Option<(u64, u32)>| r == #[trigger] nanos_spec(reading),
{
    nanos_since_epoch(since_epoch())
}

/// The nanoseconds since the Unix epoch that a reading of the clock stands
/// for.
pub fn nanos_since_epoch(reading: Option<(u64, u32)>) -> (r: Option<u128>)
    ensures
        r == nanos_spec(reading),
{
    match reading {
        Some((secs, nanos)) => Some(secs as u128 * NANOS_PER_SEC + nanos as u128),
        None => None,
    }
}

/// The pending message that an entry of the table stands for.
spec fn partial_of(entry: (Chunks, UniqueTimestamp)) -> Partial {
    Partial {
        total: entry.0.expected_total,
        chunks: entry.0.chunks(),
        arrival: entry.1.key(),
    }
}

/// The pending messages that a table holds.
spec fn pending_of(by_id: ById) -> Map<u64, Partial> {
    Map::new(|id: u64| by_id.chunks@.contains_key(id), |id: u64| partial_of(by_id.chunks@[id]))
}

/// The two indices agree: every pending message stands once in the index by
/// arrival, under its own arrival, and that index holds nothing else; and no
/// pending message has a chunk with a number that its count does not allow.
spec fn consistent(by_id: ById, by_arrival: ByArrival) -> bool {
    &&& forall|id: u64| #[trigger]
        by_id.chunks@.contains_key(id) ==> {
            &&& by_id.chunks@[id].0.wf()
            &&& by_arrival.chunks@.contains_key(by_id.chunks@[id].1.key())
            &&& by_arrival.chunks@[by_id.chunks@[id].1.key()] == id
        }
    &&& forall|key: (u128, u64)| #[trigger]
        by_arrival.chunks@.contains_key(key) ==> {
            &&& by_id.chunks@.contains_key(by_arrival.chunks@[key])
            &&& by_id.chunks@[by_arrival.chunks@[key]].1.key() == key
        }
}

/// Agreeing indices hold a sound table.
proof fn lemma_consistent(by_id: ById, by_arrival: ByArrival)
    requires
        consistent(by_id, by_arrival),
    ensures
        table_wf(pending_of(by_id)),
        pending_of(by_id).dom().len() == by_arrival.chunks@.dom().len(),
{
    let pending = pending_of(by_id);
    assert(pending.dom() =~= by_id.chunks@.dom());
    assert forall|id: u64| #[trigger] pending.contains_key(id) implies partial_wf(pending[id]) by {
        by_id.chunks@[id].0.lemma_dom();
    }
    // the arrivals of the pending messages are the keys of the index, each once
    let ids = by_id.chunks@.dom();
    let keys = by_arrival.chunks@.dom();
    let key_of = |id: u64| by_id.chunks@[id].1.key();
    assert(vstd::relations::injective_on(key_of, ids)) by {
        assert forall|a: u64, b: u64|
            ids.contains(a) && ids.contains(b) && #[trigger] key_of(a) == #[trigger] key_of(
                b,
            ) implies a == b by {
            assert(by_id.chunks@.contains_key(a) && by_id.chunks@.contains_key(b));
        }
    }
    assert(ids.map(key_of) =~= keys) by {
        assert forall|key: (u128, u64)| keys.contains(key) implies ids.map(key_of).contains(
            key,
        ) by {
            assert(by_arrival.chunks@.contains_key(key));
            let id = by_arrival.chunks@[key];
            assert(ids.contains(id) && key_of(id) == key);
        }
        assert forall|key: (u128, u64)| ids.map(key_of).contains(key) implies keys.contains(
            key,
        ) by {
            let id = choose|id: u64| ids.contains(id) && key_of(id) == key;
            assert(by_id.chunks@.contains_key(id));
        }
    }
    vstd::set_lib::lemma_map_size(ids, keys, key_of);
}

/// Build a GELF decoder to receive messages.
pub fn build(config: Config) -> (g: Gelf)
    ensures
        g.config() == config,
        g.counter() == 0,
        g.metrics() == Metrics::zero(),
        g.pending() == Map::<u64, Partial>::empty(),
{
    Gelf::new(config)
}

/// A decoder for GELF messages.
///
/// A message may be chunked and compressed. The decoder does not look at
/// whether what is in a message is valid GELF.
///
/// The decoder keeps the messages of which chunks are missing in a table by
/// message id, and an index of them by arrival. The two always agree.
pub struct Gelf {
    config: Config,
    by_id: ById,
    by_arrival: ByArrival,
    metrics: Metrics,
}

impl Gelf {
    #[verifier::type_invariant]
    spec fn inv(&self) -> bool {
        consistent(self.by_id, self.by_arrival)
    }

    /// The configuration that the decoder was made with.
    pub closed spec fn config(&self) -> Config {
        self.config
    }

    /// The tiebreak that the next new message gets.
    pub closed spec fn counter(&self) -> u64 {
        self.by_arrival.counter
    }

    /// The counters.
    pub closed spec fn metrics(&self) -> Metrics {
        self.metrics
    }

    /// The messages of which chunks are missing, by message id.
    pub closed spec fn pending(&self) -> Map<u64, Partial> {
        pending_of(self.by_id)
    }

    /// The number of entries in the index by arrival.
    pub closed spec fn arrivals(&self) -> nat {
        self.by_arrival.chunks@.dom().len()
    }

    /// What is left of the table and what is handed back, as one value.
    pub open spec fn step(&self, r: Result<Option<Message>, Error>) -> Step {
        Step { pending: self.pending(), counter: self.counter(), outcome: outcome_view(r) }
    }

    /// A decoder with nothing pending.
    pub fn new(config: Config) -> (g: Gelf)
        ensures
            g.config() == config,
            g.counter() == 0,
            g.metrics() == Metrics::zero(),
            g.pending() == Map::<u64, Partial>::empty(),
    {
        let g = Gelf {
            config,
            by_id: ById::new(),
            by_arrival: ByArrival::new(),
            metrics: Metrics::new(),
        };
        assert(g.pending() =~= Map::<u64, Partial>::empty());
        g
    }

    /// The number of pending messages. The table is sound: it is finite, no
    /// two pending messages have the same arrival, and every chunk has a
    /// number below the count of its message.
    pub fn incomplete_len(&self) -> (n: usize)
        ensures
            n == self.pending().dom().len(),
            table_wf(self.pending()),
    {
        proof {
            use_type_invariant(self);
            lemma_consistent(self.by_id, self.by_arrival);
        }
        assert(self.pending().dom() =~= self.by_id.chunks@.dom());
        self.by_id.chunks.len()
    }

    /// The number of entries in the index by arrival, which is the number of
    /// pending messages.
    pub fn arrival_len(&self) -> (n: usize)
        ensures
            n == self.arrivals(),
            n == self.pending().dom().len(),
    {
        proof {
            use_type_invariant(self);
            lemma_consistent(self.by_id, self.by_arrival);
        }
        self.by_arrival.chunks.len()
    }

    /// Whether a message with this id is pending.
    pub fn is_pending(&self, id: u64) -> (r: bool)
        ensures
            r == self.pending().contains_key(id),
    {
        self.by_id.chunks.contains_key(&id)
    }

    /// Hands out the counts and sets every counter to 0.
    pub fn take_metrics(&mut self) -> (m: Metrics)
        ensures
            m == old(self).metrics(),
            final(self).metrics() == Metrics::zero(),
            final(self).config() == old(self).config(),
            final(self).counter() == old(self).counter(),
            final(self).pending() == old(self).pending(),
    {
        proof {
            use_type_invariant(&*self);
        }
        let m = self.metrics;
        self.metrics = Metrics::new();
        m
    }

    /// Takes a datagram at the time that the system clock shows.
    ///
    /// Only a chunk needs the time. With a clock that is set before the epoch
    /// a chunk is refused and nothing changes.
    pub fn decode(&mut self, src: Vec<u8>) -> (r: Result<Option<Message>, Error>)
        ensures
            final(self).config() == old(self).config(),
            !is_chunk(src@) ==> final(self).step(r) == decode_spec(
                old(self).config(),
                old(self).pending(),
                old(self).counter(),
                src@,
                0,
            ),
            is_chunk(src@) ==> {
                ||| final(self).step(r) == (Step {
                    pending: old(self).pending(),
                    counter: old(self).counter(),
                    outcome: Err(ERR_CLOCK@),
                })
                ||| exists|now: u128|
                    final(self).step(r) == #[trigger] decode_spec(
                        old(self).config(),
                        old(self).pending(),
                        old(self).counter(),
                        src@,
                        now,
                    )
            },
    {
        match unix_now() {
            Some(now) => self.decode_at(src, now),
            None => {
                if starts_with_chunk_magic(src.as_slice()) {
                    Err(Error::msg(ERR_CLOCK))
                } else {
                    self.decode_at(src, 0)
                }
            },
        }
    }

    /// Takes a datagram that comes at `now`, in nanoseconds since the Unix
    /// epoch, and hands back the message that it completes, if it completes
    /// one.
    pub fn decode_at(&mut self, src: Vec<u8>, now: u128) -> (r: Result<Option<Message>, Error>)
        ensures
            final(self).config() == old(self).config(),
            final(self).step(r) == decode_spec(
                old(self).config(),
                old(self).pending(),
                old(self).counter(),
                src@,
                now,
            ),
            final(self).metrics() == counted_spec(
                old(self).config(),
                old(self).pending(),
                old(self).counter(),
                old(self).metrics(),
                src@,
                now,
            ),
    {
        if starts_with_chunk_magic(src.as_slice()) {
            // Push a chunk onto a message
            // If the chunk completes the message then it
            // will be returned
            let mut taken = Gelf::new(self.config);
            std::mem::swap(self, &mut taken);
            proof {
                use_type_invariant(&taken);
            }
            let config = taken.config;
            let mut by_id = taken.by_id;
            let mut by_arrival = taken.by_arrival;
            let mut metrics = taken.metrics;
            metrics.chunk = bump(metrics.chunk);
            let r = chunked(&config, &mut by_id, &mut by_arrival, &mut metrics, src, now);
            *self = Gelf { config, by_id, by_arrival, metrics };
            r
        } else {
            proof {
                use_type_invariant(&*self);
            }
            self.metrics.msg_unchunked = bump(self.metrics.msg_unchunked);
            // Return a message containing a single chunk
            let compression = detect_compression(src.as_slice());
            Ok(Message::single(compression, src))
        }
    }
}

/// What is left of a table and what is handed back, as one value.
spec fn step_of(by_id: ById, by_arrival: ByArrival, r: Result<Option<Message>, Error>) -> Step {
    Step { pending: pending_of(by_id), counter: by_arrival.counter, outcome: outcome_view(r) }
}

/// Takes a datagram that starts with the chunk magic.
fn chunked(
    config: &Config,
    by_id: &mut ById,
    by_arrival: &mut ByArrival,
    metrics: &mut Metrics,
    src: Vec<u8>,
    now: u128,
) -> (r: Result<Option<Message>, Error>)
    requires
        consistent(*old(by_id), *old(by_arrival)),
        is_chunk(src@),
    ensures
        consistent(*final(by_id), *final(by_arrival)),
        step_of(*final(by_id), *final(by_arrival), r) == decode_spec(
            *config,
            pending_of(*old(by_id)),
            old(by_arrival).counter,
            src@,
            now,
        ),
        !takes_place(*config, src@) ==> *final(metrics) == *old(metrics),
        takes_place(*config, src@) ==> *final(metrics) == (Metrics {
            overflow_incomplete_chunks: if pending_of(*old(by_id)).dom().len()
                >= config.incomplete_capacity {
                bumped(old(metrics).overflow_incomplete_chunks)
            } else {
                old(metrics).overflow_incomplete_chunks
            },
            msg_chunked: if r matches Ok(Some(_)) {
                bumped(old(metrics).msg_chunked)
            } else {
                old(metrics).msg_chunked
            },
            ..*old(metrics)
        }),
{
    let mut src = src;
    let header = match ChunkHeader::get(&mut src) {
        Ok(header) => header,
        Err(e) => {
            return Err(e);
        },
    };
    // A message with too many chunks is refused
    if header.seq_count > config.max_chunks_per_message {
        return Err(Error::msg(ERR_TOO_MANY_CHUNKS));
    }
    // A message of a single chunk is like one that is not chunked
    if header.seq_count == 1 {
        let compression = detect_compression(src.as_slice());
        return Ok(Message::single(compression, src));
    }
    gc(config, by_id, by_arrival, metrics, now);
    let chunk = Chunk { seq: header.seq_num, bytes: src };
    push(by_id, by_arrival, metrics, header, chunk, now)
}

/// Drops what is due at `now`: everything if the table is at its capacity,
/// else the messages whose deadline is over.
fn gc(
    config: &Config,
    by_id: &mut ById,
    by_arrival: &mut ByArrival,
    metrics: &mut Metrics,
    now: u128,
)
    requires
        consistent(*old(by_id), *old(by_arrival)),
    ensures
        consistent(*final(by_id), *final(by_arrival)),
        final(by_arrival).counter == old(by_arrival).counter,
        pending_of(*final(by_id)) == collected(*config, pending_of(*old(by_id)), now),
        *final(metrics) == (Metrics {
            overflow_incomplete_chunks: if pending_of(*old(by_id)).dom().len()
                >= config.incomplete_capacity {
                bumped(old(metrics).overflow_incomplete_chunks)
            } else {
                old(metrics).overflow_incomplete_chunks
            },
            ..*old(metrics)
        }),
{
    assert(pending_of(*by_id).dom() =~= by_id.chunks@.dom());
    let ghost flush = pending_of(*by_id).dom().len() >= config.incomplete_capacity;
    // At the capacity *all* pending messages go, due or not
    if by_id.chunks.len() >= config.incomplete_capacity {
        metrics.overflow_incomplete_chunks = bump(metrics.overflow_incomplete_chunks);
        by_id.chunks.clear();
        by_arrival.chunks.clear();
    }
    let ghost ids = by_id.chunks@;
    let ghost arrivals = by_arrival.chunks@;
    let timeout: u128 = config.incomplete_timeout_ms as u128 * NANOS_PER_MILLI;
    match UniqueTimestamp::since(now, timeout) {
        None => {},
        Some(since) => {
            let to_remove = arrivals_before(&by_arrival.chunks, since.nanos);
            let mut i: usize = 0;
            while i < to_remove.len()
                invariant
                    i <= to_remove@.len(),
                    consistent(*by_id, *by_arrival),
                    by_arrival.counter == old(by_arrival).counter,
                    *metrics == (Metrics {
                        overflow_incomplete_chunks: if flush {
                            bumped(old(metrics).overflow_incomplete_chunks)
                        } else {
                            old(metrics).overflow_incomplete_chunks
                        },
                        ..*old(metrics)
                    }),
                    forall|j: int|
                        0 <= j < to_remove@.len() ==> arrivals.contains_key(
                            (#[trigger] to_remove@[j]).0,
                        ) && arrivals[to_remove@[j].0] == to_remove@[j].1,
                    forall|id: u64| #[trigger]
                        ids.contains_key(id) ==> arrivals.contains_key(ids[id].1.key())
                            && arrivals[ids[id].1.key()] == id,
                    forall|key: (u128, u64)| #[trigger]
                        arrivals.contains_key(key) ==> ids.contains_key(arrivals[key])
                            && ids[arrivals[key]].1.key() == key,
                    forall|id: u64| #[trigger]
                        by_id.chunks@.contains_key(id) <==> ids.contains_key(id) && (forall|j: int|
                            0 <= j < i ==> (#[trigger] to_remove@[j]).1 != id),
                    forall|id: u64| #[trigger]
                        by_id.chunks@.contains_key(id) ==> by_id.chunks@[id] == ids[id],
                    forall|key: (u128, u64)| #[trigger]
                        by_arrival.chunks@.contains_key(key) <==> arrivals.contains_key(key) && (
                        forall|j: int| 0 <= j < i ==> (#[trigger] to_remove@[j]).0 != key),
                    forall|key: (u128, u64)| #[trigger]
                        by_arrival.chunks@.contains_key(key) ==> by_arrival.chunks@[key]
                            == arrivals[key],
                decreases to_remove@.len() - i,
            {
                let entry: ((u128, u64), u64) = to_remove[i];
                let key: (u128, u64) = entry.0;
                let id: u64 = entry.1;
                assert(arrivals.contains_key(to_remove@[i as int].0));
                by_id.chunks.remove(&id);
                by_arrival.chunks.remove(&key);
                i += 1;
            }
            proof {
                assert forall|id: u64| #[trigger] ids.contains_key(id) implies (
                by_id.chunks@.contains_key(id) <==> !(ids[id].1.key().0 < since.nanos)) by {
                    let key = ids[id].1.key();
                    assert(arrivals.contains_key(key));
                    if key.0 < since.nanos {
                        let j = choose|j: int|
                            0 <= j < to_remove@.len() && (#[trigger] to_remove@[j]).0 == key;
                        assert(to_remove@[j].1 == id);
                    }
                    if !by_id.chunks@.contains_key(id) {
                        let j = choose|j: int|
                            0 <= j < to_remove@.len() && (#[trigger] to_remove@[j]).1 == id;
                        assert(arrivals.contains_key(to_remove@[j].0));
                    }
                }
            }
        },
    }
    proof {
        let before = pending_of(*old(by_id));
        let kept = collected(*config, before, now);
        assert forall|id: u64| pending_of(*by_id).contains_key(id) <==> kept.contains_key(id) by {
            if !flush && ids.contains_key(id) {
                assert(before[id].arrival == ids[id].1.key());
            }
        }
        assert(pending_of(*by_id) =~= kept);
    }
}

/// Puts a chunk of a message in several chunks in its place, and hands the
/// message back once it is complete.
fn push(
    by_id: &mut ById,
    by_arrival: &mut ByArrival,
    metrics: &mut Metrics,
    header: ChunkHeader,
    chunk: Chunk,
    now: u128,
) -> (r: Result<Option<Message>, Error>)
    requires
        consistent(*old(by_id), *old(by_arrival)),
        header.seq_num < header.seq_count,
        chunk.seq == header.seq_num,
    ensures
        consistent(*final(by_id), *final(by_arrival)),
        step_of(*final(by_id), *final(by_arrival), r) == pushed(
            pending_of(*old(by_id)),
            old(by_arrival).counter,
            header,
            chunk.bytes@,
            now,
        ),
        *final(metrics) == (Metrics {
            msg_chunked: if r matches Ok(Some(_)) {
                bumped(old(metrics).msg_chunked)
            } else {
                old(metrics).msg_chunked
            },
            ..*old(metrics)
        }),
{
    let ghost body = chunk.bytes@;
    let ghost ids = by_id.chunks@;
    let ghost arrivals = by_arrival.chunks@;
    let ghost before = pending_of(*by_id);
    let expected: Option<u8> = match by_id.chunks.get(&header.id) {
        Some(entry) => Some(entry.0.expected_total),
        None => None,
    };
    match expected {
        // Begin a new message with the given chunk
        None => {
            let ts = by_arrival.ts(now);
            let evicted = by_arrival.chunks.insert(ts.pair(), header.id);
            match evicted {
                Some(other) => {
                    by_id.chunks.remove(&other);
                },
                None => {},
            }
            by_id.chunks.insert(header.id, (Chunks::new(header.seq_count, chunk), ts));
            proof {
                let want = started(before, header, body, ts.key());
                assert forall|id: u64| #[trigger]
                    pending_of(*by_id).contains_key(id) <==> want.contains_key(id) by {
                    if ids.contains_key(id) {
                        assert(arrivals.contains_key(ids[id].1.key()));
                    }
                }
                assert(pending_of(*by_id) =~= want);
            }
            Ok(None)
        },
        // Add a chunk to an existing message
        Some(total) => {
            // The expected number of chunks must be the one seen first
            if total != header.seq_count {
                return Err(Error::msg(ERR_INCONSISTENT_TOTAL));
            }
            let entry = by_id.chunks.remove(&header.id);
            match entry {
                Some(pair) => {
                    let mut chunks = pair.0;
                    let arrival = pair.1;
                    chunks.insert(chunk);
                    // If the chunk completes the message then return it
                    if chunks.is_complete() {
                        by_arrival.chunks.remove(&arrival.pair());
                        metrics.msg_chunked = bump(metrics.msg_chunked);
                        let message = Message::chunked(chunks.into_ordered());
                        proof {
                            assert(pending_of(*by_id) =~= before.remove(header.id));
                        }
                        Ok(message)
                    } else {
                        let ghost partial = Partial {
                            chunks: chunks.chunks(),
                            ..before[header.id]
                        };
                        by_id.chunks.insert(header.id, (chunks, arrival));
                        proof {
                            assert(pending_of(*by_id) =~= before.insert(header.id, partial));
                        }
                        Ok(None)
                    }
                },
                None => {
                    assert(false);
                    Ok(None)
                },
            }
        },
    }
}

/// Whether `src` starts with the magic of a chunk.
fn starts_with_chunk_magic(src: &[u8]) -> (r: bool)
    ensures
        r == is_chunk(src@),
{
    match Message::peek_magic_bytes(src) {
        Some(magic) => magic[0] == MAGIC_CHUNKED_0 && magic[1] == MAGIC_CHUNKED_1,
        None => false,
    }
}

/// Whether a pending message is sound: its chunks are finitely many and each
/// has a number below the count.
pub open spec fn partial_wf(p: Partial) -> bool {
    &&& p.chunks.dom().finite()
    &&& forall|k: u8| p.chunks.contains_key(k) ==> k < p.total
}

/// Whether a table is sound: it is finite, its messages are sound, and no two
/// of them have the same arrival.
pub open spec fn table_wf(pending: Map<u64, Partial>) -> bool {
    &&& pending.dom().finite()
    &&& forall|id: u64| #[trigger] pending.contains_key(id) ==> partial_wf(pending[id])
    &&& forall|a: u64, b: u64|
        pending.contains_key(a) && pending.contains_key(b) && a != b ==> pending[a].arrival
            != pending[b].arrival
}

} // verus!
