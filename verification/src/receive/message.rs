//! Messages as they come off the wire, and readers over what they stand for.
use std::io::Read;
use vstd::prelude::*;

use crate::error::Error;
use crate::io::MemRead;

verus! {

/// Message of the error for a message whose compressed bytes cannot be decoded.
pub const ERR_DECOMPRESS: &'static str = "failed to decompress the message";

/// How the bytes of a message are compressed.
#[derive(Debug, Clone, Copy, PartialEq, Eq, Structural)]
pub enum Compression {
    Gzip,
    Zlib,
}

/// The compression that the first two bytes of `bytes` announce.
///
/// `1f 8b` is gzip. `78` followed by a byte that makes the two, read as one
/// big-endian number, a multiple of 31 is zlib. Fewer than two bytes announce
/// nothing.
pub open spec fn detect_spec(bytes: Seq<u8>) -> Option<Compression> {
    if bytes.len() < 2 {
        None
    } else if bytes[0] == 0x1f && bytes[1] == 0x8b {
        Some(Compression::Gzip)
    } else if bytes[0] == 0x78 && (bytes[0] as int * 256 + bytes[1] as int) % 31 == 0 {
        Some(Compression::Zlib)
    } else {
        None
    }
}

impl Compression {
    /// The compression that a two-byte prefix announces.
    pub fn detect(header: [u8; 2]) -> (c: Option<Compression>)
        ensures
            c == detect_spec(header@),
    {
        let b0: u8 = header[0];
        let b1: u8 = header[1];
        if b0 == 0x1f && b1 == 0x8b {
            Some(Compression::Gzip)
        } else if b0 == 0x78 && (b0 as u16 * 256 + b1 as u16) % 31 == 0 {
            Some(Compression::Zlib)
        } else {
            None
        }
    }
}

/// The compression of a buffer, by a look at its first two bytes.
pub fn detect_compression(src: &[u8]) -> (c: Option<Compression>)
    ensures
        c == detect_spec(src@),
{
    match Message::peek_magic_bytes(src) {
        Some(header) => {
            assert(header@ =~= src@.subrange(0, 2));
            Compression::detect(header)
        },
        None => None,
    }
}

/// A raw GELF message, as it came: whole, or as the chunks it was cut into.
#[derive(Debug, PartialEq, Eq)]
pub struct Message {
    inner: MessageInner,
}

#[derive(Debug, PartialEq, Eq)]
enum MessageInner {
    /// A message in one piece. It may be compressed.
    Single { compression: Option<Compression>, bytes: Vec<u8> },
    /// A message in several chunks, in the order of their sequence numbers.
    ///
    /// A sender compresses before it cuts, so the chunks together are one
    /// compressed stream; what it is shows at the start of the first chunk.
    Chunked { chunks: Vec<Vec<u8>> },
}

/// What a message holds.
pub enum MessageView {
    /// One buffer, and the compression that its first bytes announce.
    Single { compression: Option<Compression>, bytes: Seq<u8> },
    /// The chunks, in the order of their sequence numbers.
    Chunked { chunks: Seq<Seq<u8>> },
}

/// The byte sequences that a vector of buffers holds.
pub open spec fn buffers(chunks: Seq<Vec<u8>>) -> Seq<Seq<u8>> {
    Seq::new(chunks.len(), |i: int| chunks[i]@)
}

/// Whether a message is sound: it is not empty, and one buffer carries the
/// compression that its own first bytes announce. Every message is.
pub open spec fn valid(m: MessageView) -> bool {
    match m {
        MessageView::Single { compression, bytes } => bytes.len() > 0 && compression
            == detect_spec(bytes),
        MessageView::Chunked { chunks } => chunks.len() > 0,
    }
}

/// The message that one non-empty buffer makes.
pub open spec fn single_spec(bytes: Seq<u8>) -> Option<MessageView> {
    if bytes.len() == 0 {
        None
    } else {
        Some(MessageView::Single { compression: detect_spec(bytes), bytes })
    }
}

/// The message that a non-empty list of chunks makes.
pub open spec fn chunked_spec(chunks: Seq<Seq<u8>>) -> Option<MessageView> {
    if chunks.len() == 0 {
        None
    } else {
        Some(MessageView::Chunked { chunks })
    }
}

impl MessageInner {
    spec fn view(&self) -> MessageView {
        match self {
            MessageInner::Single { compression, bytes } => MessageView::Single {
                compression: *compression,
                bytes: bytes@,
            },
            MessageInner::Chunked { chunks } => MessageView::Chunked { chunks: buffers(chunks@) },
        }
    }

    spec fn wf(&self) -> bool {
        match self {
            MessageInner::Single { compression, bytes } => bytes@.len() > 0 && *compression
                == detect_spec(bytes@),
            MessageInner::Chunked { chunks } => chunks@.len() > 0,
        }
    }
}

impl View for Message {
    type V = MessageView;

    closed spec fn view(&self) -> MessageView {
        self.inner.view()
    }
}

/// The view of the message that a decoder hands back, if it hands one back.
pub open spec fn message_view(m: Option<Message>) -> Option<MessageView> {
    match m {
        Some(m) => Some(m@),
        None => None,
    }
}

impl Message {
    #[verifier::type_invariant]
    spec fn inv(&self) -> bool {
        self.inner.wf()
    }

    /// The message that one buffer makes; none where the buffer is empty.
    ///
    /// `compression` is what the first two bytes of `src` announce.
    pub fn single(compression: Option<Compression>, src: Vec<u8>) -> (m: Option<Message>)
        requires
            compression == detect_spec(src@),
        ensures
            message_view(m) == single_spec(src@),
    {
        if src.len() == 0 {
            return None;
        }
        Some(Message { inner: MessageInner::Single { compression, bytes: src } })
    }

    /// The message that chunks make, taken in the order given; none where there
    /// is no chunk.
    pub fn chunked(chunks: Vec<Vec<u8>>) -> (m: Option<Message>)
        ensures
            message_view(m) == chunked_spec(buffers(chunks@)),
    {
        if chunks.len() == 0 {
            return None;
        }
        Some(Message { inner: MessageInner::Chunked { chunks } })
    }

    /// The first two bytes of `src`, where it has that many.
    pub fn peek_magic_bytes(src: &[u8]) -> (r: Option<[u8; 2]>)
        ensures
            src@.len() < 2 ==> r is None,
            src@.len() >= 2 ==> (r matches Some(h) && h@ == seq![src@[0], src@[1]]),
    {
        if src.len() < 2 {
            return None;
        }
        let header: [u8; 2] = [src[0], src[1]];
        assert(header@ =~= seq![src@[0], src@[1]]);
        Some(header)
    }

    /// The compression of the message: that of its one buffer, or what the
    /// first two bytes of its first chunk announce.
    pub fn compression(&self) -> (c: Option<Compression>)
        ensures
            c == compression_spec(self@),
            valid(self@),
    {
        proof {
            use_type_invariant(self);
        }
        match &self.inner {
            MessageInner::Single { compression, .. } => *compression,
            MessageInner::Chunked { chunks } => {
                if chunks.len() > 0 {
                    detect_compression(chunks[0].as_slice())
                } else {
                    None
                }
            },
        }
    }

    /// The chunks of the message; a message in one piece has one.
    pub fn chunks(&self) -> (r: Vec<Vec<u8>>)
        ensures
            self@ matches MessageView::Single { bytes, .. } ==> buffers(r@) == seq![bytes],
            self@ matches MessageView::Chunked { chunks } ==> buffers(r@) == chunks,
    {
        match &self.inner {
            MessageInner::Single { bytes, .. } => {
                let mut out: Vec<Vec<u8>> = Vec::new();
                out.push(bytes.clone());
                assert(buffers(out@) =~= seq![bytes@]);
                out
            },
            MessageInner::Chunked { chunks } => {
                let mut out: Vec<Vec<u8>> = Vec::new();
                let mut i: usize = 0;
                while i < chunks.len()
                    invariant
                        i <= chunks@.len(),
                        out@.len() == i,
                        forall|j: int| 0 <= j < i ==> (#[trigger] out@[j])@ == chunks@[j]@,
                    decreases chunks@.len() - i,
                {
                    out.push(chunks[i].clone());
                    i += 1;
                }
                assert(buffers(out@) =~= buffers(chunks@));
                out
            },
        }
    }

    /// Whether the message came in chunks.
    pub fn is_chunked(&self) -> (r: bool)
        ensures
            r == (self@ is Chunked),
    {
        match &self.inner {
            MessageInner::Single { .. } => false,
            MessageInner::Chunked { .. } => true,
        }
    }
}

impl MemRead for Message {
    open spec fn direct(&self) -> Option<Seq<u8>> {
        match self@ {
            MessageView::Single { compression: None, bytes } => Some(bytes),
            _ => None,
        }
    }

    open spec fn content(&self) -> Option<Seq<u8>> {
        content_spec(self@)
    }

    proof fn lemma_direct_is_content(&self) {
    }

    /// The bytes of a message in one piece that is not compressed.
    fn bytes(&self) -> (r: Option<&[u8]>) {
        match &self.inner {
            MessageInner::Single { bytes, compression: None } => Some(bytes.as_slice()),
            _ => None,
        }
    }

    /// A reader over what the message stands for. The chunks are read end to
    /// end; where the message is compressed, they are decompressed as one
    /// stream, and the reader is refused where that fails.
    fn into_reader(self) -> (r: Result<Reader, Error>)
        ensures
            r matches Err(e) ==> e@ == ERR_DECOMPRESS@,
    {
        let compression = self.compression();
        let ghost view = self@;
        let body = ChunkRead::new(self.inner);
        match compression {
            None => Ok(Reader { body }),
            Some(Compression::Gzip) => {
                let mut raw: Vec<u8> = Vec::new();
                body.rest_into(&mut raw);
                assert(raw@ =~= raw_spec(view));
                match gzip_decode(raw.as_slice()) {
                    Some(decoded) => Ok(Reader::over(decoded)),
                    None => Err(Error::msg(ERR_DECOMPRESS)),
                }
            },
            Some(Compression::Zlib) => {
                let mut raw: Vec<u8> = Vec::new();
                body.rest_into(&mut raw);
                assert(raw@ =~= raw_spec(view));
                match zlib_decode(raw.as_slice()) {
                    Some(decoded) => Ok(Reader::over(decoded)),
                    None => Err(Error::msg(ERR_DECOMPRESS)),
                }
            },
        }
    }
}

/// The chunks of a message end to end.
pub open spec fn joined(chunks: Seq<Seq<u8>>) -> Seq<u8>
    decreases chunks.len(),
{
    if chunks.len() == 0 {
        Seq::empty()
    } else {
        joined(chunks.drop_last()) + chunks.last()
    }
}

/// The bytes of a message as they came, before any decompression.
pub open spec fn raw_spec(m: MessageView) -> Seq<u8> {
    match m {
        MessageView::Single { bytes, .. } => bytes,
        MessageView::Chunked { chunks } => joined(chunks),
    }
}

/// The compression of a message: that of its one buffer, or what the first
/// two bytes of its first chunk announce.
pub open spec fn compression_spec(m: MessageView) -> Option<Compression> {
    match m {
        MessageView::Single { compression, .. } => compression,
        MessageView::Chunked { chunks } => if chunks.len() > 0 {
            detect_spec(chunks[0])
        } else {
            None
        },
    }
}

/// What `libflate::gzip::Decoder` reads, up to its end, from a stream that
/// holds `bytes`; none where the decoder reports an error.
pub uninterp spec fn gzip_decoded(bytes: Seq<u8>) -> Option<Seq<u8>>;

/// What `libflate::zlib::Decoder` reads, up to its end, from a stream that
/// holds `bytes`; none where the decoder reports an error.
pub uninterp spec fn zlib_decoded(bytes: Seq<u8>) -> Option<Seq<u8>>;

/// The bytes that a message stands for: its raw bytes, decompressed where they
/// are compressed. None where they cannot be decompressed.
pub open spec fn content_spec(m: MessageView) -> Option<Seq<u8>> {
    match compression_spec(m) {
        None => Some(raw_spec(m)),
        Some(Compression::Gzip) => gzip_decoded(raw_spec(m)),
        Some(Compression::Zlib) => zlib_decoded(raw_spec(m)),
    }
}

/// The view of a buffer that may be missing.
pub open spec fn bytes_view(v: Option<Vec<u8>>) -> Option<Seq<u8>> {
    match v {
        Some(v) => Some(v@),
        None => None,
    }
}

/// Decodes a gzip stream with `libflate::gzip::Decoder`: the decoder is made
/// over `bytes` and read to its end. The result is the named one, none where
/// making the decoder or reading from it fails.
#[verifier::external_body]
fn gzip_decode(bytes: &[u8]) -> (r: Option<Vec<u8>>)
    ensures
        bytes_view(r) == gzip_decoded(bytes@),
{
    let mut out = Vec::new();
    let mut decoder = libflate::gzip::Decoder::new(bytes).ok()?;
    decoder.read_to_end(&mut out).ok()?;
    Some(out)
}

/// Decodes a zlib stream with `libflate::zlib::Decoder`: the decoder is made
/// over `bytes` and read to its end. The result is the named one, none where
/// making the decoder or reading from it fails.
#[verifier::external_body]
fn zlib_decode(bytes: &[u8]) -> (r: Option<Vec<u8>>)
    ensures
        bytes_view(r) == zlib_decoded(bytes@),
{
    let mut out = Vec::new();
    let mut decoder = libflate::zlib::Decoder::new(bytes).ok()?;
    decoder.read_to_end(&mut out).ok()?;
    Some(out)
}

/// Adding a chunk at the end adds its bytes at the end.
pub proof fn lemma_joined_push(chunks: Seq<Seq<u8>>, last: Seq<u8>)
    ensures
        joined(chunks.push(last)) == joined(chunks) + last,
{
    assert(chunks.push(last).drop_last() =~= chunks);
}

/// The first `k` chunks end to end are where the whole begins, and chunk `k`
/// follows them.
pub proof fn lemma_joined_take(chunks: Seq<Seq<u8>>, k: int)
    requires
        0 <= k <= chunks.len(),
    ensures
        joined(chunks.take(k)).len() <= joined(chunks).len(),
        joined(chunks.take(k)) == joined(chunks).subrange(0, joined(chunks.take(k)).len() as int),
        k < chunks.len() ==> joined(chunks.take(k + 1)) == joined(chunks.take(k)) + chunks[k],
    decreases chunks.len() - k,
{
    if k == chunks.len() {
        assert(chunks.take(k) =~= chunks);
    } else {
        lemma_joined_take(chunks, k + 1);
        assert(chunks.take(k + 1).drop_last() =~= chunks.take(k));
        assert(chunks.take(k + 1).last() == chunks[k]);
        let a = joined(chunks.take(k));
        let b = joined(chunks.take(k + 1));
        assert(b == a + chunks[k]);
        assert(a =~= b.subrange(0, a.len() as int));
        assert(a =~= joined(chunks).subrange(0, a.len() as int));
    }
}

/// A place in the bytes of a message, from which a reader goes on.
struct ChunkRead {
    chunk: usize,
    cursor: usize,
    msg: MessageInner,
}

impl ChunkRead {
    spec fn chunks(&self) -> Seq<Seq<u8>> {
        match self.msg {
            MessageInner::Single { bytes, .. } => seq![bytes@],
            MessageInner::Chunked { chunks } => buffers(chunks@),
        }
    }

    #[verifier::type_invariant]
    spec fn wf(&self) -> bool {
        &&& self.chunk <= self.chunks().len()
        &&& self.chunk < self.chunks().len() ==> self.cursor <= self.chunks()[self.chunk as int].len()
        &&& self.chunk == self.chunks().len() ==> self.cursor == 0
    }

    spec fn stream(&self) -> Seq<u8> {
        joined(self.chunks())
    }

    spec fn position(&self) -> nat {
        joined(self.chunks().take(self.chunk as int)).len() + self.cursor as nat
    }

    spec fn remaining(&self) -> Seq<u8> {
        self.stream().subrange(self.position() as int, self.stream().len() as int)
    }

    proof fn lemma_position(&self)
        requires
            self.wf(),
        ensures
            self.position() <= self.stream().len(),
            self.chunk < self.chunks().len() ==> self.position() + (
            self.chunks()[self.chunk as int].len() - self.cursor) <= self.stream().len(),
            self.chunk < self.chunks().len() ==> forall|j: int|
                self.cursor <= j < self.chunks()[self.chunk as int].len()
                    ==> #[trigger] self.chunks()[self.chunk as int][j] == self.stream()[
                    self.position() - self.cursor + j],
            self.chunk == self.chunks().len() ==> self.position() == self.stream().len(),
    {
        let chunks = self.chunks();
        let k = self.chunk as int;
        lemma_joined_take(chunks, k);
        if k < chunks.len() {
            lemma_joined_take(chunks, k + 1);
            let a = joined(chunks.take(k));
            let b = joined(chunks.take(k + 1));
            assert forall|j: int| self.cursor <= j < chunks[k].len() implies #[trigger] chunks[k][j]
                == self.stream()[self.position() - self.cursor + j] by {
                assert(b[a.len() + j] == chunks[k][j]);
                assert(b[a.len() + j] == self.stream().subrange(0, b.len() as int)[a.len() + j]);
            }
        } else {
            assert(chunks.take(k) =~= chunks);
        }
    }

    /// A reader at the start of the bytes of `msg`.
    fn new(msg: MessageInner) -> (r: ChunkRead)
        ensures
            r.msg == msg,
            r.remaining() == raw_spec(msg.view()),
    {
        let r = ChunkRead { chunk: 0, cursor: 0, msg };
        proof {
            assert(r.chunks().take(0) =~= Seq::<Seq<u8>>::empty());
            assert(r.stream().subrange(0, r.stream().len() as int) =~= r.stream());
            if r.msg is Single {
                lemma_joined_push(Seq::empty(), r.msg->bytes@);
                assert(seq![r.msg->bytes@] =~= Seq::<Seq<u8>>::empty().push(r.msg->bytes@));
            }
        }
        r
    }

    /// Copies bytes from the current place on into `b`, as many as are left
    /// or as `b` takes, and moves on by that number, which it returns.
    ///
    /// For an empty `b` that number is 0, whatever is left.
    fn read(&mut self, b: &mut [u8]) -> (n: usize)
        ensures
            final(self).msg == old(self).msg,
            n == if old(b)@.len() <= old(self).remaining().len() {
                old(b)@.len()
            } else {
                old(self).remaining().len()
            },
            final(b)@ == old(self).remaining().subrange(0, n as int) + old(b)@.subrange(
                n as int,
                old(b)@.len() as int,
            ),
            final(self).remaining() == old(self).remaining().subrange(
                n as int,
                old(self).remaining().len() as int,
            ),
    {
        let ghost stream = self.stream();
        let ghost start = self.position();
        let ghost chunks = self.chunks();
        let mut total: usize = 0;
        proof {
            use_type_invariant(&*self);
            self.lemma_position();
        }
        while total < b.len()
            invariant
                self.wf(),
                self.msg == old(self).msg,
                chunks == self.chunks(),
                stream == self.stream(),
                start == old(self).position(),
                self.position() == start + total,
                self.position() <= stream.len(),
                total <= b@.len(),
                b@.len() == old(b)@.len(),
                b@.subrange(0, total as int) == stream.subrange(start as int, start + total),
                b@.subrange(total as int, b@.len() as int) == old(b)@.subrange(
                    total as int,
                    b@.len() as int,
                ),
            ensures
                total == b@.len() || self.position() == stream.len(),
            decreases (chunks.len() - self.chunk) + (b@.len() - total),
        {
            let count: usize = match &self.msg {
                MessageInner::Single { .. } => 1,
                MessageInner::Chunked { chunks } => chunks.len(),
            };
            if self.chunk >= count {
                proof {
                    self.lemma_position();
                }
                break ;
            }
            let ghost before = *self;
            let ghost b_before = b@;
            proof {
                self.lemma_position();
            }
            let bytes: &Vec<u8> = match &self.msg {
                MessageInner::Single { bytes, .. } => bytes,
                MessageInner::Chunked { chunks } => &chunks[self.chunk],
            };
            assert(bytes@ == chunks[self.chunk as int]);
            let readable: usize = bytes.len() - self.cursor;
            let wanted: usize = b.len() - total;
            let read: usize = if readable < wanted {
                readable
            } else {
                wanted
            };
            let cursor: usize = self.cursor;
            assert(bytes@.len() == bytes.len() && b@.len() == b.len());
            let mut j: usize = 0;
            while j < read
                invariant
                    j <= read,
                    cursor + read <= bytes@.len(),
                    total + read <= b@.len(),
                    bytes@.len() <= usize::MAX,
                    b@.len() <= usize::MAX,
                    b@.len() == b_before.len(),
                    b@.subrange(0, total as int) == b_before.subrange(0, total as int),
                    b@.subrange(total + read, b@.len() as int) == b_before.subrange(
                        total + read,
                        b@.len() as int,
                    ),
                    forall|i: int|
                        total <= i < total + j ==> #[trigger] b@[i] == bytes@[cursor + i - total],
                    forall|i: int| total + j <= i < b@.len() ==> b@[i] == b_before[i],
                decreases read - j,
            {
                let ghost b_prev = b@;
                b[total + j] = bytes[cursor + j];
                assert(b@.subrange(0, total as int) =~= b_prev.subrange(0, total as int));
                assert(b@.subrange(total + read, b@.len() as int) =~= b_prev.subrange(
                    total + read,
                    b@.len() as int,
                ));
                j += 1;
            }
            assert(bytes@.len() == bytes.len() && b@.len() == b.len());
            if read == readable {
                self.cursor = 0;
                self.chunk += 1;
            } else {
                self.cursor += read;
            }
            proof {
                assert(self.chunks() == chunks);
                if read == readable {
                    lemma_joined_take(chunks, before.chunk as int);
                }
                assert(self.position() == before.position() + read);
                assert forall|i: int| 0 <= i < total + read implies b@[i] == stream[start + i] by {
                    if i < total {
                        assert(b@.subrange(0, total as int)[i] == b_before.subrange(
                            0,
                            total as int,
                        )[i]);
                        assert(b_before.subrange(0, total as int)[i] == stream.subrange(
                            start as int,
                            start + total,
                        )[i]);
                    } else {
                        let k = i - total;
                        assert(b@[i] == bytes@[cursor + k]);
                        assert(chunks[before.chunk as int][cursor + k] == stream[before.position()
                            - before.cursor + (cursor + k)]);
                    }
                }
                assert(b@.subrange(0, total + read) =~= stream.subrange(
                    start as int,
                    start + total + read,
                ));
                assert(b@.subrange(total + read, b@.len() as int) =~= old(b)@.subrange(
                    total + read,
                    b@.len() as int,
                )) by {
                    assert forall|i: int| total + read <= i < b@.len() implies b@[i] == old(b)@[i] by {
                        assert(b@[i] == b_before[i]);
                        assert(b_before.subrange(total as int, b_before.len() as int)[i - total]
                            == old(b)@.subrange(total as int, b_before.len() as int)[i - total]);
                    }
                }
            }
            total += read;
        }
        proof {
            let rem = old(self).remaining();
            assert(rem.len() == stream.len() - start);
            assert(rem.subrange(0, total as int) =~= stream.subrange(start as int, start + total));
            assert(b@ =~= b@.subrange(0, total as int) + b@.subrange(total as int, b@.len() as int));
            assert(self.remaining() =~= rem.subrange(total as int, rem.len() as int));
        }
        total
    }
}

impl ChunkRead {
    /// Moves to the end of the bytes.
    fn seek_end(&mut self)
        ensures
            final(self).msg == old(self).msg,
            final(self).remaining().len() == 0,
    {
        let count: usize = match &self.msg {
            MessageInner::Single { .. } => 1,
            MessageInner::Chunked { chunks } => chunks.len(),
        };
        proof {
            use_type_invariant(&*self);
        }
        self.cursor = 0;
        self.chunk = count;
        proof {
            self.lemma_position();
        }
    }

    /// Copies all the bytes from the current place on to the end of `out`.
    fn rest_into(&self, out: &mut Vec<u8>)
        ensures
            final(out)@ == old(out)@ + self.remaining(),
    {
        let ghost stream = self.stream();
        let ghost start = self.position();
        let ghost chunks = self.chunks();
        let count: usize = match &self.msg {
            MessageInner::Single { .. } => 1,
            MessageInner::Chunked { chunks } => chunks.len(),
        };
        proof {
            use_type_invariant(self);
            self.lemma_position();
        }
        let mut k: usize = self.chunk;
        let mut from: usize = self.cursor;
        while k < count
            invariant
                self.wf(),
                chunks == self.chunks(),
                stream == self.stream(),
                start == self.position(),
                count == chunks.len(),
                self.chunk <= k <= count,
                k < count ==> from <= chunks[k as int].len(),
                k == count ==> from == 0,
                start <= joined(chunks.take(k as int)).len() + from <= stream.len(),
                out@ == old(out)@ + stream.subrange(
                    start as int,
                    joined(chunks.take(k as int)).len() + from,
                ),
            decreases count - k,
        {
            let ghost here = ChunkRead { chunk: k, cursor: from, msg: self.msg };
            proof {
                here.lemma_position();
            }
            let bytes: &Vec<u8> = match &self.msg {
                MessageInner::Single { bytes, .. } => bytes,
                MessageInner::Chunked { chunks } => &chunks[k],
            };
            assert(bytes@ == chunks[k as int]);
            let ghost base = joined(chunks.take(k as int)).len();
            let mut j: usize = from;
            while j < bytes.len()
                invariant
                    from <= j <= bytes@.len(),
                    start <= base + j <= stream.len(),
                    base + bytes@.len() <= stream.len(),
                    forall|i: int|
                        from <= i < bytes@.len() ==> #[trigger] bytes@[i] == stream[base + i],
                    out@ == old(out)@ + stream.subrange(start as int, base + j),
                decreases bytes@.len() - j,
            {
                out.push(bytes[j]);
                assert(stream.subrange(start as int, base + j).push(stream[base + j])
                    =~= stream.subrange(start as int, base + j + 1));
                assert(out@ =~= old(out)@ + stream.subrange(start as int, base + j + 1));
                j += 1;
            }
            proof {
                lemma_joined_take(chunks, k as int);
            }
            k += 1;
            from = 0;
        }
        proof {
            assert(chunks.take(k as int) =~= chunks);
        }
    }
}

/// A reader over the bytes that a message stands for.
pub struct Reader {
    body: ChunkRead,
}

impl Reader {
    /// The bytes that are still to be read.
    pub closed spec fn remaining(&self) -> Seq<u8> {
        self.body.remaining()
    }

    /// A reader over `bytes`.
    pub fn over(bytes: Vec<u8>) -> (r: Reader)
        ensures
            r.remaining() == bytes@,
    {
        Reader { body: ChunkRead::new(MessageInner::Single { compression: None, bytes }) }
    }

    /// Reads into `b` as many of the remaining bytes as there are or as `b`
    /// takes, and returns their number. The rest of `b` stays as it was.
    ///
    /// With an empty `b` this reads nothing and returns 0, which then does not
    /// mean that the end is reached.
    pub fn read(&mut self, b: &mut [u8]) -> (n: usize)
        ensures
            n == if old(b)@.len() <= old(self).remaining().len() {
                old(b)@.len()
            } else {
                old(self).remaining().len()
            },
            final(b)@ == old(self).remaining().subrange(0, n as int) + old(b)@.subrange(
                n as int,
                old(b)@.len() as int,
            ),
            final(self).remaining() == old(self).remaining().subrange(
                n as int,
                old(self).remaining().len() as int,
            ),
    {
        self.body.read(b)
    }

    /// Reads all the remaining bytes and puts them at the end of `out`.
    pub fn read_to_end(&mut self, out: &mut Vec<u8>)
        ensures
            final(out)@ == old(out)@ + old(self).remaining(),
            final(self).remaining().len() == 0,
    {
        self.body.rest_into(out);
        self.body.seek_end();
    }
}

} // verus!
