//! Byte streams: messages are separated by null bytes.
//!
//! A connection has a buffer that the bytes it receives are added to, and a
//! decoder that takes the frames out of it. A frame that is longer than the
//! limit is dropped: the decoder discards bytes until the frame's end has
//! come.
use vstd::prelude::*;

use crate::receive::message::bytes_view;
use crate::diagnostics::bump;
use crate::diagnostics::bumped;

verus! {

/// The byte that ends a frame.
pub const DELIMITER: u8 = 0;

/// The connections that a listener keeps at a time.
pub const MAX_CONNECTIONS: usize = 1024;

/// The place of the first null byte of `buf` at or after `from`; the length
/// of `buf` where there is none.
pub open spec fn find_nul(buf: Seq<u8>, from: int) -> int
    decreases buf.len() - from,
{
    if from < 0 || from >= buf.len() {
        buf.len() as int
    } else if buf[from] == DELIMITER {
        from
    } else {
        find_nul(buf, from + 1)
    }
}

/// Where `find_nul` points there is a null byte, and none between `from` and
/// there.
pub proof fn lemma_find_nul(buf: Seq<u8>, from: int)
    requires
        0 <= from <= buf.len(),
    ensures
        from <= find_nul(buf, from) <= buf.len(),
        find_nul(buf, from) < buf.len() ==> buf[find_nul(buf, from)] == DELIMITER,
        forall|j: int| from <= j < find_nul(buf, from) ==> buf[j] != DELIMITER,
    decreases buf.len() - from,
{
    if from < buf.len() && buf[from] != DELIMITER {
        lemma_find_nul(buf, from + 1);
    }
}

/// What one call of the decoder does.
pub struct Scan {
    /// The frame that it hands back, without the null byte.
    pub frame: Option<Seq<u8>>,
    /// The frames that it found too long.
    pub overflows: nat,
    /// Whether it goes on discarding.
    pub discarding: bool,
    /// From where it will search next.
    pub read_head: nat,
    /// What it leaves in the buffer.
    pub rest: Seq<u8>,
}

/// The search starts at the read head, and at the end of the buffer where
/// the read head lies behind it.
pub open spec fn clamp(read_head: usize, len: nat) -> int {
    if read_head <= len {
        read_head as int
    } else {
        len as int
    }
}

/// What one call of the decoder does with the buffer `buf`.
///
/// With a null byte in reach, the bytes before it are a frame. If the frame is
/// within the limit and nothing is being discarded, it is handed back and the
/// buffer goes on behind the null byte. Otherwise the frame is dropped,
/// counted if that was not done before, and the call goes on behind it.
///
/// Without a null byte, the call hands nothing back. A buffer within the limit
/// is kept, and the next search starts where this one ended. A longer one is
/// emptied, and counted unless it is the rest of a frame that is being
/// discarded; discarding then goes on.
pub open spec fn scan(max: usize, discarding: bool, read_head: int, buf: Seq<u8>) -> Scan
    decreases buf.len(),
{
    let at = find_nul(buf, read_head);
    if 0 <= at < buf.len() {
        let rest = buf.subrange(at + 1, buf.len() as int);
        if !discarding && at <= max {
            Scan {
                frame: Some(buf.subrange(0, at)),
                overflows: 0,
                discarding: false,
                read_head: 0,
                rest,
            }
        } else {
            let next = scan(max, false, 0, rest);
            Scan {
                overflows: next.overflows + if discarding {
                    0nat
                } else {
                    1nat
                },
                ..next
            }
        }
    } else if discarding {
        Scan { frame: None, overflows: 0, discarding: true, read_head: 0, rest: Seq::empty() }
    } else if buf.len() > max {
        Scan { frame: None, overflows: 1, discarding: true, read_head: 0, rest: Seq::empty() }
    } else {
        Scan { frame: None, overflows: 0, discarding: false, read_head: buf.len(), rest: buf }
    }
}

/// A counter `n` further.
pub open spec fn bumped_by(count: u64, n: nat) -> u64
    decreases n,
{
    if n == 0 {
        count
    } else {
        bumped(bumped_by(count, (n - 1) as nat))
    }
}

/// The decoder of one connection.
#[derive(Debug, Clone, Copy, PartialEq, Eq, Structural)]
pub struct Decode {
    max_size_bytes: usize,
    read_head: usize,
    discarding: bool,
    overflows: u64,
}

impl Decode {
    /// The longest frame that is accepted.
    pub closed spec fn max_size_bytes(&self) -> usize {
        self.max_size_bytes
    }

    /// From where the next search for a null byte starts.
    pub closed spec fn read_head(&self) -> usize {
        self.read_head
    }

    /// Whether the bytes up to the next null byte are dropped.
    pub closed spec fn discarding(&self) -> bool {
        self.discarding
    }

    /// The frames that were too long, counted since the count was last taken.
    pub closed spec fn overflows(&self) -> u64 {
        self.overflows
    }

    /// A decoder for a new connection.
    pub fn new(max_size_bytes: usize) -> (d: Decode)
        ensures
            d.max_size_bytes() == max_size_bytes,
            d.read_head() == 0,
            !d.discarding(),
            d.overflows() == 0,
    {
        Decode { read_head: 0, discarding: false, max_size_bytes, overflows: 0 }
    }

    /// Whether the decoder is discarding.
    pub fn is_discarding(&self) -> (r: bool)
        ensures
            r == self.discarding(),
    {
        self.discarding
    }

    /// Hands out the count of the frames that were too long, and sets it to 0.
    pub fn take_overflows(&mut self) -> (n: u64)
        ensures
            n == old(self).overflows(),
            final(self).overflows() == 0,
            final(self).max_size_bytes() == old(self).max_size_bytes(),
            final(self).read_head() == old(self).read_head(),
            final(self).discarding() == old(self).discarding(),
    {
        let n = self.overflows;
        self.overflows = 0;
        n
    }

    /// Takes the next frame out of `src`, if a whole one is there.
    ///
    /// Without a frame, the caller is to add what the connection receives to
    /// `src` and call again.
    pub fn decode(&mut self, src: &mut Vec<u8>) -> (frame: Option<Vec<u8>>)
        ensures
            final(self).max_size_bytes() == old(self).max_size_bytes(),
            ({
                let done = scan(
                    old(self).max_size_bytes(),
                    old(self).discarding(),
                    clamp(old(self).read_head(), old(src)@.len()),
                    old(src)@,
                );
                &&& bytes_view(frame) == done.frame
                &&& final(src)@ == done.rest
                &&& final(self).discarding() == done.discarding
                &&& final(self).read_head() == done.read_head
                &&& final(self).overflows() == bumped_by(old(self).overflows(), done.overflows)
            }),
    {
        let ghost goal = scan(
            self.max_size_bytes,
            self.discarding,
            clamp(self.read_head, src@.len()),
            src@,
        );
        let ghost mut counted: nat = 0;
        loop
            invariant
                self.max_size_bytes == old(self).max_size_bytes,
                self.overflows == bumped_by(old(self).overflows, counted),
                goal == scan(
                    old(self).max_size_bytes,
                    old(self).discarding,
                    clamp(old(self).read_head, old(src)@.len()),
                    old(src)@,
                ),
                ({
                    let here = scan(
                        self.max_size_bytes,
                        self.discarding,
                        clamp(self.read_head, src@.len()),
                        src@,
                    );
                    &&& goal.frame == here.frame
                    &&& goal.rest == here.rest
                    &&& goal.discarding == here.discarding
                    &&& goal.read_head == here.read_head
                    &&& goal.overflows == counted + here.overflows
                }),
            decreases src@.len(),
        {
            let head: usize = if self.read_head <= src.len() {
                self.read_head
            } else {
                src.len()
            };
            // Messages are separated by null bytes
            let at: usize = position_of_nul(src, head);
            let ghost buf = src@;
            let ghost here = scan(self.max_size_bytes, self.discarding, head as int, buf);
            if at < src.len() {
                let mut rest = src.split_off(at + 1);
                if !self.discarding && at <= self.max_size_bytes {
                    // A delimiter was found
                    // Split the frame from the buffer and return it
                    std::mem::swap(src, &mut rest);
                    rest.truncate(at);
                    self.read_head = 0;
                    assert(rest@ =~= buf.subrange(0, at as int));
                    assert(src@ =~= buf.subrange(at + 1, buf.len() as int));
                    assert(here.frame == Some(buf.subrange(0, at as int)));
                    return Some(rest);
                }
                // The message is sitting right there, but it is bigger
                // than the limit or the rest of one that is, so it goes
                if !self.discarding {
                    self.overflows = bump(self.overflows);
                    proof {
                        counted = counted + 1;
                    }
                }
                std::mem::swap(src, &mut rest);
                self.discarding = false;
                self.read_head = 0;
                assert(src@ =~= buf.subrange(at + 1, buf.len() as int));
            } else if self.discarding {
                // The end of the message has not come yet
                src.clear();
                self.read_head = 0;
                assert(src@ =~= goal.rest);
                return None;
            } else if src.len() > self.max_size_bytes {
                // A delimiter wasn't found, but the incomplete
                // message is too big. Start discarding the input
                self.overflows = bump(self.overflows);
                self.discarding = true;
                src.clear();
                self.read_head = 0;
                proof {
                    counted = counted + 1;
                }
                assert(src@ =~= goal.rest);
                return None;
            } else {
                // A delimiter wasn't found
                // Move the read head forward so the search goes on
                // from that position when more data arrives
                self.read_head = src.len();
                return None;
            }
        }
    }

    /// Takes the next frame out of `src` when the connection has ended: a
    /// whole frame if one is there, else what is left, as the last frame.
    pub fn decode_eof(&mut self, src: &mut Vec<u8>) -> (frame: Option<Vec<u8>>)
        ensures
            final(self).max_size_bytes() == old(self).max_size_bytes(),
            ({
                let done = scan(
                    old(self).max_size_bytes(),
                    old(self).discarding(),
                    clamp(old(self).read_head(), old(src)@.len()),
                    old(src)@,
                );
                &&& final(self).discarding() == done.discarding
                &&& final(self).overflows() == bumped_by(old(self).overflows(), done.overflows)
                &&& done.frame is Some ==> bytes_view(frame) == done.frame && final(src)@
                    == done.rest && final(self).read_head() == done.read_head
                &&& done.frame is None ==> final(src)@.len() == 0 && final(self).read_head() == 0
                    && bytes_view(frame) == if done.rest.len() == 0 {
                    None
                } else {
                    Some(done.rest)
                }
            }),
    {
        match self.decode(src) {
            Some(frame) => Some(frame),
            None => {
                if src.len() == 0 {
                    self.read_head = 0;
                    None
                } else {
                    let last = src.split_off(0);
                    self.read_head = 0;
                    Some(last)
                }
            },
        }
    }
}

/// The place of the first null byte of `buf` at or after `from`; the length
/// of `buf` where there is none.
fn position_of_nul(buf: &Vec<u8>, from: usize) -> (at: usize)
    requires
        from <= buf@.len(),
    ensures
        at == find_nul(buf@, from as int),
        from <= at <= buf@.len(),
{
    let mut at: usize = from;
    proof {
        lemma_find_nul(buf@, from as int);
    }
    while at < buf.len() && buf[at] != DELIMITER
        invariant
            from <= at <= buf@.len(),
            find_nul(buf@, at as int) == find_nul(buf@, from as int),
        decreases buf@.len() - at,
    {
        at += 1;
    }
    at
}

/// The pool of the connections of a listener. It holds `max` at the most.
#[derive(Debug, Clone, Copy, PartialEq, Eq, Structural)]
pub struct Listen {
    max: usize,
    open: usize,
}

impl Listen {
    /// The most connections that the pool holds.
    pub closed spec fn max(&self) -> usize {
        self.max
    }

    /// The connections that the pool holds.
    pub closed spec fn open(&self) -> usize {
        self.open
    }

    #[verifier::type_invariant]
    spec fn inv(&self) -> bool {
        self.open <= self.max
    }

    /// An empty pool for `max_connections`.
    pub fn new(max_connections: usize) -> (l: Listen)
        ensures
            l.max() == max_connections,
            l.open() == 0,
    {
        Listen { max: max_connections, open: 0 }
    }

    /// Whether there is room for one more. A new connection waits while there
    /// is none.
    pub fn has_room(&self) -> (r: bool)
        ensures
            r == (self.open() < self.max()),
            self.open() <= self.max(),
    {
        proof {
            use_type_invariant(self);
        }
        self.open < self.max
    }

    /// Takes a connection in, if there is room; says whether it did.
    pub fn accept(&mut self) -> (taken: bool)
        ensures
            taken == (old(self).open() < old(self).max()),
            final(self).max() == old(self).max(),
            final(self).open() == if taken {
                old(self).open() + 1
            } else {
                old(self).open() as int
            },
    {
        proof {
            use_type_invariant(&*self);
        }
        if self.open < self.max {
            self.open = self.open + 1;
            true
        } else {
            false
        }
    }

    /// Lets a connection go that has ended or has failed.
    pub fn close(&mut self)
        ensures
            final(self).max() == old(self).max(),
            final(self).open() == if old(self).open() > 0 {
                old(self).open() - 1
            } else {
                0
            },
    {
        proof {
            use_type_invariant(&*self);
        }
        if self.open > 0 {
            self.open = self.open - 1;
        }
    }
}

/// What a connection under a deadline has come to.
pub enum Polled<T> {
    /// The deadline is over.
    Elapsed,
    /// The connection has produced an item, or has ended.
    Ready(Option<T>),
    /// Neither yet.
    Pending,
}

/// What becomes of a connection under a deadline.
pub enum KeepAlive<T> {
    /// It is closed, for no message came in time.
    TimedOut,
    /// It hands on what it produced, and the deadline starts again.
    Reset(Option<T>),
    /// It waits on.
    Pending,
}

/// Decides what becomes of a connection under a deadline. The deadline is for
/// a complete message, not for any byte: it starts again only when the
/// connection has produced an item. A connection that runs out of it is
/// counted in `timeouts`.
pub fn keep_alive<T>(polled: Polled<T>, timeouts: &mut u64) -> (r: KeepAlive<T>)
    ensures
        polled is Elapsed ==> r is TimedOut && *final(timeouts) == bumped(*old(timeouts)),
        polled matches Polled::Ready(item) ==> r == KeepAlive::Reset(item) && *final(timeouts)
            == *old(timeouts),
        polled is Pending ==> r is Pending && *final(timeouts) == *old(timeouts),
{
    match polled {
        // The timeout has elapsed
        Polled::Elapsed => {
            *timeouts = bump(*timeouts);
            KeepAlive::TimedOut
        },
        // The stream has produced an item
        // The timeout is reset
        Polled::Ready(item) => KeepAlive::Reset(item),
        // The timeout hasn't elapsed and the stream hasn't produced an item
        Polled::Pending => KeepAlive::Pending,
    }
}

} // verus!
