//! Bounded FIFO byte buffer for the receive path.
//!
//! In the firmware exactly one producer (the receive interrupt) and one
//! consumer (the decoder task) share this buffer for the lifetime of the
//! process; the producer never blocks, and a byte that arrives while the
//! buffer is full is dropped (drop-newest policy).  The buffer is a ring
//! over fixed storage: no allocation happens after construction.

use vstd::prelude::*;

verus! {

/// A fixed-capacity FIFO of bytes with head cursor and current size.
pub struct ByteChannel {
    data: Vec<u8>,
    head: usize,
    size: usize,
}

impl View for ByteChannel {
    type V = Seq<u8>;

    /// The bytes currently buffered, oldest first.
    closed spec fn view(&self) -> Seq<u8> {
        Seq::new(
            self.size as nat,
            |i: int|
                self.data@[
                    if self.head + i < self.data@.len() {
                        self.head + i
                    } else {
                        self.head + i - self.data@.len()
                    }
                ],
        )
    }
}

impl ByteChannel {
    /// The fixed capacity chosen at construction.
    pub closed spec fn capacity(&self) -> nat {
        self.data@.len()
    }

    /// Structural invariant: the storage never changes length, the head
    /// cursor stays inside it, and the size never exceeds the capacity.
    pub closed spec fn wf(&self) -> bool {
        &&& self.data@.len() >= 1
        &&& self.head < self.data@.len()
        &&& self.size <= self.data@.len()
    }

    /// The buffered bytes never outgrow the capacity.
    pub proof fn lemma_len_le_capacity(&self)
        requires
            self.wf(),
        ensures
            self@.len() <= self.capacity(),
    {
    }

    /// Creates an empty channel with the given capacity.
    pub fn new(capacity: usize) -> (r: ByteChannel)
        requires
            capacity >= 1,
        ensures
            r.wf(),
            r@ == Seq::<u8>::empty(),
            r.capacity() == capacity,
    {
        let mut data: Vec<u8> = Vec::new();
        while data.len() < capacity
            invariant
                data@.len() <= capacity,
            decreases capacity - data@.len(),
        {
            data.push(0);
        }
        let r = ByteChannel { data, head: 0, size: 0 };
        proof {
            assert(r@ =~= Seq::<u8>::empty());
        }
        r
    }

    /// Number of buffered bytes.
    pub fn len(&self) -> (r: usize)
        ensures
            r == self@.len(),
    {
        self.size
    }

    /// Exposes the capacity to callers.
    pub fn cap(&self) -> (r: usize)
        requires
            self.wf(),
        ensures
            r == self.capacity(),
    {
        self.data.len()
    }

    /// Producer side.  Never blocks: appends the byte when there is room,
    /// otherwise drops it and reports `false`, leaving the buffered bytes
    /// untouched.
    pub fn try_send(&mut self, b: u8) -> (r: bool)
        requires
            old(self).wf(),
        ensures
            final(self).wf(),
            final(self).capacity() == old(self).capacity(),
            old(self)@.len() < old(self).capacity() ==> r && final(self)@ == old(self)@.push(b),
            old(self)@.len() == old(self).capacity() ==> !r && final(self)@ == old(self)@,
    {
        let cap = self.data.len();
        if self.size == cap {
            false
        } else {
            let room = cap - self.head;
            let idx = if self.size >= room {
                self.size - room
            } else {
                self.head + self.size
            };
            self.data.set(idx, b);
            self.size = self.size + 1;
            proof {
                assert(final(self)@ =~= old(self)@.push(b));
            }
            true
        }
    }

    /// Consumer side.  Never blocks: removes and returns the oldest byte,
    /// or reports `None` when the buffer is empty.
    pub fn try_recv(&mut self) -> (r: Option<u8>)
        requires
            old(self).wf(),
        ensures
            final(self).wf(),
            final(self).capacity() == old(self).capacity(),
            old(self)@.len() == 0 ==> r is None && final(self)@ == old(self)@,
            old(self)@.len() > 0 ==> r == Some(old(self)@[0]) && final(self)@ == old(self)@.subrange(
                1,
                old(self)@.len() as int,
            ),
    {
        if self.size == 0 {
            None
        } else {
            let cap = self.data.len();
            let b = self.data[self.head];
            self.head = if cap - self.head == 1 {
                0
            } else {
                self.head + 1
            };
            self.size = self.size - 1;
            proof {
                assert(final(self)@ =~= old(self)@.subrange(1, old(self)@.len() as int));
            }
            Some(b)
        }
    }
    /// Removes and returns everything buffered, oldest first, leaving the
    /// channel empty.
    pub fn drain(&mut self) -> (r: Vec<u8>)
        requires
            old(self).wf(),
        ensures
            final(self).wf(),
            final(self).capacity() == old(self).capacity(),
            r@ == old(self)@,
            final(self)@ == Seq::<u8>::empty(),
    {
        let mut out: Vec<u8> = Vec::new();
        proof {
            assert(out@ + self@ =~= old(self)@);
        }
        let mut more = self.size > 0;
        while more
            invariant
                self.wf(),
                self.capacity() == old(self).capacity(),
                out@ + self@ == old(self)@,
                more == (self@.len() > 0),
            decreases self@.len(),
        {
            match self.try_recv() {
                Some(b) => {
                    out.push(b);
                    proof {
                        assert(out@ + self@ =~= old(self)@);
                    }
                },
                None => {},
            }
            more = self.size > 0;
        }
        proof {
            assert(out@ =~= old(self)@);
            assert(self@ =~= Seq::<u8>::empty());
        }
        out
    }
}

/// One arrival under the drop-newest policy: appended while there is room,
/// dropped once the channel is full.
pub open spec fn send_one(q: Seq<u8>, b: u8, cap: nat) -> Seq<u8> {
    if q.len() < cap {
        q.push(b)
    } else {
        q
    }
}

/// A burst of arrivals, oldest first, each under the drop-newest policy.
pub open spec fn send_burst(q: Seq<u8>, s: Seq<u8>, cap: nat) -> Seq<u8>
    decreases s.len(),
{
    if s.len() == 0 {
        q
    } else {
        send_burst(send_one(q, s[0], cap), s.skip(1), cap)
    }
}

/// FIFO law: as long as a burst fits in the remaining room, every byte is
/// kept, in exactly its arrival order, behind what was already buffered.
pub proof fn lemma_channel_fifo(q: Seq<u8>, s: Seq<u8>, cap: nat)
    requires
        q.len() + s.len() <= cap,
    ensures
        send_burst(q, s, cap) == q + s,
    decreases s.len(),
{
    if s.len() == 0 {
        assert(q + s =~= q);
    } else {
        lemma_channel_fifo(q.push(s[0]), s.skip(1), cap);
        assert(q.push(s[0]) + s.skip(1) =~= q + s);
    }
}

/// Overflow law: a burst beyond the remaining room keeps every byte that
/// was already buffered and the prefix of the burst that fits; only the
/// overflowing tail is dropped.
pub proof fn lemma_channel_overflow(q: Seq<u8>, s: Seq<u8>, cap: nat)
    requires
        q.len() <= cap,
    ensures
        send_burst(q, s, cap) == q + s.take(
            if s.len() <= cap - q.len() {
                s.len() as int
            } else {
                cap - q.len()
            },
        ),
    decreases s.len(),
{
    let fit: int = if s.len() <= cap - q.len() {
        s.len() as int
    } else {
        cap - q.len()
    };
    if s.len() == 0 {
        assert(q + s.take(0) =~= q);
    } else if q.len() < cap {
        lemma_channel_overflow(q.push(s[0]), s.skip(1), cap);
        let fit1: int = if s.skip(1).len() <= cap - q.push(s[0]).len() {
            s.skip(1).len() as int
        } else {
            cap - q.push(s[0]).len()
        };
        assert(q.push(s[0]) + s.skip(1).take(fit1) =~= q + s.take(fit));
    } else {
        lemma_channel_overflow(q, s.skip(1), cap);
        assert(send_one(q, s[0], cap) == q);
        assert(q + s.skip(1).take(0) =~= q + s.take(0));
    }
}

} // verus!
