//! The ring channel: a growable FIFO byte buffer shared by exactly one
//! writer handle and one reader handle.
//!
//! `RingBuffer` is the sequential state of the channel and carries the full
//! FIFO contract: bytes come out in write order, nothing is dropped and
//! nothing is invented.  Ghost histories of everything ever written and
//! everything ever read make that a stated invariant rather than folklore.
//!
//! `RingBytes::new` wraps one `RingBuffer` in a verified reader-writer lock
//! whose lock predicate is the buffer's well-formedness, and hands out the
//! two halves.  Each handle method acquires the lock, runs one verified
//! sequential operation and releases; the lock discipline itself — the
//! invariant holds whenever the lock is free — is checked by Verus, not
//! assumed.  Only the sharing of the one lock between the two handles is
//! trusted: two wrappers around `std::sync::Arc`.  The handle contracts
//! state only what holds of every possible state of the shared buffer,
//! since another thread may write or read between two calls.

use vstd::prelude::*;

use vstd::rwlock::{RwLock, RwLockPredicate};

use std::collections::VecDeque;
use std::sync::Arc;

verus! {

/// Sequential state of one ring channel: the unread bytes in arrival order
/// plus the granted capacity, with ghost histories of all traffic so far.
pub struct RingBuffer {
    buf: VecDeque<u8>,
    cap: usize,
    written: Ghost<Seq<u8>>,
    drained: Ghost<Seq<u8>>,
}

impl View for RingBuffer {
    type V = Seq<u8>;

    /// The unread bytes, oldest first.
    closed spec fn view(&self) -> Seq<u8> {
        self.buf@
    }
}

impl RingBuffer {
    /// Every byte ever written, in write order.
    pub closed spec fn spec_written(&self) -> Seq<u8> {
        self.written@
    }

    /// Every byte ever returned by `read`, in read order.
    pub closed spec fn spec_drained(&self) -> Seq<u8> {
        self.drained@
    }

    /// Bytes that may still be written without a further `reserve`.
    pub closed spec fn spec_free(&self) -> int {
        self.cap - self.buf@.len()
    }

    /// The channel never holds more unread bytes than were granted, and the
    /// write history is exactly the read history followed by the unread
    /// bytes: FIFO order, no loss, no corruption.
    pub closed spec fn wf(&self) -> bool {
        &&& self.buf@.len() <= self.cap
        &&& self.written@ == self.drained@ + self.buf@
    }

    /// An empty channel with a pre-allocated capacity hint.
    pub fn new(capacity_hint: usize) -> (r: RingBuffer)
        ensures
            r.wf(),
            r@ == Seq::<u8>::empty(),
            r.spec_free() == capacity_hint,
            r.spec_written() == Seq::<u8>::empty(),
            r.spec_drained() == Seq::<u8>::empty(),
    {
        let r = RingBuffer {
            buf: VecDeque::with_capacity(capacity_hint),
            cap: capacity_hint,
            written: Ghost(Seq::empty()),
            drained: Ghost(Seq::empty()),
        };
        proof {
            assert(r.written@ =~= r.drained@ + r.buf@);
        }
        r
    }

    /// Count of unread bytes.
    pub fn available(&self) -> (r: usize)
        ensures
            r == self@.len(),
    {
        self.buf.len()
    }

    /// Grows the free capacity to at least `size` when that fits in memory
    /// terms, and returns the free capacity actually granted.  Callers must
    /// go by the returned guarantee, not by `size`.
    pub fn reserve(&mut self, size: usize) -> (g: usize)
        requires
            old(self).wf(),
        ensures
            final(self).wf(),
            final(self)@ == old(self)@,
            final(self).spec_written() == old(self).spec_written(),
            final(self).spec_drained() == old(self).spec_drained(),
            g == final(self).spec_free(),
            g >= old(self).spec_free(),
            old(self)@.len() + size <= usize::MAX ==> g >= size,
    {
        let len = self.buf.len();
        if self.cap - len < size {
            if size <= usize::MAX - len {
                self.cap = len + size;
                self.buf.reserve(size);
            } else {
                self.cap = usize::MAX;
            }
        }
        self.cap - self.buf.len()
    }

    /// Appends `bytes` at the tail.  The length must have been validated
    /// against the guarantee returned by `reserve`.
    pub fn write(&mut self, bytes: &[u8])
        requires
            old(self).wf(),
            bytes@.len() <= old(self).spec_free(),
        ensures
            final(self).wf(),
            final(self)@ == old(self)@ + bytes@,
            final(self).spec_written() == old(self).spec_written() + bytes@,
            final(self).spec_drained() == old(self).spec_drained(),
            final(self).spec_free() == old(self).spec_free() - bytes@.len(),
    {
        let n = bytes.len();
        let mut i: usize = 0;
        while i < n
            invariant
                i <= n,
                n == bytes@.len(),
                bytes@.len() <= old(self).spec_free(),
                old(self).wf(),
                self.cap == old(self).cap,
                self.written == old(self).written,
                self.drained == old(self).drained,
                self@ == old(self)@ + bytes@.take(i as int),
            decreases n - i,
        {
            let b = bytes[i];
            self.buf.push_back(b);
            proof {
                assert(old(self)@ + bytes@.take(i as int) + seq![bytes@[i as int]] =~= old(
                    self,
                )@ + bytes@.take(i + 1));
            }
            i += 1;
        }
        proof {
            assert(bytes@.take(n as int) =~= bytes@);
        }
        self.written = Ghost(self.written@ + bytes@);
        proof {
            assert(self.written@ =~= self.drained@ + self.buf@);
        }
    }

    /// Reserves exactly the chunk's length and appends it when the grant
    /// covers it: the reserve-then-write protocol as one total step.  The
    /// grant covers the chunk whenever the grown buffer still fits the
    /// machine, so nothing is ever dropped in practice.
    pub fn write_granted(&mut self, bytes: &[u8])
        requires
            old(self).wf(),
        ensures
            final(self).wf(),
            old(self)@.len() + bytes@.len() <= usize::MAX ==> (final(self)@ == old(self)@ + bytes@
                && final(self).spec_written() == old(self).spec_written() + bytes@),
            old(self)@.len() + bytes@.len() > usize::MAX ==> (final(self)@ == old(self)@
                && final(self).spec_written() == old(self).spec_written()),
            final(self).spec_drained() == old(self).spec_drained(),
    {
        let granted = self.reserve(bytes.len());
        if bytes.len() <= granted {
            self.write(bytes);
        }
    }

    /// Removes and returns the `n` oldest unread bytes, in write order.
    pub fn read(&mut self, n: usize) -> (r: Vec<u8>)
        requires
            old(self).wf(),
            n <= old(self)@.len(),
        ensures
            final(self).wf(),
            r@ == old(self)@.take(n as int),
            final(self)@ == old(self)@.skip(n as int),
            final(self).spec_drained() == old(self).spec_drained() + r@,
            final(self).spec_written() == old(self).spec_written(),
            final(self).spec_free() == old(self).spec_free() + n,
    {
        let mut out: Vec<u8> = Vec::with_capacity(n);
        let mut i: usize = 0;
        while i < n
            invariant
                i <= n,
                n <= old(self)@.len(),
                old(self).wf(),
                self.cap == old(self).cap,
                self.written == old(self).written,
                self.drained == old(self).drained,
                self@ == old(self)@.skip(i as int),
                out@ == old(self)@.take(i as int),
            decreases n - i,
        {
            let b = self.buf.pop_front().unwrap();
            out.push(b);
            proof {
                assert(old(self)@.skip(i as int)[0] == old(self)@[i as int]);
                assert(old(self)@.skip(i as int).subrange(
                    1,
                    old(self)@.skip(i as int).len() as int,
                ) =~= old(self)@.skip(i + 1));
                assert(old(self)@.take(i as int).push(old(self)@[i as int]) =~= old(self)@.take(
                    i + 1,
                ));
            }
            i += 1;
        }
        self.drained = Ghost(self.drained@ + out@);
        proof {
            assert(self.written@ =~= self.drained@ + self.buf@);
        }
        out
    }
}

impl RingBuffer {
    /// Removes at most `amount` of the oldest unread bytes: exactly
    /// `amount` when that many are unread, everything otherwise.
    pub fn read_up_to(&mut self, amount: usize) -> (r: Vec<u8>)
        requires
            old(self).wf(),
        ensures
            final(self).wf(),
            r@.len() == (if amount <= old(self)@.len() {
                amount as int
            } else {
                old(self)@.len() as int
            }),
            r@ == old(self)@.take(r@.len() as int),
            final(self)@ == old(self)@.skip(r@.len() as int),
            final(self).spec_drained() == old(self).spec_drained() + r@,
            final(self).spec_written() == old(self).spec_written(),
    {
        let have = self.available();
        let take = if amount <= have {
            amount
        } else {
            have
        };
        self.read(take)
    }
}

/// FIFO round trip: appending `incoming` to the unread bytes and then
/// removing everything past the old contents yields exactly `incoming`, in
/// order.  Together with the contracts of `write` (contents become
/// `contents + incoming`) and `read` (a read takes a prefix and returns it),
/// this states that for any guarantee `g` returned by `reserve`, writing `g`
/// bytes and then reading them back returns those bytes unchanged.
pub proof fn lemma_ring_round_trip(contents: Seq<u8>, incoming: Seq<u8>)
    ensures
        (contents + incoming).take(contents.len() as int) == contents,
        (contents + incoming).skip(contents.len() as int) == incoming,
{
    assert((contents + incoming).take(contents.len() as int) =~= contents);
    assert((contents + incoming).skip(contents.len() as int) =~= incoming);
}

/// Conservation law of the channel: the read history is always a prefix of
/// the write history, and once the unread bytes are drained the two agree —
/// every byte written is received exactly once and in order.
pub proof fn lemma_ring_conservation(rb: &RingBuffer)
    requires
        rb.wf(),
    ensures
        rb.spec_written() == rb.spec_drained() + rb@,
        rb.spec_drained() == rb.spec_written().take(rb.spec_drained().len() as int),
        rb@.len() == 0 ==> rb.spec_written() == rb.spec_drained(),
{
    assert(rb.drained@ =~= (rb.drained@ + rb@).take(rb.drained@.len() as int));
    if rb@.len() == 0 {
        assert(rb.written@ =~= rb.drained@);
    }
}

/// The lock predicate of the shared channel: only a well-formed buffer may
/// rest in the lock.
pub struct WellFormedRing {}

impl RwLockPredicate<RingBuffer> for WellFormedRing {
    open spec fn inv(self, v: RingBuffer) -> bool {
        v.wf()
    }
}

/// Shared ownership of one lock-guarded `RingBuffer`: a verified
/// reader-writer lock behind a shared pointer.
pub struct RingBytes {
    lock: Arc<RwLock<RingBuffer, WellFormedRing>>,
}

/// The writing half of a channel: exactly one exists per channel.
pub struct RingWriter {
    ring: RingBytes,
}

/// The reading half of a channel: exactly one exists per channel.
pub struct RingReader {
    ring: RingBytes,
}

impl RingBytes {
    /// The shared lock, as a specification value; `std::sync::Arc` is
    /// transparent to the specification, so the field is the lock itself.
    pub closed spec fn spec_lock(&self) -> RwLock<RingBuffer, WellFormedRing> {
        *self.lock
    }

    /// Every shared handle guards its buffer with well-formedness.
    #[verifier::type_invariant]
    spec fn lock_pred_is_wf(&self) -> bool {
        self.spec_lock().pred() == (WellFormedRing {  })
    }

    /// Borrows the shared lock.  Relies on `std::sync::Arc`'s deref: the
    /// borrow is of the very lock the handle shares.
    #[verifier::external_body]
    fn lock_ref(&self) -> (r: &RwLock<RingBuffer, WellFormedRing>)
        ensures
            *r == self.spec_lock(),
    {
        &self.lock
    }

    /// A second handle to the same lock.  Relies on `std::sync::Arc::clone`:
    /// the clone shares the allocation and equals the original as a value.
    #[verifier::external_body]
    fn duplicate_handle(&self) -> (r: RingBytes)
        ensures
            r == *self,
    {
        RingBytes { lock: Arc::clone(&self.lock) }
    }

    /// Creates one channel and returns its two halves: one writer and one
    /// reader sharing the same lock-guarded buffer.
    pub fn new(size: usize) -> (r: (RingWriter, RingReader))
        ensures
            r.0.spec_channel() == r.1.spec_channel(),
    {
        let buffer = RingBuffer::new(size);
        let lock = RwLock::<RingBuffer, WellFormedRing>::new(buffer, Ghost(WellFormedRing {  }));
        let first = RingBytes { lock: Arc::new(lock) };
        let second = first.duplicate_handle();
        (RingWriter { ring: first }, RingReader { ring: second })
    }
}

impl RingWriter {
    /// The shared channel this handle writes to.
    pub closed spec fn spec_channel(&self) -> RingBytes {
        self.ring
    }

    /// Asks the shared buffer to grow its free capacity to at least `size`
    /// and returns the granted free capacity.  The buffer may be read by
    /// the other thread between two calls, so nothing relating separate
    /// calls can be stated.
    pub fn reserve(&self, size: usize) -> (g: usize)
    {
        proof {
            use_type_invariant(&self.ring);
        }
        let lock = self.ring.lock_ref();
        let (mut buffer, handle) = lock.acquire_write();
        let g = buffer.reserve(size);
        handle.release_write(buffer);
        g
    }

    /// Appends `bytes` to the shared buffer, growing it as needed; the
    /// verified `RingBuffer::write_granted` runs under the lock.
    pub fn write(&self, bytes: &[u8])
    {
        proof {
            use_type_invariant(&self.ring);
        }
        let lock = self.ring.lock_ref();
        let (mut buffer, handle) = lock.acquire_write();
        buffer.write_granted(bytes);
        handle.release_write(buffer);
    }
}

impl RingReader {
    /// The shared channel this handle reads from.
    pub closed spec fn spec_channel(&self) -> RingBytes {
        self.ring
    }

    /// Count of unread bytes at the moment the lock was held.  The writer
    /// may add bytes immediately after, so the count is a lower bound for a
    /// subsequent read by this, the only reading handle.
    pub fn available(&self) -> (r: usize)
    {
        proof {
            use_type_invariant(&self.ring);
        }
        let lock = self.ring.lock_ref();
        let read_handle = lock.acquire_read();
        let r = read_handle.borrow().available();
        read_handle.release_read();
        r
    }

    /// Removes and returns the oldest unread bytes: `amount` of them when
    /// that many are available, all of them otherwise; the verified
    /// `RingBuffer::read_up_to` runs under the lock.
    pub fn read(&self, amount: usize) -> (r: Vec<u8>)
        ensures
            r@.len() <= amount,
    {
        proof {
            use_type_invariant(&self.ring);
        }
        let lock = self.ring.lock_ref();
        let (mut buffer, handle) = lock.acquire_write();
        let out = buffer.read_up_to(amount);
        handle.release_write(buffer);
        out
    }
}

} // verus!
