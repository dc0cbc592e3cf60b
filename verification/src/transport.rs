//! The bounded transport between the probe and the collector.
//!
//! A transport has a fixed byte capacity. A producer reserves a region,
//! writes into it and commits it; only then can the consumer see it, whole.
//! The consumer polls committed regions oldest first. When the bytes held
//! (committed and not yet polled, or reserved and not yet committed) leave no
//! room for a request, the reservation fails: nothing waits, nothing already
//! held is overwritten.
//!
//! Committed bytes live in one ring of `capacity` bytes. A commit copies the
//! region behind the newest committed byte, a poll copies the oldest region
//! out and moves the ring's head past it; both go round at the ring's end.

use vstd::prelude::*;
use std::collections::VecDeque;
use vstd::slice::*;

verus! {

/// Sum of the lengths of the regions in `q`.
pub open spec fn total_len(q: Seq<Seq<u8>>) -> nat
    decreases q.len(),
{
    if q.len() == 0 {
        0
    } else {
        total_len(q.drop_last()) + q.last().len()
    }
}

/// Appending a region adds its length to the total.
pub proof fn lemma_total_len_push(q: Seq<Seq<u8>>, x: Seq<u8>)
    ensures
        total_len(q.push(x)) == total_len(q) + x.len(),
{
    assert(q.push(x).drop_last() =~= q);
}

/// Taking the oldest region away takes its length from the total.
pub proof fn lemma_total_len_skip_first(q: Seq<Seq<u8>>)
    requires
        q.len() > 0,
    ensures
        total_len(q.subrange(1, q.len() as int)) + q[0].len() == total_len(q),
    decreases q.len(),
{
    let rest = q.subrange(1, q.len() as int);
    if q.len() == 1 {
        assert(q.drop_last().len() == 0);
        assert(total_len(q.drop_last()) == 0);
    } else {
        let front = q.drop_last();
        lemma_total_len_skip_first(front);
        assert(rest.drop_last() =~= front.subrange(1, front.len() as int));
        assert(rest.last() == q.last());
        assert(front[0] == q[0]);
    }
}

/// The bytes of the regions in `q`, one region after the other.
pub open spec fn flat(q: Seq<Seq<u8>>) -> Seq<u8>
    decreases q.len(),
{
    if q.len() == 0 {
        Seq::empty()
    } else {
        flat(q.drop_last()) + q.last()
    }
}

/// The regions laid end to end are as long as their lengths together.
pub proof fn lemma_flat_len(q: Seq<Seq<u8>>)
    ensures
        flat(q).len() == total_len(q),
    decreases q.len(),
{
    if q.len() > 0 {
        lemma_flat_len(q.drop_last());
    }
}

/// The regions laid end to end begin with the oldest region.
pub proof fn lemma_flat_skip_first(q: Seq<Seq<u8>>)
    requires
        q.len() > 0,
    ensures
        flat(q) == q[0] + flat(q.subrange(1, q.len() as int)),
    decreases q.len(),
{
    let rest = q.subrange(1, q.len() as int);
    if q.len() == 1 {
        assert(flat(q.drop_last()) =~= Seq::<u8>::empty());
        assert(flat(rest) =~= Seq::<u8>::empty());
        assert(flat(q) =~= q[0] + flat(rest));
    } else {
        let front = q.drop_last();
        lemma_flat_skip_first(front);
        assert(rest.drop_last() =~= front.subrange(1, front.len() as int));
        assert(rest.last() == q.last());
        assert(front[0] == q[0]);
        assert(flat(q) =~= q[0] + flat(rest));
    }
}

/// Position `pos` of a ring of `cap` bytes, for a `pos` that has gone round at
/// most once.
pub open spec fn wrap(pos: int, cap: int) -> int {
    if pos < cap {
        pos
    } else {
        pos - cap
    }
}

fn wrapped(start: usize, offset: usize, cap: usize) -> (pos: usize)
    requires
        start < cap,
        offset <= cap,
    ensures
        pos == wrap(start + offset, cap as int),
        pos < cap,
{
    if offset < cap - start {
        start + offset
    } else {
        offset - (cap - start)
    }
}

/// What a transport is, seen from outside.
pub struct TransportView {
    /// Total bytes the transport can hold.
    pub capacity: nat,
    /// Bytes handed out to producers and not yet committed.
    pub reserved: nat,
    /// Committed regions that the consumer has not taken yet, oldest first.
    pub committed: Seq<Seq<u8>>,
}

impl TransportView {
    /// Bytes held by committed and by reserved regions together.
    pub open spec fn held(self) -> nat {
        total_len(self.committed) + self.reserved
    }

    /// Bytes that a reservation can still get.
    pub open spec fn free(self) -> int {
        self.capacity - self.held()
    }

    /// Whether a reservation of `size` bytes succeeds in this state.
    pub open spec fn admits(self, size: nat) -> bool {
        size > 0 && self.held() + size <= self.capacity
    }

    /// The state after a region with content `region` was committed.
    pub open spec fn with_committed(self, region: Seq<u8>) -> TransportView {
        TransportView { committed: self.committed.push(region), ..self }
    }
}

/// A writable region handed out by [`Transport::reserve`].
pub struct Reservation {
    data: Vec<u8>,
}

impl View for Reservation {
    type V = Seq<u8>;

    closed spec fn view(&self) -> Seq<u8> {
        self.data@
    }
}

impl Reservation {
    /// Size of the region in bytes.
    pub fn len(&self) -> (n: usize)
        ensures
            n == self@.len(),
    {
        self.data.len()
    }

    /// Fills the region with `bytes`. The region takes them only if they have
    /// exactly its size; otherwise it stays as it was.
    pub fn write(&mut self, bytes: &[u8]) -> (written: bool)
        ensures
            written <==> bytes@.len() == old(self)@.len(),
            written ==> final(self)@ == bytes@,
            !written ==> final(self)@ == old(self)@,
    {
        if bytes.len() != self.data.len() {
            return false;
        }
        self.data = slice_to_vec(bytes);
        true
    }
}

/// A bounded first-in-first-out channel of byte regions, kept in one ring of
/// bytes of fixed size.
pub struct Transport {
    capacity: usize,
    flags: u64,
    /// The ring. Committed bytes start at `head` and run on for `used` bytes,
    /// going round at the end.
    arena: Vec<u8>,
    head: usize,
    used: usize,
    reserved: usize,
    /// Length of each committed region, oldest first.
    lens: VecDeque<usize>,
    committed: Ghost<Seq<Seq<u8>>>,
}

impl View for Transport {
    type V = TransportView;

    closed spec fn view(&self) -> TransportView {
        TransportView {
            capacity: self.capacity as nat,
            reserved: self.reserved as nat,
            committed: self.committed@,
        }
    }
}

impl Transport {
    /// The transport never holds more than its capacity, and the ring holds
    /// the bytes of the committed regions, oldest first, with their lengths
    /// beside it.
    pub closed spec fn wf(&self) -> bool {
        &&& self.arena@.len() == self.capacity
        &&& self.head < self.capacity || (self.capacity == 0 && self.head == 0)
        &&& self.used + self.reserved <= self.capacity
        &&& self.used as nat == total_len(self.committed@)
        &&& self.lens@.len() == self.committed@.len()
        &&& forall|r: int|
            0 <= r < self.committed@.len() ==> (#[trigger] self.lens@[r]) == self.committed@[r].len()
        &&& forall|i: int|
            0 <= i < self.used ==> self.arena@[wrap(self.head + i, self.capacity as int)]
                == #[trigger] flat(self.committed@)[i]
    }

    /// From a well-formed transport follows the bound on what it holds.
    pub proof fn lemma_wf_bound(&self)
        requires
            self.wf(),
        ensures
            self@.held() <= self@.capacity,
            self@.capacity <= usize::MAX,
    {
    }

    /// An empty transport that can hold `byte_size` bytes. `flags` are kept
    /// for the caller and change nothing in how the transport behaves.
    pub fn with_byte_size(byte_size: usize, flags: u64) -> (t: Transport)
        ensures
            t.wf(),
            t@.capacity == byte_size,
            t@.reserved == 0,
            t@.committed == Seq::<Seq<u8>>::empty(),
            t.spec_flags() == flags,
    {
        Transport {
            capacity: byte_size,
            flags,
            arena: vec![0u8; byte_size],
            head: 0,
            used: 0,
            reserved: 0,
            lens: VecDeque::new(),
            committed: Ghost(Seq::empty()),
        }
    }

    /// The flags the transport was made with.
    pub closed spec fn spec_flags(&self) -> u64 {
        self.flags
    }

    /// The flags the transport was made with.
    pub fn flags(&self) -> (f: u64)
        ensures
            f == self.spec_flags(),
    {
        self.flags
    }

    /// Total bytes the transport can hold.
    pub fn capacity(&self) -> (c: usize)
        ensures
            c == self@.capacity,
    {
        self.capacity
    }

    /// Number of committed regions waiting for the consumer.
    pub fn len(&self) -> (n: usize)
        requires
            self.wf(),
        ensures
            n == self@.committed.len(),
    {
        self.lens.len()
    }

    /// Bytes that a reservation can still get.
    pub fn free_bytes(&self) -> (n: usize)
        requires
            self.wf(),
        ensures
            n == self@.free(),
    {
        self.capacity - self.used - self.reserved
    }

    /// Asks for a writable region of `size` bytes. The request is granted
    /// exactly when `size` is not zero and fits into the free space; the
    /// region then counts as held until it is committed. A refused request
    /// leaves the transport as it was.
    pub fn reserve(&mut self, size: usize) -> (r: Option<Reservation>)
        requires
            old(self).wf(),
        ensures
            final(self).wf(),
            final(self).spec_flags() == old(self).spec_flags(),
            r.is_some() <==> old(self)@.admits(size as nat),
            r.is_some() ==> r.unwrap()@ == Seq::new(size as nat, |i: int| 0u8)
                && final(self)@ == (TransportView {
                reserved: old(self)@.reserved + size as nat,
                ..old(self)@
            }),
            r.is_none() ==> final(self)@ == old(self)@,
    {
        if size == 0 || size > self.capacity - self.used - self.reserved {
            return None;
        }
        let data: Vec<u8> = vec![0u8; size];
        assert(data@ =~= Seq::new(size as nat, |i: int| 0u8));
        self.reserved = self.reserved + size;
        Some(Reservation { data })
    }

    /// Makes a written region visible to the consumer, whole and behind every
    /// region committed before it. `flags` are notification hints and do not
    /// change what the consumer sees. A region that this transport has no
    /// reservation for (it is larger than all that is reserved) is refused and
    /// the transport stays as it was.
    pub fn commit(&mut self, region: Reservation, flags: u64) -> (accepted: bool)
        requires
            old(self).wf(),
        ensures
            final(self).wf(),
            final(self).spec_flags() == old(self).spec_flags(),
            accepted <==> region@.len() <= old(self)@.reserved,
            accepted ==> final(self)@ == (TransportView {
                reserved: (old(self)@.reserved - region@.len()) as nat,
                committed: old(self)@.committed.push(region@),
                ..old(self)@
            }),
            !accepted ==> final(self)@ == old(self)@,
    {
        let n: usize = region.data.len();
        if n > self.reserved {
            return false;
        }
        let ghost before = self.committed@;
        let head: usize = self.head;
        let used: usize = self.used;
        let cap: usize = self.capacity;
        let mut k: usize = 0;
        while k < n
            invariant
                k <= n,
                n == region.data@.len(),
                used + n <= cap,
                head < cap || (cap == 0 && head == 0),
                self.arena@.len() == cap,
                self.capacity == cap,
                self.head == head,
                self.used == used,
                self.flags == old(self).flags,
                self.reserved == old(self).reserved,
                self.lens == old(self).lens,
                self.committed@ == before,
                before == old(self).committed@,
                forall|i: int|
                    0 <= i < used ==> self.arena@[wrap(head + i, cap as int)]
                        == #[trigger] flat(before)[i],
                forall|j: int|
                    0 <= j < k ==> self.arena@[wrap(head + used + j, cap as int)]
                        == #[trigger] region.data@[j],
            decreases n - k,
        {
            let pos: usize = wrapped(head, used + k, cap);
            self.arena.set(pos, region.data[k]);
            k = k + 1;
        }
        proof {
            lemma_total_len_push(before, region@);
            lemma_flat_len(before);
            assert forall|i: int| 0 <= i < used + n implies self.arena@[wrap(
                head + i,
                cap as int,
            )] == #[trigger] flat(before.push(region@))[i] by {
                assert(before.push(region@).drop_last() =~= before);
                if i < used {
                    assert(flat(before)[i] == flat(before.push(region@))[i]);
                } else {
                    assert(region.data@[i - used] == flat(before.push(region@))[i]);
                }
            }
        }
        self.reserved = self.reserved - n;
        self.used = self.used + n;
        self.lens.push_back(n);
        self.committed = Ghost(before.push(region@));
        true
    }

    /// Takes the oldest committed region, if there is one.
    pub fn poll(&mut self) -> (r: Option<Vec<u8>>)
        requires
            old(self).wf(),
        ensures
            final(self).wf(),
            final(self).spec_flags() == old(self).spec_flags(),
            r.is_some() <==> old(self)@.committed.len() > 0,
            r.is_some() ==> r.unwrap()@ == old(self)@.committed[0]
                && final(self)@ == (TransportView {
                committed: old(self)@.committed.subrange(1, old(self)@.committed.len() as int),
                ..old(self)@
            }),
            r.is_none() ==> final(self)@ == old(self)@,
    {
        let ghost before = self.committed@;
        let ghost rest = before.subrange(1, before.len() as int);
        let n: usize = match self.lens.pop_front() {
            Some(n) => n,
            None => {
                return None;
            },
        };
        proof {
            lemma_total_len_skip_first(before);
            lemma_flat_skip_first(before);
            lemma_flat_len(before);
            lemma_flat_len(rest);
        }
        let head: usize = self.head;
        let cap: usize = self.capacity;
        let mut out: Vec<u8> = Vec::new();
        let mut k: usize = 0;
        while k < n
            invariant
                k <= n,
                n == before[0].len(),
                n <= self.used <= cap,
                head < cap || (cap == 0 && head == 0),
                self.arena@.len() == cap,
                out@.len() == k,
                flat(before) == before[0] + flat(rest),
                forall|i: int|
                    0 <= i < self.used ==> self.arena@[wrap(head + i, cap as int)]
                        == #[trigger] flat(before)[i],
                forall|j: int| 0 <= j < k ==> out@[j] == before[0][j],
            decreases n - k,
        {
            let pos: usize = wrapped(head, k, cap);
            assert(self.arena@[pos as int] == flat(before)[k as int]);
            out.push(self.arena[pos]);
            k = k + 1;
        }
        assert(out@ =~= before[0]);
        if cap > 0 {
            self.head = wrapped(head, n, cap);
        }
        self.used = self.used - n;
        self.committed = Ghost(rest);
        proof {
            assert forall|i: int| 0 <= i < self.used implies self.arena@[wrap(
                self.head + i,
                cap as int,
            )] == #[trigger] flat(rest)[i] by {
                assert(flat(before)[n + i] == flat(rest)[i]);
            }
        }
        Some(out)
    }
}

} // verus!
