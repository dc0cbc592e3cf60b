//! What holds of the pipeline as a whole: records published through the
//! probe come out of the collector whole, in commit order, each at most
//! once, and under pressure the newest are the ones that are lost.

use vstd::prelude::*;
use crate::collector::{all_whole, decode_all};
use crate::event::{lemma_decode_encode, lemma_encode_len, spec_encode, PageFaultEvent, RECORD_SIZE};
use crate::probe::spec_publish;
use crate::transport::{lemma_total_len_push, total_len, TransportView};

verus! {

/// The regions that stand for `events`, in the same order.
pub open spec fn encode_all(events: Seq<PageFaultEvent>) -> Seq<Seq<u8>> {
    Seq::new(events.len(), |i: int| spec_encode(events[i]))
}

/// A transport after one publish attempt for each of `events`, in order, with
/// no poll in between.
pub open spec fn spec_publish_all(v: TransportView, events: Seq<PageFaultEvent>) -> TransportView
    decreases events.len(),
{
    if events.len() == 0 {
        v
    } else {
        spec_publish(spec_publish_all(v, events.drop_last()), events.last())
    }
}

/// How many whole records still fit into the transport.
pub open spec fn room(v: TransportView) -> nat {
    if v.free() >= 0 {
        (v.free() / RECORD_SIZE as int) as nat
    } else {
        0
    }
}

/// How many of `n` records published back to back find room.
pub open spec fn taken(v: TransportView, n: nat) -> nat {
    if n <= room(v) {
        n
    } else {
        room(v)
    }
}

/// Decoding the encodings of a sequence of records gives the sequence back.
pub proof fn lemma_decode_all_encode_all(events: Seq<PageFaultEvent>)
    ensures
        decode_all(encode_all(events)) == events,
        all_whole(encode_all(events)),
{
    assert forall|i: int| 0 <= i < events.len() implies decode_all(encode_all(events))[i]
        == events[i] && (#[trigger] encode_all(events)[i]).len() >= RECORD_SIZE by {
        lemma_decode_encode(events[i], Seq::empty());
        lemma_encode_len(events[i]);
    }
    assert(decode_all(encode_all(events)) =~= events);
}

/// Publishing a batch without polling appends the encodings of its first
/// `taken` records, in order, and drops the rest; capacity and reservations
/// stay as they were.
pub proof fn lemma_publish_all(v: TransportView, events: Seq<PageFaultEvent>)
    requires
        v.held() <= v.capacity,
    ensures
        spec_publish_all(v, events).capacity == v.capacity,
        spec_publish_all(v, events).reserved == v.reserved,
        spec_publish_all(v, events).committed == v.committed + encode_all(
            events.subrange(0, taken(v, events.len()) as int),
        ),
        total_len(spec_publish_all(v, events).committed) == total_len(v.committed) + RECORD_SIZE
            * taken(v, events.len()),
    decreases events.len(),
{
    let k = taken(v, events.len());
    if events.len() == 0 {
        assert(v.committed + encode_all(events.subrange(0, 0)) =~= v.committed);
    } else {
        let front = events.drop_last();
        let mid = spec_publish_all(v, front);
        let kf = taken(v, front.len());
        lemma_publish_all(v, front);
        lemma_encode_len(events.last());
        if mid.admits(RECORD_SIZE as nat) {
            assert(kf == front.len());
            assert(k == events.len());
            lemma_total_len_push(mid.committed, spec_encode(events.last()));
            assert(front.subrange(0, kf as int) =~= front);
            assert(events.subrange(0, k as int) =~= events);
            assert(mid.committed.push(spec_encode(events.last())) =~= v.committed + encode_all(
                events,
            ));
        } else {
            assert(kf == room(v));
            assert(k == kf);
            assert(events.subrange(0, k as int) =~= front.subrange(0, kf as int));
        }
    }
}

/// Order: the regions that a batch of publishes leaves behind those already
/// committed decode to the batch's records in exactly the order in which they
/// were committed. Where the whole batch found room, that is the batch itself.
pub proof fn lemma_commit_order(v: TransportView, events: Seq<PageFaultEvent>)
    requires
        v.held() <= v.capacity,
    ensures
        decode_all(
            spec_publish_all(v, events).committed.subrange(
                v.committed.len() as int,
                spec_publish_all(v, events).committed.len() as int,
            ),
        ) == events.subrange(0, taken(v, events.len()) as int),
        events.len() <= room(v) ==> decode_all(
            spec_publish_all(v, events).committed.subrange(
                v.committed.len() as int,
                spec_publish_all(v, events).committed.len() as int,
            ),
        ) == events,
{
    let w = spec_publish_all(v, events);
    let kept = events.subrange(0, taken(v, events.len()) as int);
    lemma_publish_all(v, events);
    lemma_decode_all_encode_all(kept);
    assert(w.committed.subrange(v.committed.len() as int, w.committed.len() as int)
        =~= encode_all(kept));
    if events.len() <= room(v) {
        assert(kept =~= events);
    }
}

/// Whole records only: every region that a publish commits has exactly the
/// size of one record and decodes to the one record that was published into
/// it.
pub proof fn lemma_whole_records(v: TransportView, events: Seq<PageFaultEvent>, i: int)
    requires
        v.held() <= v.capacity,
        0 <= i < taken(v, events.len()),
    ensures
        v.committed.len() + i < spec_publish_all(v, events).committed.len(),
        spec_publish_all(v, events).committed[v.committed.len() + i].len() == RECORD_SIZE,
        decode_all(spec_publish_all(v, events).committed)[v.committed.len() + i] == events[i],
{
    let kept = events.subrange(0, taken(v, events.len()) as int);
    lemma_publish_all(v, events);
    lemma_encode_len(events[i]);
    lemma_decode_encode(events[i], Seq::empty());
    assert(encode_all(kept)[i] == spec_encode(events[i]));
}

/// Bounded loss: an empty transport whose capacity holds `k` records, given
/// `k + m` records before any poll, ends up holding exactly the first `k` of
/// them, once each and in order; the `m` newest are absent.
pub proof fn lemma_bounded_loss(v: TransportView, events: Seq<PageFaultEvent>, k: nat, m: nat)
    requires
        v.committed.len() == 0,
        v.reserved == 0,
        k == v.capacity / RECORD_SIZE as nat,
        events.len() == k + m,
    ensures
        spec_publish_all(v, events).committed.len() == k,
        all_whole(spec_publish_all(v, events).committed),
        decode_all(spec_publish_all(v, events).committed) == events.subrange(0, k as int),
{
    let kept = events.subrange(0, k as int);
    assert(total_len(v.committed) == 0);
    assert(room(v) == k);
    assert(taken(v, events.len()) == k);
    lemma_publish_all(v, events);
    lemma_decode_all_encode_all(kept);
    assert(spec_publish_all(v, events).committed =~= encode_all(kept));
}

/// A full transport refuses every further record and keeps what it holds:
/// nothing unread is overwritten.
pub proof fn lemma_full_rejects(v: TransportView, e: PageFaultEvent)
    requires
        v.held() <= v.capacity,
        room(v) == 0,
    ensures
        spec_publish(v, e) == v,
{
}

} // verus!
