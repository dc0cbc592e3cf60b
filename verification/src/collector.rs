//! The collector: drains the transport and hands decoded records on.
//!
//! The loop itself sleeps and writes output, so it lives with the caller.
//! What it decides lives here: [`next_action`] says what to do after each
//! poll, and [`drain`] empties a transport into a vector of records.

use vstd::prelude::*;
use crate::event::{spec_decode, PageFaultEvent, RECORD_SIZE};
use crate::transport::{Transport, TransportView};

verus! {

/// Milliseconds the collector pauses when a poll found nothing.
pub const POLL_INTERVAL_MS: u64 = 10;

/// What the collector does next.
#[derive(Clone, Copy, Debug, PartialEq, Eq, Structural)]
pub enum Action {
    /// Hand this record to the sink, then poll again.
    Emit(PageFaultEvent),
    /// Nothing is waiting: pause for this many milliseconds, then poll again.
    Sleep(u64),
    /// Cancellation was asked for and nothing is waiting: leave the loop.
    Stop,
    /// The transport gave a region too short for a record: leave the loop
    /// with an error.
    Fail(CollectError),
}

/// Why the collector gave up.
#[derive(Clone, Copy, Debug, PartialEq, Eq, Structural)]
pub enum CollectError {
    /// A polled region had only this many bytes, fewer than one record.
    ShortRegion(usize),
}

/// The records held in the regions of `q`, in the same order.
pub open spec fn decode_all(q: Seq<Seq<u8>>) -> Seq<PageFaultEvent> {
    Seq::new(q.len(), |i: int| spec_decode(q[i]))
}

/// Whether every region of `q` is long enough to hold a record.
pub open spec fn all_whole(q: Seq<Seq<u8>>) -> bool {
    forall|i: int| 0 <= i < q.len() ==> (#[trigger] q[i]).len() >= RECORD_SIZE
}

/// The decision after one poll. A polled region is always dealt with before
/// cancellation is looked at, so no record that was taken from the transport
/// is lost.
pub open spec fn spec_next_action(polled: Option<Seq<u8>>, cancelled: bool) -> Action {
    match polled {
        Some(bytes) => if bytes.len() >= RECORD_SIZE {
            Action::Emit(spec_decode(bytes))
        } else {
            Action::Fail(CollectError::ShortRegion(bytes.len() as usize))
        },
        None => if cancelled {
            Action::Stop
        } else {
            Action::Sleep(POLL_INTERVAL_MS)
        },
    }
}

/// Decides what the collector does after a poll that returned `polled`, with
/// `cancelled` telling whether it was asked to stop.
pub fn next_action(polled: Option<&[u8]>, cancelled: bool) -> (a: Action)
    ensures
        a == spec_next_action(
            match polled {
                Some(bytes) => Some(bytes@),
                None => None,
            },
            cancelled,
        ),
{
    match polled {
        Some(bytes) => match PageFaultEvent::decode(bytes) {
            Some(event) => Action::Emit(event),
            None => Action::Fail(CollectError::ShortRegion(bytes.len())),
        },
        None => if cancelled {
            Action::Stop
        } else {
            Action::Sleep(POLL_INTERVAL_MS)
        },
    }
}

/// One pass of the collector over a transport: polls until nothing is
/// waiting, follows [`next_action`] after each poll, and appends the record
/// of each region to `sink`, oldest first. Stops with an error at the first
/// region that is too short for a record; that region is consumed, the
/// records before it are in `sink`, and the regions behind it stay in the
/// transport. On success returns how many records were appended.
pub fn drain(events: &mut Transport, sink: &mut Vec<PageFaultEvent>) -> (r: Result<
    usize,
    CollectError,
>)
    requires
        old(events).wf(),
    ensures
        final(events).wf(),
        final(events).spec_flags() == old(events).spec_flags(),
        final(events)@.capacity == old(events)@.capacity,
        final(events)@.reserved == old(events)@.reserved,
        old(sink)@.len() <= final(sink)@.len() <= old(sink)@.len() + old(events)@.committed.len(),
        all_whole(old(events)@.committed.subrange(0, final(sink)@.len() - old(sink)@.len())),
        final(sink)@ == old(sink)@ + decode_all(
            old(events)@.committed.subrange(0, final(sink)@.len() - old(sink)@.len()),
        ),
        r.is_ok() <==> all_whole(old(events)@.committed),
        match r {
            Ok(n) => {
                &&& n == old(events)@.committed.len()
                &&& n == final(sink)@.len() - old(sink)@.len()
                &&& final(events)@.committed == Seq::<Seq<u8>>::empty()
            },
            Err(CollectError::ShortRegion(len)) => {
                let n = final(sink)@.len() - old(sink)@.len();
                &&& n < old(events)@.committed.len()
                &&& len == old(events)@.committed[n].len()
                &&& len < RECORD_SIZE
                &&& final(events)@.committed == old(events)@.committed.subrange(
                    n + 1,
                    old(events)@.committed.len() as int,
                )
            },
        },
{
    let ghost start = events@;
    let ghost sink0 = sink@;
    let total: usize = events.len();
    let mut count: usize = 0;
    assert(start.committed.subrange(0, start.committed.len() as int) =~= start.committed);
    assert(sink@ =~= sink0 + decode_all(start.committed.subrange(0, 0)));
    loop
        invariant
            events.wf(),
            events.spec_flags() == old(events).spec_flags(),
            start == old(events)@,
            sink0 == old(sink)@,
            total == start.committed.len(),
            count <= total,
            events@ == (TransportView {
                committed: start.committed.subrange(count as int, total as int),
                ..start
            }),
            sink@ == sink0 + decode_all(start.committed.subrange(0, count as int)),
            all_whole(start.committed.subrange(0, count as int)),
        decreases total - count,
    {
        let polled: Option<Vec<u8>> = events.poll();
        let action: Action = match &polled {
            Some(region) => next_action(Some(region.as_slice()), false),
            None => next_action(None, false),
        };
        match action {
            Action::Emit(event) => {
                assert(polled.unwrap()@ == start.committed[count as int]);
                assert(events@.committed =~= start.committed.subrange(
                    count as int + 1,
                    total as int,
                ));
                sink.push(event);
                assert(sink@ =~= sink0 + decode_all(
                    start.committed.subrange(0, count as int + 1),
                ));
                count = count + 1;
            },
            Action::Fail(error) => {
                assert(polled.unwrap()@ == start.committed[count as int]);
                assert(events@.committed =~= start.committed.subrange(
                    count as int + 1,
                    total as int,
                ));
                assert(!all_whole(start.committed));
                return Err(error);
            },
            Action::Sleep(_) | Action::Stop => {
                assert(polled.is_none());
                assert(count == total);
                assert(start.committed.subrange(0, total as int) =~= start.committed);
                assert(events@.committed =~= Seq::<Seq<u8>>::empty());
                return Ok(count);
            },
        }
    }
}

} // verus!
