//! The probe: what runs each time the fault handler is entered.
//!
//! It reads the faulting address and the flags word from the call's
//! arguments, takes the process id from the combined process/thread
//! identifier, and tries once to publish the record. A record that finds no
//! room is dropped: the probe never waits and never retries.

use vstd::prelude::*;
use crate::event::{pid_of, spec_encode, spec_pid_of, PageFaultEvent, RECORD_SIZE};
use crate::transport::{Transport, TransportView};

verus! {

/// Status returned for a call that was processed.
pub const STATUS_OK: u32 = 0;

/// Status returned when a required argument could not be read.
pub const STATUS_FAILED: u32 = 1;

/// Position of the faulting address among the handler's arguments.
pub const ADDR_ARG: usize = 1;

/// Position of the flags word among the handler's arguments.
pub const FLAGS_ARG: usize = 2;

/// The calling context of one fault-handler invocation: the combined
/// process/thread identifier of the current task and the argument registers
/// that could be read, in positional order.
pub struct ProbeContext {
    /// Process id in the upper 32 bits, thread id in the lower.
    pub pid_tgid: u64,
    /// Argument registers, first argument first.
    pub args: Vec<u64>,
}

/// The low 32 bits of a register.
pub open spec fn spec_low32(reg: u64) -> u32 {
    (reg as int % 0x1_0000_0000) as u32
}

/// The record that a call with context `ctx` gives rise to, if both required
/// arguments can be read.
pub open spec fn spec_capture(ctx: ProbeContext) -> Option<PageFaultEvent> {
    if ctx.args@.len() > FLAGS_ARG {
        Some(
            PageFaultEvent {
                pid: spec_pid_of(ctx.pid_tgid),
                addr: ctx.args@[ADDR_ARG as int],
                flags: spec_low32(ctx.args@[FLAGS_ARG as int]),
            },
        )
    } else {
        None
    }
}

/// A transport after one attempt to publish `e`: the record's 24 bytes stand
/// behind all committed before, or, where they found no room, nothing changed.
pub open spec fn spec_publish(v: TransportView, e: PageFaultEvent) -> TransportView {
    if v.admits(RECORD_SIZE as nat) {
        v.with_committed(spec_encode(e))
    } else {
        v
    }
}

impl ProbeContext {
    /// A context from its parts.
    pub fn new(pid_tgid: u64, args: Vec<u64>) -> (ctx: ProbeContext)
        ensures
            ctx.pid_tgid == pid_tgid,
            ctx.args@ == args@,
    {
        ProbeContext { pid_tgid, args }
    }

    /// The `n`-th argument of the call, counted from zero, if it can be read.
    pub fn arg(&self, n: usize) -> (r: Option<u64>)
        ensures
            r.is_some() <==> n < self.args@.len(),
            r.is_some() ==> r.unwrap() == self.args@[n as int],
    {
        if n < self.args.len() {
            Some(self.args[n])
        } else {
            None
        }
    }
}

/// Builds the record for one call, or fails with [`STATUS_FAILED`] when the
/// address or the flags word cannot be read.
pub fn capture(ctx: &ProbeContext) -> (r: Result<PageFaultEvent, u32>)
    ensures
        r.is_ok() <==> spec_capture(*ctx).is_some(),
        r.is_ok() ==> r.unwrap() == spec_capture(*ctx).unwrap(),
        r.is_err() ==> r == Err::<PageFaultEvent, u32>(STATUS_FAILED),
{
    let pid: u32 = pid_of(ctx.pid_tgid);
    let addr: u64 = match ctx.arg(ADDR_ARG) {
        Some(a) => a,
        None => {
            return Err(STATUS_FAILED);
        },
    };
    let flags: u32 = match ctx.arg(FLAGS_ARG) {
        Some(f) => (f % 0x1_0000_0000u64) as u32,
        None => {
            return Err(STATUS_FAILED);
        },
    };
    Ok(PageFaultEvent { pid, addr, flags })
}

/// Tries once to put `e` into the transport: reserve one record, write it,
/// commit it. Without room for a whole record the event is dropped and the
/// transport stays as it was.
pub fn publish(events: &mut Transport, e: &PageFaultEvent) -> (published: bool)
    requires
        old(events).wf(),
    ensures
        final(events).wf(),
        final(events).spec_flags() == old(events).spec_flags(),
        published <==> old(events)@.admits(RECORD_SIZE as nat),
        final(events)@ == spec_publish(old(events)@, *e),
{
    match events.reserve(RECORD_SIZE) {
        None => false,
        Some(mut region) => {
            let bytes: Vec<u8> = e.encode();
            let written: bool = region.write(bytes.as_slice());
            assert(written);
            let accepted: bool = events.commit(region, 0);
            assert(accepted);
            true
        },
    }
}

/// Handles one call of the fault handler: captures the record and tries to
/// publish it. Fails, with the transport untouched, only when an argument
/// cannot be read; a record dropped for want of room is no failure.
pub fn try_memory_analyzer(ctx: &ProbeContext, events: &mut Transport) -> (r: Result<(), u32>)
    requires
        old(events).wf(),
    ensures
        final(events).wf(),
        final(events).spec_flags() == old(events).spec_flags(),
        r.is_ok() <==> spec_capture(*ctx).is_some(),
        r.is_ok() ==> final(events)@ == spec_publish(old(events)@, spec_capture(*ctx).unwrap()),
        r.is_err() ==> r == Err::<(), u32>(STATUS_FAILED) && final(events)@ == old(events)@,
{
    match capture(ctx) {
        Ok(event) => {
            let _ = publish(events, &event);
            Ok(())
        },
        Err(status) => Err(status),
    }
}

/// Entry point of the probe. Returns [`STATUS_OK`] when the call was
/// processed (published or dropped for want of room) and [`STATUS_FAILED`]
/// when a required argument could not be read.
pub fn memory_analyzer(ctx: &ProbeContext, events: &mut Transport) -> (status: u32)
    requires
        old(events).wf(),
    ensures
        final(events).wf(),
        final(events).spec_flags() == old(events).spec_flags(),
        status == STATUS_OK <==> spec_capture(*ctx).is_some(),
        status == STATUS_OK || status == STATUS_FAILED,
        status == STATUS_OK ==> final(events)@ == spec_publish(
            old(events)@,
            spec_capture(*ctx).unwrap(),
        ),
        status == STATUS_FAILED ==> final(events)@ == old(events)@,
{
    match try_memory_analyzer(ctx, events) {
        Ok(_) => STATUS_OK,
        Err(_) => STATUS_FAILED,
    }
}

/// The probe's answer to a panic. Code that runs inside the kernel has nobody
/// to report to and nothing to unwind into, so its handler stays where it is;
/// on each turn of its loop it asks here whether to leave, and the answer is
/// always no. The transport is never touched on that path.
pub fn panic() -> (leave: bool)
    ensures
        !leave,
{
    false
}

} // verus!
