//! The page-fault event record and its fixed 24-byte wire layout.
//!
//! Layout (little-endian fields, C struct alignment):
//!
//! | bytes    | content                 |
//! |----------|-------------------------|
//! | 0 .. 4   | `pid`                   |
//! | 4 .. 8   | padding                 |
//! | 8 .. 16  | `addr`                  |
//! | 16 .. 20 | `flags`                 |
//! | 20 .. 24 | padding                 |
//!
//! The encoder writes zeros into the padding; the decoder ignores it.

use vstd::prelude::*;
use vstd::bytes::*;
use vstd::slice::*;

verus! {

/// Number of bytes one record occupies in the transport.
pub const RECORD_SIZE: usize = 24;

/// One page fault, as sampled when the kernel's fault handler is entered.
#[derive(Clone, Copy, Debug, PartialEq, Eq, Structural)]
pub struct PageFaultEvent {
    /// Process id of the faulting task.
    pub pid: u32,
    /// Virtual address that faulted.
    pub addr: u64,
    /// Fault classification bits, carried through untouched.
    pub flags: u32,
}

/// Four zero bytes: what the encoder puts into each padding gap.
pub open spec fn padding() -> Seq<u8> {
    seq![0u8, 0u8, 0u8, 0u8]
}

/// The 24 bytes that stand for `e` in the transport.
pub open spec fn spec_encode(e: PageFaultEvent) -> Seq<u8> {
    spec_u32_to_le_bytes(e.pid) + padding() + spec_u64_to_le_bytes(e.addr)
        + spec_u32_to_le_bytes(e.flags) + padding()
}

/// The record held in the first 24 bytes of `bytes`.
pub open spec fn spec_decode(bytes: Seq<u8>) -> PageFaultEvent
    recommends
        bytes.len() >= RECORD_SIZE,
{
    PageFaultEvent {
        pid: spec_u32_from_le_bytes(bytes.subrange(0, 4)),
        addr: spec_u64_from_le_bytes(bytes.subrange(8, 16)),
        flags: spec_u32_from_le_bytes(bytes.subrange(16, 20)),
    }
}

/// The process id carried in a combined process/thread identifier: its upper
/// 32 bits.
pub open spec fn spec_pid_of(pid_tgid: u64) -> u32 {
    (pid_tgid >> 32) as u32
}

/// Extracts the process id from a combined process/thread identifier.
pub fn pid_of(pid_tgid: u64) -> (pid: u32)
    ensures
        pid == spec_pid_of(pid_tgid),
        pid as int == pid_tgid as int / 0x1_0000_0000,
{
    assert((pid_tgid >> 32) <= 0xffff_ffff && (pid_tgid >> 32) == pid_tgid / 0x1_0000_0000)
        by (bit_vector);
    (pid_tgid >> 32) as u32
}

/// Every encoding is exactly one record long.
pub proof fn lemma_encode_len(e: PageFaultEvent)
    ensures
        spec_encode(e).len() == RECORD_SIZE,
{
    lemma_auto_spec_u32_to_from_le_bytes();
    lemma_auto_spec_u64_to_from_le_bytes();
}

/// Decoding what was encoded gives back the same record, also when further
/// bytes follow the record.
pub proof fn lemma_decode_encode(e: PageFaultEvent, rest: Seq<u8>)
    ensures
        spec_decode(spec_encode(e) + rest) == e,
        spec_decode(spec_encode(e)) == e,
{
    lemma_auto_spec_u32_to_from_le_bytes();
    lemma_auto_spec_u64_to_from_le_bytes();
    let b = spec_encode(e);
    assert(b.len() == 24);
    assert(b.subrange(0, 4) =~= spec_u32_to_le_bytes(e.pid));
    assert(b.subrange(8, 16) =~= spec_u64_to_le_bytes(e.addr));
    assert(b.subrange(16, 20) =~= spec_u32_to_le_bytes(e.flags));
    let c = b + rest;
    assert(c.subrange(0, 4) =~= b.subrange(0, 4));
    assert(c.subrange(8, 16) =~= b.subrange(8, 16));
    assert(c.subrange(16, 20) =~= b.subrange(16, 20));
}

impl PageFaultEvent {
    /// Builds a record from its three fields.
    pub fn new(pid: u32, addr: u64, flags: u32) -> (e: PageFaultEvent)
        ensures
            e == (PageFaultEvent { pid, addr, flags }),
    {
        PageFaultEvent { pid, addr, flags }
    }

    /// Serialises the record into its 24-byte layout.
    pub fn encode(&self) -> (out: Vec<u8>)
        ensures
            out@ == spec_encode(*self),
            out@.len() == RECORD_SIZE,
    {
        proof {
            lemma_encode_len(*self);
        }
        let mut out: Vec<u8> = u32_to_le_bytes(self.pid);
        let mut gap: Vec<u8> = vec![0u8, 0u8, 0u8, 0u8];
        let mut addr: Vec<u8> = u64_to_le_bytes(self.addr);
        let mut flags: Vec<u8> = u32_to_le_bytes(self.flags);
        let mut tail: Vec<u8> = vec![0u8, 0u8, 0u8, 0u8];
        assert(gap@ =~= padding());
        assert(tail@ =~= padding());
        out.append(&mut gap);
        out.append(&mut addr);
        out.append(&mut flags);
        out.append(&mut tail);
        assert(out@ =~= spec_encode(*self));
        out
    }

    /// Reads a record from the start of `bytes`, wherever the slice happens to
    /// lie in memory. A region shorter than one record holds no record.
    pub fn decode(bytes: &[u8]) -> (r: Option<PageFaultEvent>)
        ensures
            r.is_some() <==> bytes@.len() >= RECORD_SIZE,
            r.is_some() ==> r.unwrap() == spec_decode(bytes@),
    {
        if bytes.len() < RECORD_SIZE {
            return None;
        }
        let pid: u32 = u32_from_le_bytes(slice_subrange(bytes, 0, 4));
        let addr: u64 = u64_from_le_bytes(slice_subrange(bytes, 8, 16));
        let flags: u32 = u32_from_le_bytes(slice_subrange(bytes, 16, 20));
        Some(PageFaultEvent { pid, addr, flags })
    }
}

} // verus!
