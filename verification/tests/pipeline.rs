use memory_analyzer::collector::{drain, next_action, Action, CollectError, POLL_INTERVAL_MS};
use memory_analyzer::event::{PageFaultEvent, RECORD_SIZE};
use memory_analyzer::probe::{
    capture, memory_analyzer, publish, try_memory_analyzer, ProbeContext, STATUS_FAILED,
    STATUS_OK,
};
use memory_analyzer::transport::Transport;

fn ctx(pid: u32, addr: u64, flags: u32) -> ProbeContext {
    ProbeContext::new(((pid as u64) << 32) | 0x77, vec![0xffff_8880_0000_1000, addr, flags as u64])
}

#[test]
fn capture_reads_address_flags_and_pid() {
    let c = ProbeContext::new(0x0000_1092_0000_1093, vec![1, 0x7ffe_e291_a000, 0x4]);
    assert_eq!(capture(&c), Ok(PageFaultEvent::new(4242, 0x7ffe_e291_a000, 0x4)));
}

#[test]
fn capture_keeps_the_low_half_of_the_flags_register() {
    let c = ProbeContext::new(0, vec![0, 0, 0xdead_beef_0000_0255]);
    assert_eq!(capture(&c), Ok(PageFaultEvent::new(0, 0, 0x255)));
}

#[test]
fn capture_fails_without_the_address() {
    assert_eq!(capture(&ProbeContext::new(5, vec![])), Err(1));
    assert_eq!(capture(&ProbeContext::new(5, vec![1])), Err(1));
}

#[test]
fn capture_fails_without_the_flags() {
    assert_eq!(capture(&ProbeContext::new(5, vec![1, 2])), Err(STATUS_FAILED));
}

#[test]
fn context_arguments_are_read_by_position() {
    let c = ProbeContext::new(0, vec![10, 20, 30]);
    assert_eq!(c.arg(0), Some(10));
    assert_eq!(c.arg(2), Some(30));
    assert_eq!(c.arg(3), None);
}

#[test]
fn round_trip_through_the_transport() {
    let mut t = Transport::with_byte_size(256 * 1024, 0);
    let e = PageFaultEvent::new(4242, 0x7ffe_e291_a000, 0x4);
    let mut region = t.reserve(RECORD_SIZE).unwrap();
    assert!(region.write(&e.encode()));
    assert!(t.commit(region, 0));
    let polled = t.poll().unwrap();
    let back = PageFaultEvent::decode(&polled).unwrap();
    assert_eq!(back.pid, 4242);
    assert_eq!(back.addr, 0x7ffe_e291_a000);
    assert_eq!(back.flags, 0x4);
}

#[test]
fn third_record_is_lost_when_two_fit() {
    let mut t = Transport::with_byte_size(2 * RECORD_SIZE, 0);
    let a = PageFaultEvent::new(1, 0x1000, 1);
    let b = PageFaultEvent::new(2, 0x2000, 2);
    let c = PageFaultEvent::new(3, 0x3000, 3);
    assert!(publish(&mut t, &a));
    assert!(publish(&mut t, &b));
    assert!(!publish(&mut t, &c));
    assert_eq!(PageFaultEvent::decode(&t.poll().unwrap()), Some(a));
    assert_eq!(PageFaultEvent::decode(&t.poll().unwrap()), Some(b));
    assert_eq!(t.poll(), None);
}

#[test]
fn capacity_just_under_two_records_holds_one() {
    let mut t = Transport::with_byte_size(2 * RECORD_SIZE - 1, 0);
    assert!(publish(&mut t, &PageFaultEvent::new(1, 1, 1)));
    assert!(!publish(&mut t, &PageFaultEvent::new(2, 2, 2)));
    assert_eq!(t.len(), 1);
}

#[test]
fn records_come_out_in_commit_order() {
    let mut t = Transport::with_byte_size(256 * 1024, 0);
    let mut sent: Vec<PageFaultEvent> = Vec::new();
    for i in 0..100u32 {
        let e = PageFaultEvent::new(i, 0x1000 * (i as u64), i % 7);
        assert!(publish(&mut t, &e));
        sent.push(e);
    }
    let mut got: Vec<PageFaultEvent> = Vec::new();
    assert_eq!(drain(&mut t, &mut got), Ok(100));
    assert_eq!(got, sent);
    assert_eq!(t.len(), 0);
}

#[test]
fn pressure_loses_the_newest_and_duplicates_none() {
    let k: usize = 5;
    let m: usize = 3;
    let mut t = Transport::with_byte_size(k * RECORD_SIZE + 7, 0);
    let mut accepted: usize = 0;
    for i in 0..(k + m) {
        if publish(&mut t, &PageFaultEvent::new(i as u32, i as u64, 0)) {
            accepted += 1;
        }
    }
    assert_eq!(accepted, k);
    let mut got: Vec<PageFaultEvent> = Vec::new();
    assert_eq!(drain(&mut t, &mut got), Ok(k));
    let expected: Vec<PageFaultEvent> =
        (0..k).map(|i| PageFaultEvent::new(i as u32, i as u64, 0)).collect();
    assert_eq!(got, expected);
}

#[test]
fn publish_on_a_full_transport_changes_nothing() {
    let mut t = Transport::with_byte_size(RECORD_SIZE, 0);
    let a = PageFaultEvent::new(1, 1, 1);
    assert!(publish(&mut t, &a));
    for i in 0..10u32 {
        assert!(!publish(&mut t, &PageFaultEvent::new(i, 0, 0)));
    }
    assert_eq!(t.len(), 1);
    assert_eq!(t.free_bytes(), 0);
    assert_eq!(t.poll(), Some(a.encode()));
}

#[test]
fn publish_respects_outstanding_reservations() {
    let mut t = Transport::with_byte_size(2 * RECORD_SIZE, 0);
    let held = t.reserve(RECORD_SIZE + 1).unwrap();
    assert!(!publish(&mut t, &PageFaultEvent::new(1, 1, 1)));
    assert!(t.commit(held, 0));
    assert_eq!(t.len(), 1);
}

#[test]
fn probe_returns_zero_when_processed() {
    let mut t = Transport::with_byte_size(RECORD_SIZE, 0);
    assert_eq!(memory_analyzer(&ctx(10, 0xabc, 1), &mut t), 0);
    assert_eq!(t.len(), 1);
    // dropped for want of room: still processed
    assert_eq!(memory_analyzer(&ctx(11, 0xdef, 2), &mut t), STATUS_OK);
    assert_eq!(t.len(), 1);
    assert_eq!(
        PageFaultEvent::decode(&t.poll().unwrap()),
        Some(PageFaultEvent::new(10, 0xabc, 1))
    );
}

#[test]
fn probe_returns_nonzero_and_publishes_nothing_when_an_argument_is_missing() {
    let mut t = Transport::with_byte_size(1024, 0);
    let c = ProbeContext::new(1u64 << 32, vec![0, 0x1000]);
    assert_eq!(memory_analyzer(&c, &mut t), 1);
    assert_eq!(try_memory_analyzer(&c, &mut t), Err(1));
    assert_eq!(t.len(), 0);
    assert_eq!(t.free_bytes(), 1024);
}

#[test]
fn try_probe_is_ok_even_when_the_record_is_dropped() {
    let mut t = Transport::with_byte_size(RECORD_SIZE - 1, 0);
    assert_eq!(try_memory_analyzer(&ctx(1, 2, 3), &mut t), Ok(()));
    assert_eq!(t.len(), 0);
}

#[test]
fn idle_collector_sleeps_until_cancelled() {
    let mut t = Transport::with_byte_size(1024, 0);
    let mut emitted: usize = 0;
    let mut sleeps: usize = 0;
    for round in 0..50usize {
        let polled = t.poll();
        match next_action(polled.as_deref(), round == 49) {
            Action::Emit(_) => emitted += 1,
            Action::Sleep(ms) => {
                assert_eq!(ms, 10);
                sleeps += 1;
            }
            Action::Stop => {
                assert_eq!(round, 49);
                break;
            }
            Action::Fail(e) => panic!("unexpected failure: {:?}", e),
        }
    }
    assert_eq!(emitted, 0);
    assert_eq!(sleeps, 49);
}

#[test]
fn cancellation_while_idle_stops_at_the_next_poll() {
    assert_eq!(POLL_INTERVAL_MS, 10);
    assert_eq!(next_action(None, false), Action::Sleep(10));
    assert_eq!(next_action(None, true), Action::Stop);
}

#[test]
fn polled_record_is_emitted_even_when_cancelled() {
    let e = PageFaultEvent::new(3, 4, 5);
    let bytes = e.encode();
    assert_eq!(next_action(Some(&bytes), true), Action::Emit(e));
    assert_eq!(next_action(Some(&bytes), false), Action::Emit(e));
}

#[test]
fn short_region_is_fatal() {
    let bytes = [0u8; 23];
    assert_eq!(next_action(Some(&bytes), false), Action::Fail(CollectError::ShortRegion(23)));
}

#[test]
fn drain_on_empty_transport_appends_nothing() {
    let mut t = Transport::with_byte_size(1024, 0);
    let mut got: Vec<PageFaultEvent> = vec![PageFaultEvent::new(1, 1, 1)];
    assert_eq!(drain(&mut t, &mut got), Ok(0));
    assert_eq!(got, vec![PageFaultEvent::new(1, 1, 1)]);
}

#[test]
fn drain_stops_at_a_short_region_and_keeps_what_came_before() {
    let mut t = Transport::with_byte_size(1024, 0);
    let a = PageFaultEvent::new(1, 10, 100);
    let b = PageFaultEvent::new(2, 20, 200);
    assert!(publish(&mut t, &a));
    let short = t.reserve(5).unwrap();
    assert!(t.commit(short, 0));
    assert!(publish(&mut t, &b));
    let mut got: Vec<PageFaultEvent> = Vec::new();
    assert_eq!(drain(&mut t, &mut got), Err(CollectError::ShortRegion(5)));
    assert_eq!(got, vec![a]);
    assert_eq!(t.len(), 1);
    assert_eq!(drain(&mut t, &mut got), Ok(1));
    assert_eq!(got, vec![a, b]);
}

#[test]
fn panic_handler_never_leaves() {
    for _ in 0..3 {
        assert!(!memory_analyzer::probe::panic());
    }
}

#[test]
fn records_keep_their_order_across_many_fill_and_drain_rounds() {
    let mut t = Transport::with_byte_size(3 * RECORD_SIZE + 5, 0);
    let mut sent: Vec<PageFaultEvent> = Vec::new();
    let mut got: Vec<PageFaultEvent> = Vec::new();
    let mut n: u32 = 0;
    for round in 0..25usize {
        for _ in 0..(1 + round % 3) {
            let e = PageFaultEvent::new(n, 0x7000_0000_0000 + n as u64, n ^ 0x5a5a);
            n += 1;
            if publish(&mut t, &e) {
                sent.push(e);
            }
        }
        if round % 2 == 1 {
            assert!(drain(&mut t, &mut got).is_ok());
        }
    }
    assert!(drain(&mut t, &mut got).is_ok());
    assert_eq!(got, sent);
    assert!(sent.len() > 10);
}
