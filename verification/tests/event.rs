use memory_analyzer::event::{pid_of, PageFaultEvent, RECORD_SIZE};

#[test]
fn record_size_is_twenty_four_bytes() {
    assert_eq!(RECORD_SIZE, 24);
    assert_eq!(PageFaultEvent::new(0, 0, 0).encode().len(), 24);
}

#[test]
fn encode_lays_fields_out_little_endian_with_zero_padding() {
    let e = PageFaultEvent::new(0x0102_0304, 0x1112_1314_1516_1718, 0xa1a2_a3a4);
    let expected: Vec<u8> = vec![
        0x04, 0x03, 0x02, 0x01, 0, 0, 0, 0, 0x18, 0x17, 0x16, 0x15, 0x14, 0x13, 0x12, 0x11, 0xa4,
        0xa3, 0xa2, 0xa1, 0, 0, 0, 0,
    ];
    assert_eq!(e.encode(), expected);
}

#[test]
fn decode_reads_fields_and_ignores_padding() {
    let bytes: Vec<u8> = vec![
        0x92, 0x10, 0, 0, 0xde, 0xad, 0xbe, 0xef, 0x00, 0xa0, 0x91, 0xe2, 0xfe, 0x7f, 0, 0, 0x04,
        0, 0, 0, 0xff, 0xff, 0xff, 0xff,
    ];
    let e = PageFaultEvent::decode(&bytes).unwrap();
    assert_eq!(e.pid, 4242);
    assert_eq!(e.addr, 0x7ffe_e291_a000);
    assert_eq!(e.flags, 4);
}

#[test]
fn decode_round_trips_encode() {
    let e = PageFaultEvent::new(4242, 0x7ffe_e291_a000, 0x4);
    let back = PageFaultEvent::decode(&e.encode()).unwrap();
    assert_eq!(back, e);
    assert_eq!(back.pid, 4242);
    assert_eq!(back.addr, 0x7ffe_e291_a000);
    assert_eq!(back.flags, 0x4);
}

#[test]
fn decode_round_trips_extreme_values() {
    let e = PageFaultEvent::new(u32::MAX, u64::MAX, u32::MAX);
    assert_eq!(PageFaultEvent::decode(&e.encode()), Some(e));
    let z = PageFaultEvent::new(0, 0, 0);
    assert_eq!(PageFaultEvent::decode(&z.encode()), Some(z));
}

#[test]
fn decode_refuses_short_regions() {
    let e = PageFaultEvent::new(1, 2, 3);
    let bytes = e.encode();
    assert_eq!(PageFaultEvent::decode(&bytes[..23]), None);
    assert_eq!(PageFaultEvent::decode(&[]), None);
    assert_eq!(PageFaultEvent::decode(&bytes[..24]), Some(e));
}

#[test]
fn decode_reads_the_first_record_of_a_longer_region() {
    let e = PageFaultEvent::new(9, 8, 7);
    let mut bytes = e.encode();
    bytes.extend_from_slice(&[0xaa; 8]);
    assert_eq!(PageFaultEvent::decode(&bytes), Some(e));
}

#[test]
fn decode_does_not_depend_on_alignment() {
    let e = PageFaultEvent::new(77, 0xdead_beef_0000_1234, 0x15);
    let mut bytes: Vec<u8> = vec![0x55];
    bytes.extend_from_slice(&e.encode());
    assert_eq!(PageFaultEvent::decode(&bytes[1..]), Some(e));
}

#[test]
fn pid_is_the_upper_half_of_the_combined_identifier() {
    assert_eq!(pid_of(0x0000_1092_0000_0007), 4242);
    assert_eq!(pid_of(0xffff_ffff_0000_0000), u32::MAX);
    assert_eq!(pid_of(0x0000_0000_ffff_ffff), 0);
}
