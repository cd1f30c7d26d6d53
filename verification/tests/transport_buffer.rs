use netto::transport::{next_slot_offset, pack_header, unpack_header, TraceBuffer};

#[test]
fn header_packs_cpu_and_length_in_bytes() {
    let w = pack_header(3, 5);
    assert_eq!(w & 0xFFFF_FFFF, 3);
    assert_eq!(w >> 32, 40);
    assert_eq!(unpack_header(w), (5, 3));
    assert_eq!(unpack_header(pack_header(u32::MAX, 127)), (127, u32::MAX));
    assert_eq!(unpack_header(0), (0, 0));
    // Bits 32 to 34 hold the part of the byte length that is no whole frame.
    assert_eq!(unpack_header((7u64 << 32) | 9), (0, 9));
}

#[test]
fn slots_alternate() {
    assert_eq!(next_slot_offset(0, 100_000), 100_000);
    assert_eq!(next_slot_offset(100_000, 100_000), 0);
}

#[test]
fn write_fills_the_active_slot_and_drops_on_overflow() {
    let mut buf = TraceBuffer::new(2);
    assert_eq!(buf.capacity(), 2);
    assert!(buf.write(1, &[10, 20]));
    assert!(buf.write(2, &[30]));
    assert!(!buf.write(3, &[40]));
    assert_eq!(buf.count_at(0), 2);
    assert_eq!(buf.count_at(2), 0);

    let first = buf.record(0);
    assert_eq!(first.len(), 128);
    assert_eq!(unpack_header(first[0]), (2, 1));
    assert_eq!(&first[1..4], &[10, 20, 0]);
    let second = buf.record(1);
    assert_eq!(unpack_header(second[0]), (1, 2));
    assert_eq!(&second[1..3], &[30, 0]);
}

#[test]
fn swap_retires_the_active_slot() {
    let mut buf = TraceBuffer::new(2);
    assert!(buf.write(0, &[1]));
    assert_eq!(buf.swap_and_count(), (0, 1));
    assert_eq!(buf.active_slot_offset(), 2);
    // Writers now fill the other slot; the retired one keeps its records.
    assert!(buf.write(5, &[2]));
    assert_eq!(buf.count_at(0), 1);
    assert_eq!(buf.count_at(2), 1);
    assert_eq!(buf.record(0)[1], 1);
    assert_eq!(buf.record(2)[1], 2);
    buf.reset_count(0);
    assert_eq!(buf.count_at(0), 0);
    assert_eq!(buf.count_at(2), 1);
    assert_eq!(buf.swap_and_count(), (2, 1));
    assert_eq!(buf.active_slot_offset(), 0);
}

#[test]
fn long_stacks_are_cut_to_one_record() {
    let mut buf = TraceBuffer::new(1);
    let frames: Vec<u64> = (1..=200).collect();
    assert!(buf.write(0, &frames));
    let r = buf.record(0);
    assert_eq!(unpack_header(r[0]), (127, 0));
    assert_eq!(r[1], 1);
    assert_eq!(r[127], 127);
}

#[test]
fn rewritten_record_is_zero_terminated() {
    let mut buf = TraceBuffer::new(1);
    assert!(buf.write(0, &[1, 2, 3, 4]));
    buf.swap_and_count();
    buf.reset_count(0);
    buf.swap_and_count();
    assert!(buf.write(0, &[9]));
    assert_eq!(&buf.record(0)[1..5], &[9, 0, 0, 0]);
}
