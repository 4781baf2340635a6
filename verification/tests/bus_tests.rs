use editor_core::bus::{LinearBus, BUS_CAPACITY, BUS_FIRST_MESSAGE};

#[test]
fn new_bus_is_empty_and_sized() {
    let mut bus = LinearBus::new();
    assert_eq!(bus.len() as usize, BUS_CAPACITY);
    assert_eq!(&bus.as_bytes()[0..4], &[8, 0, 0, 0]);
    assert!(bus.drain().is_empty());
}

#[test]
fn drain_returns_written_messages_in_order() {
    let mut bus = LinearBus::new();
    assert!(bus.write(1, &[1, 2, 3]));
    assert!(bus.write(2, &[]));
    assert!(bus.write(0x0201, &[9; 300]));
    let drained = bus.drain();
    assert_eq!(
        drained,
        vec![(1u16, vec![1u8, 2, 3]), (2u16, vec![]), (0x0201u16, vec![9u8; 300])]
    );
    assert!(bus.drain().is_empty());
}

#[test]
fn write_lays_out_little_endian_frames() {
    let mut bus = LinearBus::new();
    assert!(bus.write(0x0102, &[7, 8]));
    let b = bus.as_bytes();
    assert_eq!(&b[0..4], &[14, 0, 0, 0]);
    assert_eq!(&b[BUS_FIRST_MESSAGE..14], &[0x02, 0x01, 2, 0, 7, 8]);
}

#[test]
fn write_refuses_a_message_that_does_not_fit() {
    let mut bus = LinearBus::new();
    let big = vec![5u8; BUS_CAPACITY - BUS_FIRST_MESSAGE - 4];
    assert!(bus.write(3, &big));
    assert!(!bus.write(4, &[1]));
    let drained = bus.drain();
    assert_eq!(drained.len(), 1);
    assert_eq!(drained[0].0, 3);
    assert_eq!(drained[0].1.len(), big.len());
    assert!(bus.write(4, &[1]));
}

#[test]
fn write_refuses_oversized_payload() {
    let mut bus = LinearBus::new();
    let huge = vec![0u8; BUS_CAPACITY];
    assert!(!bus.write(1, &huge));
    assert!(bus.drain().is_empty());
}

#[test]
fn reset_drops_pending_messages() {
    let mut bus = LinearBus::new();
    assert!(bus.write(1, &[1]));
    bus.reset();
    assert!(bus.drain().is_empty());
}

#[test]
fn two_writes_then_drain_give_both_back() {
    let mut bus = LinearBus::new();
    assert!(bus.write(7, &[1, 2]));
    assert!(bus.write(9, &[3]));
    assert_eq!(bus.drain(), vec![(7u16, vec![1u8, 2]), (9u16, vec![3u8])]);
    assert!(bus.drain().is_empty());
}
