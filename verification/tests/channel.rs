use serial_bridge::channel::ByteChannel;
use serial_bridge::serial::intake;

#[test]
fn fifo_order_within_capacity() {
    let mut ch = ByteChannel::new(8);
    assert_eq!(ch.cap(), 8);
    for b in [10u8, 20, 30, 40, 50] {
        assert!(ch.try_send(b));
    }
    assert_eq!(ch.len(), 5);
    let mut got: Vec<u8> = Vec::new();
    while let Some(b) = ch.try_recv() {
        got.push(b);
    }
    assert_eq!(got, vec![10, 20, 30, 40, 50]);
    assert_eq!(ch.len(), 0);
}

#[test]
fn overflow_drops_only_newest() {
    let mut ch = ByteChannel::new(4);
    assert!(ch.try_send(1));
    assert!(ch.try_send(2));
    assert!(ch.try_send(3));
    assert!(ch.try_send(4));
    // full: the producer is refused immediately, nothing buffered is lost
    assert!(!ch.try_send(5));
    assert!(!ch.try_send(6));
    let mut got: Vec<u8> = Vec::new();
    while let Some(b) = ch.try_recv() {
        got.push(b);
    }
    assert_eq!(got, vec![1, 2, 3, 4]);
}

#[test]
fn interleaved_send_recv_keeps_order() {
    let mut ch = ByteChannel::new(3);
    assert!(ch.try_send(1));
    assert!(ch.try_send(2));
    assert_eq!(ch.try_recv(), Some(1));
    assert!(ch.try_send(3));
    assert!(ch.try_send(4));
    assert!(!ch.try_send(5));
    assert_eq!(ch.try_recv(), Some(2));
    assert_eq!(ch.try_recv(), Some(3));
    assert_eq!(ch.try_recv(), Some(4));
    assert_eq!(ch.try_recv(), None);
}

#[test]
fn drain_returns_everything_in_order() {
    let mut ch = ByteChannel::new(16);
    for b in 0u8..10 {
        assert!(ch.try_send(b));
    }
    let out = ch.drain();
    assert_eq!(out, (0u8..10).collect::<Vec<u8>>());
    assert_eq!(ch.len(), 0);
}

#[test]
fn intake_accepts_prefix_that_fits() {
    let mut ch = ByteChannel::new(4);
    assert!(ch.try_send(9));
    let n = intake(&mut ch, &[1, 2, 3, 4, 5]);
    assert_eq!(n, 3);
    assert_eq!(ch.drain(), vec![9, 1, 2, 3]);
}

#[test]
fn intake_never_blocks_when_full() {
    let mut ch = ByteChannel::new(2);
    assert_eq!(intake(&mut ch, &[7, 8]), 2);
    assert_eq!(intake(&mut ch, &[9]), 0);
    assert_eq!(ch.drain(), vec![7, 8]);
}
