use serial_bridge::blink::{u32_be_bytes, BlinkAction, Blinker};

#[test]
fn blink_alternates_and_counts() {
    let mut b = Blinker::new();
    assert_eq!(b.step(), BlinkAction::LedHigh);
    assert_eq!(b.step(), BlinkAction::LedLowAndSend(0));
    assert_eq!(b.step(), BlinkAction::LedHigh);
    assert_eq!(b.step(), BlinkAction::LedLowAndSend(1));
    assert_eq!(b.step(), BlinkAction::LedHigh);
    assert_eq!(b.step(), BlinkAction::LedLowAndSend(2));
}

#[test]
fn blink_toggles_every_step_over_a_window() {
    let mut b = Blinker::new();
    let mut highs = 0u32;
    let mut lows = 0u32;
    for n in 0..1000 {
        match b.step() {
            BlinkAction::LedHigh => {
                assert_eq!(n % 2, 0);
                highs += 1;
            }
            BlinkAction::LedLowAndSend(_) => {
                assert_eq!(n % 2, 1);
                lows += 1;
            }
        }
    }
    assert_eq!(highs, 500);
    assert_eq!(lows, 500);
}

#[test]
fn big_endian_encoding_exact() {
    assert_eq!(u32_be_bytes(0), vec![0, 0, 0, 0]);
    assert_eq!(u32_be_bytes(1), vec![0, 0, 0, 1]);
    assert_eq!(u32_be_bytes(0x01020304), vec![1, 2, 3, 4]);
    assert_eq!(u32_be_bytes(0xFFFFFFFF), vec![0xFF, 0xFF, 0xFF, 0xFF]);
    assert_eq!(u32_be_bytes(7), 7u32.to_be_bytes().to_vec());
}
