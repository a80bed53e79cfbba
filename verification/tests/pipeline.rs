use serial_bridge::channel::ByteChannel;
use serial_bridge::logger::{recv_message_str, Level, LevelFilter, Logger};
use serial_bridge::serial::{consumer_step, intake, FrameDecoder, FrameEncoder};

#[test]
fn end_to_end_receive_path() {
    // encoder -> wire -> interrupt intake -> channel -> consumer -> log line
    let mut enc = FrameEncoder::new(4);
    let mut ch = ByteChannel::new(255);
    let mut dec = FrameDecoder::new(3);
    let mut logger = Logger::new();
    logger.start(LevelFilter::Trace);

    let frame = enc.send(&[0xDE, 0xAD]).unwrap();
    assert_eq!(intake(&mut ch, &frame), frame.len());

    let (payloads, idle) = consumer_step(&mut ch, &mut dec);
    assert!(!idle);
    assert_eq!(payloads, vec![vec![0xDE, 0xAD]]);

    let message = recv_message_str(&payloads[0]);
    let line = logger.log(Level::Info, "serial", &message).unwrap();
    assert_eq!(line, "INFO [serial] recv: [0xDE, 0xAD]\r\n");
}

#[test]
fn consumer_step_resolves_multiple_buffered_frames() {
    let mut enc = FrameEncoder::new(4);
    let mut ch = ByteChannel::new(255);
    let mut dec = FrameDecoder::new(3);

    let mut wire = enc.send(&[1]).unwrap();
    wire.extend(enc.send(&[2, 3]).unwrap());
    assert_eq!(intake(&mut ch, &wire), wire.len());

    let (payloads, idle) = consumer_step(&mut ch, &mut dec);
    assert!(!idle);
    assert_eq!(payloads, vec![vec![1], vec![2, 3]]);
    assert!(dec.is_finished());
}

#[test]
fn partial_frame_completes_across_steps() {
    let mut enc = FrameEncoder::new(4);
    let mut ch = ByteChannel::new(255);
    let mut dec = FrameDecoder::new(3);

    let frame = enc.send(&[9, 8, 7]).unwrap();
    let (first_half, second_half) = frame.split_at(5);

    assert_eq!(intake(&mut ch, first_half), first_half.len());
    let (payloads, idle) = consumer_step(&mut ch, &mut dec);
    assert!(!idle);
    assert!(payloads.is_empty());

    assert_eq!(intake(&mut ch, second_half), second_half.len());
    let (payloads, idle) = consumer_step(&mut ch, &mut dec);
    assert!(!idle);
    assert_eq!(payloads, vec![vec![9, 8, 7]]);
}
