use serial_bridge::fault::alloc_error;
use serial_bridge::logger::{format_line, recv_message_str, Level, LevelFilter, Logger};

#[test]
fn info_line_with_trace_filter() {
    let mut logger = Logger::new();
    logger.start(LevelFilter::Trace);
    let line = logger.log(Level::Info, "serial", "recv: [0xDE, 0xAD]");
    assert_eq!(line.as_deref(), Some("INFO [serial] recv: [0xDE, 0xAD]\r\n"));
}

#[test]
fn filter_cuts_lower_severities() {
    let mut logger = Logger::new();
    logger.start(LevelFilter::Warn);
    assert!(logger.log(Level::Error, "core", "boom").is_some());
    assert!(logger.log(Level::Warn, "core", "odd").is_some());
    assert!(logger.log(Level::Info, "core", "hello").is_none());
    assert!(logger.log(Level::Debug, "core", "detail").is_none());
    assert!(logger.log(Level::Trace, "core", "noise").is_none());
}

#[test]
fn unstarted_logger_filters_everything() {
    let logger = Logger::new();
    assert!(logger.log(Level::Error, "core", "boom").is_none());
}

#[test]
fn start_is_first_caller_wins() {
    let mut logger = Logger::new();
    logger.start(LevelFilter::Trace);
    logger.start(LevelFilter::Off);
    // the second start changed nothing
    assert!(logger.log(Level::Trace, "core", "still on").is_some());
}

#[test]
fn enabled_matches_ranks() {
    let mut logger = Logger::new();
    logger.start(LevelFilter::Info);
    assert!(logger.enabled(Level::Error));
    assert!(logger.enabled(Level::Info));
    assert!(!logger.enabled(Level::Debug));
}

#[test]
fn format_line_levels() {
    assert_eq!(format_line(Level::Error, "t", "m"), "ERROR [t] m\r\n");
    assert_eq!(format_line(Level::Warn, "t", "m"), "WARN [t] m\r\n");
    assert_eq!(format_line(Level::Info, "t", "m"), "INFO [t] m\r\n");
    assert_eq!(format_line(Level::Debug, "t", "m"), "DEBUG [t] m\r\n");
    assert_eq!(format_line(Level::Trace, "t", "m"), "TRACE [t] m\r\n");
}

#[test]
fn recv_message_hex_format() {
    assert_eq!(recv_message_str(&[0xDE, 0xAD]), "recv: [0xDE, 0xAD]");
    assert_eq!(recv_message_str(&[]), "recv: []");
    assert_eq!(recv_message_str(&[0x00]), "recv: [0x00]");
    assert_eq!(recv_message_str(&[0x0F, 0xA0, 0x09]), "recv: [0x0F, 0xA0, 0x09]");
}

#[test]
fn alloc_error_description() {
    assert_eq!(alloc_error(), "Alloc error.");
}
