//! Diagnostic log sink: severity filtering and line formatting.
//!
//! The firmware owns a single diagnostic serial line.  The library decides
//! which calls pass the severity filter and what exact line goes on the
//! wire; the surrounding program owns the write handle, performs the
//! byte-by-byte write, and halts fatally if the hardware reports an error
//! (the diagnostic line is the only channel left to report anything on).

use vstd::prelude::*;
use vstd::string::StringExecFns;

verus! {

/// Severity of one diagnostic message.
#[derive(Clone, Copy, PartialEq, Eq, Structural, Debug)]
pub enum Level {
    Error,
    Warn,
    Info,
    Debug,
    Trace,
}

/// Upper bound on the severity of the messages that are let through.
#[derive(Clone, Copy, PartialEq, Eq, Structural, Debug)]
pub enum LevelFilter {
    Off,
    Error,
    Warn,
    Info,
    Debug,
    Trace,
}

/// Numeric rank of a message severity; smaller is more severe.
pub open spec fn level_rank(l: Level) -> int {
    match l {
        Level::Error => 1,
        Level::Warn => 2,
        Level::Info => 3,
        Level::Debug => 4,
        Level::Trace => 5,
    }
}

/// Numeric rank of a filter; a message passes when its rank is at most this.
pub open spec fn filter_rank(f: LevelFilter) -> int {
    match f {
        LevelFilter::Off => 0,
        LevelFilter::Error => 1,
        LevelFilter::Warn => 2,
        LevelFilter::Info => 3,
        LevelFilter::Debug => 4,
        LevelFilter::Trace => 5,
    }
}

/// The tag that opens a formatted line.
pub open spec fn level_label(l: Level) -> Seq<char> {
    match l {
        Level::Error => "ERROR"@,
        Level::Warn => "WARN"@,
        Level::Info => "INFO"@,
        Level::Debug => "DEBUG"@,
        Level::Trace => "TRACE"@,
    }
}

/// The exact line written for one accepted call:
/// `<LEVEL> [<TARGET>] <MESSAGE>\r\n`.
pub open spec fn log_line(l: Level, target: Seq<char>, message: Seq<char>) -> Seq<char> {
    level_label(l) + " ["@ + target + "] "@ + message + "\r\n"@
}

/// The diagnostic sink's decision state: initialized at most once, with a
/// fixed severity filter from then on.
pub struct Logger {
    started: bool,
    filter: LevelFilter,
}

impl Logger {
    /// Whether the one-time initialization has happened.
    pub closed spec fn spec_started(&self) -> bool {
        self.started
    }

    /// The configured severity filter.
    pub closed spec fn spec_filter(&self) -> LevelFilter {
        self.filter
    }

    /// The boot state: not yet started, everything filtered out.
    pub fn new() -> (r: Logger)
        ensures
            !r.spec_started(),
            r.spec_filter() == LevelFilter::Off,
    {
        Logger { started: false, filter: LevelFilter::Off }
    }

    /// One-time initialization gate: the first caller wins and fixes the
    /// filter; every later call is a no-op.
    pub fn start(&mut self, filter: LevelFilter)
        ensures
            final(self).spec_started(),
            !old(self).spec_started() ==> final(self).spec_filter() == filter,
            old(self).spec_started() ==> *final(self) == *old(self),
    {
        if !self.started {
            self.started = true;
            self.filter = filter;
        }
    }

    /// Whether a message of this severity passes the configured filter.
    pub fn enabled(&self, level: Level) -> (r: bool)
        ensures
            r == (level_rank(level) <= filter_rank(self.spec_filter())),
    {
        let lr: u8 = match level {
            Level::Error => 1,
            Level::Warn => 2,
            Level::Info => 3,
            Level::Debug => 4,
            Level::Trace => 5,
        };
        let fr: u8 = match self.filter {
            LevelFilter::Off => 0,
            LevelFilter::Error => 1,
            LevelFilter::Warn => 2,
            LevelFilter::Info => 3,
            LevelFilter::Debug => 4,
            LevelFilter::Trace => 5,
        };
        lr <= fr
    }

    /// Formats one call: `Some(line)` exactly when the severity passes the
    /// filter, with the line pinned down character by character; `None` when
    /// the call is filtered out and nothing reaches the wire.
    pub fn log(&self, level: Level, target: &str, message: &str) -> (r: Option<String>)
        ensures
            (level_rank(level) <= filter_rank(self.spec_filter())) <==> r is Some,
            r matches Some(line) ==> line@ == log_line(level, target@, message@),
    {
        if self.enabled(level) {
            Some(format_line(level, target, message))
        } else {
            None
        }
    }
}

/// The label as a string slice.
pub fn level_str(l: Level) -> (r: &'static str)
    ensures
        r@ == level_label(l),
{
    match l {
        Level::Error => "ERROR",
        Level::Warn => "WARN",
        Level::Info => "INFO",
        Level::Debug => "DEBUG",
        Level::Trace => "TRACE",
    }
}

/// The upper-case hex digit for a value below sixteen.
pub open spec fn hex_digit(n: int) -> char {
    if n == 0 {
        '0'
    } else if n == 1 {
        '1'
    } else if n == 2 {
        '2'
    } else if n == 3 {
        '3'
    } else if n == 4 {
        '4'
    } else if n == 5 {
        '5'
    } else if n == 6 {
        '6'
    } else if n == 7 {
        '7'
    } else if n == 8 {
        '8'
    } else if n == 9 {
        '9'
    } else if n == 10 {
        'A'
    } else if n == 11 {
        'B'
    } else if n == 12 {
        'C'
    } else if n == 13 {
        'D'
    } else if n == 14 {
        'E'
    } else {
        'F'
    }
}

/// One byte written as `0x` and two upper-case hex digits.
pub open spec fn byte_hex(b: u8) -> Seq<char> {
    seq!['0', 'x', hex_digit(b as int / 16), hex_digit(b as int % 16)]
}

/// A comma-separated list of bytes in hex, in order.
pub open spec fn hex_list(bytes: Seq<u8>) -> Seq<char>
    decreases bytes.len(),
{
    if bytes.len() == 0 {
        Seq::empty()
    } else {
        hex_list(bytes.drop_last()) + (if bytes.len() == 1 {
            byte_hex(bytes.last())
        } else {
            ", "@ + byte_hex(bytes.last())
        })
    }
}

/// The message logged for one received payload: `recv: [..]` with the
/// payload bytes in hex.
pub open spec fn recv_message(bytes: Seq<u8>) -> Seq<char> {
    "recv: ["@ + hex_list(bytes) + "]"@
}

/// The single hex digit for a value below sixteen.
pub fn hex_digit_str(n: u8) -> (r: &'static str)
    requires
        n < 16,
    ensures
        r@ == seq![hex_digit(n as int)],
{
    proof {
        reveal_strlit("0");
        reveal_strlit("1");
        reveal_strlit("2");
        reveal_strlit("3");
        reveal_strlit("4");
        reveal_strlit("5");
        reveal_strlit("6");
        reveal_strlit("7");
        reveal_strlit("8");
        reveal_strlit("9");
        reveal_strlit("A");
        reveal_strlit("B");
        reveal_strlit("C");
        reveal_strlit("D");
        reveal_strlit("E");
        reveal_strlit("F");
    }
    if n == 0 {
        "0"
    } else if n == 1 {
        "1"
    } else if n == 2 {
        "2"
    } else if n == 3 {
        "3"
    } else if n == 4 {
        "4"
    } else if n == 5 {
        "5"
    } else if n == 6 {
        "6"
    } else if n == 7 {
        "7"
    } else if n == 8 {
        "8"
    } else if n == 9 {
        "9"
    } else if n == 10 {
        "A"
    } else if n == 11 {
        "B"
    } else if n == 12 {
        "C"
    } else if n == 13 {
        "D"
    } else if n == 14 {
        "E"
    } else {
        "F"
    }
}

/// Appends one byte's `0xHH` form.
fn append_byte_hex(s: &mut String, b: u8)
    ensures
        final(s)@ == old(s)@ + byte_hex(b),
{
    proof {
        reveal_strlit("0x");
    }
    s.append("0x");
    s.append(hex_digit_str(b / 16));
    s.append(hex_digit_str(b % 16));
    proof {
        assert(s@ =~= old(s)@ + byte_hex(b));
    }
}

/// Builds the receive log message for one payload, pinned character by
/// character.
pub fn recv_message_str(payload: &[u8]) -> (r: String)
    ensures
        r@ == recv_message(payload@),
{
    proof {
        reveal_strlit("recv: [");
        reveal_strlit("]");
        reveal_strlit(", ");
    }
    let mut s = String::from_str("recv: [");
    proof {
        assert(s@ =~= "recv: ["@ + hex_list(payload@.subrange(0, 0)));
    }
    let mut i: usize = 0;
    while i < payload.len()
        invariant
            i <= payload@.len(),
            s@ == "recv: ["@ + hex_list(payload@.subrange(0, i as int)),
        decreases payload@.len() - i,
    {
        if i > 0 {
            s.append(", ");
        }
        append_byte_hex(&mut s, payload[i]);
        proof {
            let part = payload@.subrange(0, (i + 1) as int);
            assert(part.drop_last() =~= payload@.subrange(0, i as int));
            assert(part.last() == payload@[i as int]);
            assert(s@ =~= "recv: ["@ + hex_list(part));
        }
        i = i + 1;
    }
    proof {
        assert(payload@.subrange(0, payload@.len() as int) =~= payload@);
    }
    s.append("]");
    proof {
        assert(s@ =~= recv_message(payload@));
    }
    s
}

/// Builds the full line for one accepted call.
pub fn format_line(level: Level, target: &str, message: &str) -> (r: String)
    ensures
        r@ == log_line(level, target@, message@),
{
    let mut s = String::from_str(level_str(level));
    s.append(" [");
    s.append(target);
    s.append("] ");
    s.append(message);
    s.append("\r\n");
    s
}

} // verus!
