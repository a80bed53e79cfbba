//! The periodic liveness task: toggle an output line every half-period and
//! transmit a running counter once per full period.
//!
//! The cooperative executor owns the timing (one fixed suspension between
//! steps); the library owns the decision state, so the signal alternates
//! strictly, one toggle per wake-up, with no state drift of its own.

use vstd::prelude::*;

verus! {

/// What the surrounding program must do after one wake-up.
#[derive(Clone, Copy, PartialEq, Eq, Structural, Debug)]
pub enum BlinkAction {
    /// Drive the liveness output high.
    LedHigh,
    /// Drive it low and transmit this counter value, big-endian.
    LedLowAndSend(u32),
}

/// The blink task's whole state: the output's level and the frame counter.
pub struct Blinker {
    on: bool,
    count: u32,
}

/// One transition of the blink state: the output level always flips, and
/// the counter advances (wrapping) when the level falls.
pub open spec fn blink_next(on: bool, count: nat) -> (bool, nat) {
    if !on {
        (true, count)
    } else {
        (false, if count == 0xFFFFFFFF {
            0
        } else {
            count + 1
        })
    }
}

/// The blink state reached after `n` wake-ups from the boot state.
pub open spec fn blink_run(n: nat) -> (bool, nat)
    decreases n,
{
    if n == 0 {
        (false, 0)
    } else {
        blink_next(blink_run((n - 1) as nat).0, blink_run((n - 1) as nat).1)
    }
}

/// Alternation law: every wake-up flips the output, so under periodic
/// ticking the signal toggles once per fixed interval, never skipping or
/// doubling a half-period.
pub proof fn lemma_blink_toggles(n: nat)
    ensures
        blink_run(n + 1).0 == !blink_run(n).0,
{
}

/// Counter law: after `n` wake-ups the output is high exactly after the
/// odd ones, and the counter equals the number of completed full periods,
/// wrapping at the machine word.
pub proof fn lemma_blink_run(n: nat)
    ensures
        blink_run(n).0 == (n % 2 == 1),
        blink_run(n).1 == (n / 2) % 0x100000000,
    decreases n,
{
    if n > 0 {
        let m = (n - 1) as nat;
        lemma_blink_run(m);
        assert(n % 2 == 0 || n % 2 == 1) by (nonlinear_arith);
        assert(n >= 1 && n % 2 == 1 ==> n / 2 == (n - 1) / 2 && (n - 1) % 2 == 0)
            by (nonlinear_arith);
        assert(n >= 1 && n % 2 == 0 ==> n / 2 == (n - 1) / 2 + 1 && (n - 1) % 2 == 1)
            by (nonlinear_arith);
        assert(n >= 1 && ((n - 1) / 2) % 0x100000000 == 0xFFFFFFFF ==> ((n - 1) / 2 + 1)
            % 0x100000000 == 0) by (nonlinear_arith);
        assert(n >= 1 && ((n - 1) / 2) % 0x100000000 < 0xFFFFFFFF ==> ((n - 1) / 2 + 1)
            % 0x100000000 == ((n - 1) / 2) % 0x100000000 + 1) by (nonlinear_arith);
        assert(((n - 1) / 2) % 0x100000000 < 0x100000000) by (nonlinear_arith);
    }
}

impl Blinker {
    /// The output's current level.
    pub closed spec fn spec_on(&self) -> bool {
        self.on
    }

    /// The counter that goes out with the next falling edge.
    pub closed spec fn spec_count(&self) -> nat {
        self.count as nat
    }

    /// Boot state: output low, counter at zero.
    pub fn new() -> (r: Blinker)
        ensures
            !r.spec_on(),
            r.spec_count() == 0,
    {
        Blinker { on: false, count: 0 }
    }

    /// One wake-up: flips the level and reports what to do, exactly the
    /// `blink_next` transition.
    pub fn step(&mut self) -> (r: BlinkAction)
        ensures
            (final(self).spec_on(), final(self).spec_count()) == blink_next(
                old(self).spec_on(),
                old(self).spec_count(),
            ),
            !old(self).spec_on() ==> r == BlinkAction::LedHigh,
            old(self).spec_on() ==> r == BlinkAction::LedLowAndSend(
                old(self).spec_count() as u32,
            ),
    {
        if !self.on {
            self.on = true;
            BlinkAction::LedHigh
        } else {
            self.on = false;
            let sent = self.count;
            self.count = if self.count == 0xFFFFFFFF {
                0
            } else {
                self.count + 1
            };
            BlinkAction::LedLowAndSend(sent)
        }
    }
}

/// The big-endian byte encoding of a 32-bit counter value.
pub open spec fn u32_be(x: u32) -> Seq<u8> {
    seq![
        ((x / 0x1000000) % 0x100) as u8,
        ((x / 0x10000) % 0x100) as u8,
        ((x / 0x100) % 0x100) as u8,
        (x % 0x100) as u8,
    ]
}

/// The big-endian encoding loses nothing: distinct counter values have
/// distinct byte encodings.
pub proof fn lemma_u32_be_injective(x: u32, y: u32)
    requires
        u32_be(x) == u32_be(y),
    ensures
        x == y,
{
    assert(u32_be(x)[0] == u32_be(y)[0]);
    assert(u32_be(x)[1] == u32_be(y)[1]);
    assert(u32_be(x)[2] == u32_be(y)[2]);
    assert(u32_be(x)[3] == u32_be(y)[3]);
    assert(x == ((x / 0x1000000) % 0x100) * 0x1000000 + ((x / 0x10000) % 0x100) * 0x10000 + ((x
        / 0x100) % 0x100) * 0x100 + (x % 0x100)) by (bit_vector);
    assert(y == ((y / 0x1000000) % 0x100) * 0x1000000 + ((y / 0x10000) % 0x100) * 0x10000 + ((y
        / 0x100) % 0x100) * 0x100 + (y % 0x100)) by (bit_vector);
}

/// Encodes a counter value as its four big-endian bytes.
pub fn u32_be_bytes(x: u32) -> (r: Vec<u8>)
    ensures
        r@ == u32_be(x),
{
    let mut r: Vec<u8> = Vec::new();
    r.push(((x / 0x1000000) % 0x100) as u8);
    r.push(((x / 0x10000) % 0x100) as u8);
    r.push(((x / 0x100) % 0x100) as u8);
    r.push((x % 0x100) as u8);
    proof {
        assert(r@ =~= u32_be(x));
    }
    r
}

} // verus!
