//! Waiting by the programmable interval timer.
//!
//! The timer counts down from a 16-bit number at its own frequency. This
//! module works out the number for a wait; writing it to the ports of the
//! timer is left to the caller.

use vstd::prelude::*;

verus! {

/// Ticks of the timer per second.
pub const PIT_DEFAULT_FREQUENCY: u32 = 1_193_182;

/// The lowest frequency that a 16-bit count can give.
pub const PIT_MINIMUM_FREQUENCY: u32 = 19;

/// Longest wait in microseconds: one period of the lowest frequency.
pub const PIT_MAXIMUM_WAIT: u32 = 52_631;

/// The count for a wait, as the two bytes that go to the data port of the
/// timer, low byte first.
#[derive(Clone, Copy, Debug, PartialEq, Eq, Structural)]
pub struct PitCount {
    pub low: u8,
    pub high: u8,
}

/// The wait is too long for the timer.
#[derive(Clone, Copy, Debug, PartialEq, Eq, Structural)]
pub struct PitWaitTooLong {
    /// The wait that was asked for, in microseconds.
    pub microseconds: u32,
    /// The longest wait, in microseconds, that is named to the caller.
    pub max: u32,
}

/// Ticks of the timer in a wait of `microseconds`: the frequency of the
/// timer divided by the number of such waits that fit in a second.
pub open spec fn pit_divisor(microseconds: u32) -> int {
    1_193_182int / (1_000_000int / (microseconds as int))
}

/// The count for a wait of `microseconds`, which lie between one and a
/// million. A wait of more ticks than 16 bits hold is refused.
pub fn pit_wait(microseconds: u32) -> (res: Result<PitCount, PitWaitTooLong>)
    requires
        0 < microseconds <= 1_000_000,
    ensures
        res is Ok <==> pit_divisor(microseconds) <= u16::MAX,
        res matches Ok(count) ==> count.low == pit_divisor(microseconds) % 256 && count.high
            == pit_divisor(microseconds) / 256,
        res matches Err(e) ==> e.microseconds == microseconds && e.max == PIT_MAXIMUM_WAIT,
{
    let per_second = 1_000_000 / microseconds;
    assert(per_second >= 1) by {
        vstd::arithmetic::div_mod::lemma_div_is_ordered(
            microseconds as int,
            1_000_000,
            microseconds as int,
        );
        vstd::arithmetic::div_mod::lemma_div_basics(microseconds as int);
    }
    let divisor = PIT_DEFAULT_FREQUENCY / per_second;
    if divisor > 0xffff {
        return Err(
            PitWaitTooLong {
                microseconds,
                max: 1_000_000 / PIT_MINIMUM_FREQUENCY,
            },
        );
    }
    Ok(PitCount { low: (divisor % 256) as u8, high: (divisor / 256) as u8 })
}

} // verus!
