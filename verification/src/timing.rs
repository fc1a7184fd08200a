//! Saturating arithmetic and the tick-to-millisecond conversion.
//!
//! All times are integer milliseconds. The conversion
//! `ms = ticks * tempo / (ticks_per_quarter * 1000)` is the exact integer
//! form of "(ticks / ticks-per-quarter) quarters, each lasting tempo
//! microseconds"; results past the top of `u64` saturate, and a zero
//! divisor yields zero.

use vstd::prelude::*;

verus! {

/// Addition on `u64`-ranged values that stops at the top of the range
/// instead of wrapping.
pub open spec fn sat_add_u64(a: nat, b: nat) -> nat {
    if a + b > u64::MAX {
        u64::MAX as nat
    } else {
        a + b
    }
}

/// Subtraction on `u64`-ranged values that stops at zero.
pub open spec fn sat_sub_u64(a: nat, b: nat) -> nat {
    if a >= b {
        (a - b) as nat
    } else {
        0
    }
}

/// Executable counterpart of `sat_add_u64`.
pub fn sat_add(a: u64, b: u64) -> (r: u64)
    ensures
        r as nat == sat_add_u64(a as nat, b as nat),
{
    if a > u64::MAX - b {
        u64::MAX
    } else {
        a + b
    }
}

/// Executable counterpart of `sat_sub_u64`.
pub fn sat_sub(a: u64, b: u64) -> (r: u64)
    ensures
        r as nat == sat_sub_u64(a as nat, b as nat),
{
    if a >= b {
        a - b
    } else {
        0
    }
}

/// Milliseconds covered by `ticks` ticks at `tempo` microseconds per quarter
/// note, with `tpq` ticks per quarter note. Division by a zero divisor is
/// zero, and results past the top of `u64` saturate.
pub open spec fn ms_of(ticks: nat, tempo: nat, tpq: nat) -> nat {
    if tpq == 0 {
        0
    } else if ticks * tempo / (tpq * 1000) > u64::MAX {
        u64::MAX as nat
    } else {
        ticks * tempo / (tpq * 1000)
    }
}

/// Executable counterpart of `ms_of`.
pub fn ticks_to_ms(ticks: u64, tempo: u32, tpq: u16) -> (r: u64)
    ensures
        r as nat == ms_of(ticks as nat, tempo as nat, tpq as nat),
{
    if tpq == 0 {
        return 0;
    }
    proof {
        vstd::arithmetic::mul::lemma_mul_upper_bound(
            ticks as int,
            u64::MAX as int,
            tempo as int,
            u32::MAX as int,
        );
    }
    let num: u128 = (ticks as u128) * (tempo as u128);
    let den: u128 = (tpq as u128) * 1000;
    let q: u128 = num / den;
    if q > u64::MAX as u128 {
        u64::MAX
    } else {
        q as u64
    }
}

/// Beats per minute, in thousandths, for a tempo of `micros` microseconds
/// per quarter note: `60_000_000_000 / micros`, with zero mapped to the top
/// of the range (the exact formula diverges there).
pub open spec fn bpm_thousandths(micros: nat) -> nat {
    if micros == 0 {
        u64::MAX as nat
    } else {
        60_000_000_000nat / micros
    }
}

/// Executable counterpart of `bpm_thousandths`.
pub fn tempo_bpm_thousandths(micros: u32) -> (r: u64)
    ensures
        r as nat == bpm_thousandths(micros as nat),
{
    if micros == 0 {
        u64::MAX
    } else {
        60_000_000_000u64 / (micros as u64)
    }
}

} // verus!
