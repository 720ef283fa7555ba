//! The suffix that keeps concurrent extractions apart.

use vstd::prelude::*;

verus! {

/// Multiplier that spreads consecutive ticks over all bits of the suffix.
pub const TICK_SPREAD: u64 = 0x9E37_79B9_7F4A_7C15;

/// The clock reading as it enters the suffix: the nanoseconds since the epoch,
/// reduced to 64 bits, or 0 for a clock that stands before the epoch.
pub open spec fn clock_bits(clock: Option<u128>) -> u64 {
    match clock {
        Some(nanos) => (nanos % 0x1_0000_0000_0000_0000) as u64,
        None => 0,
    }
}

/// The tick as it enters the suffix: `tick * TICK_SPREAD` modulo two to the 64.
pub open spec fn tick_bits(tick: u64) -> u64 {
    ((tick * TICK_SPREAD) % 0x1_0000_0000_0000_0000) as u64
}

/// The suffix for a clock reading and a tick.
pub open spec fn suffix_of(clock: Option<u128>, tick: u64) -> u64 {
    clock_bits(clock) ^ tick_bits(tick)
}

/// A short suffix for the name of a directory under construction. `clock` is the
/// time in nanoseconds since the epoch, `None` before it, and `tick` a counter
/// that this process raises with every suffix it takes.
///
/// It only needs to be unique among this machine's concurrent extractors: the
/// tick guards two extractors of one process, and the clock two processes.
pub fn rand_suffix(clock: Option<u128>, tick: u64) -> (suffix: u64)
    ensures
        suffix == suffix_of(clock, tick),
{
    let nanos: u64 = match clock {
        Some(nanos) => (nanos % 0x1_0000_0000_0000_0000) as u64,
        None => 0,
    };
    nanos ^ tick.wrapping_mul(TICK_SPREAD)
}

/// A number that a factor with an inverse modulo `m` takes to a multiple of `m`
/// is a multiple of `m`.
proof fn lemma_cancel_unit(d: int, k: int, inverse: int, n: int, m: int, q: int)
    requires
        d * k == q * m,
        k * inverse == 1 + n * m,
    ensures
        d == m * (q * inverse - n * d),
{
    assert(d * (k * inverse) == (d * k) * inverse) by (nonlinear_arith);
    assert(d * (1 + n * m) == d + m * (n * d)) by (nonlinear_arith);
    assert((q * m) * inverse == m * (q * inverse)) by (nonlinear_arith);
    assert(m * (q * inverse) - m * (n * d) == m * (q * inverse - n * d)) by (nonlinear_arith);
}

/// No two ticks enter the suffix as the same bits: the spread is odd, so it has an
/// inverse modulo two to the 64.
proof fn lemma_tick_bits_injective(a: u64, b: u64)
    requires
        tick_bits(a) == tick_bits(b),
    ensures
        a == b,
{
    let m: int = 0x1_0000_0000_0000_0000;
    let k: int = TICK_SPREAD as int;
    let inverse: int = 0xf1de_83e1_9937_733d;
    let n: int = 10771413168148108919;
    let d = a - b;
    let (x, y) = (a * k, b * k);
    let q = x / m - y / m;
    assert(x % m == y % m);
    assert(x == m * (x / m) + x % m);
    assert(y == m * (y / m) + y % m);
    assert(d * k == x - y) by (nonlinear_arith)
        requires
            d == a - b,
            x == a * k,
            y == b * k,
    ;
    assert(m * (x / m) - m * (y / m) == q * m) by (nonlinear_arith)
        requires
            q == x / m - y / m,
    ;
    lemma_cancel_unit(d, k, inverse, n, m, q);
    let t = q * inverse - n * d;
    assert(d == 0) by (nonlinear_arith)
        requires
            d == m * t,
            -m < d < m,
    ;
}

/// Within one process, two suffixes taken at the same clock reading differ.
pub proof fn suffixes_differ_by_tick(clock: Option<u128>, tick1: u64, tick2: u64)
    requires
        tick1 != tick2,
    ensures
        suffix_of(clock, tick1) != suffix_of(clock, tick2),
{
    let c = clock_bits(clock);
    let (t1, t2) = (tick_bits(tick1), tick_bits(tick2));
    assert(c ^ t1 == c ^ t2 ==> t1 == t2) by (bit_vector);
    if t1 == t2 {
        lemma_tick_bits_injective(tick1, tick2);
    }
}

/// Across processes, two suffixes taken at the same tick differ where the clock
/// readings do, as far as 64 bits tell them apart.
pub proof fn suffixes_differ_by_clock(clock1: Option<u128>, clock2: Option<u128>, tick: u64)
    requires
        clock_bits(clock1) != clock_bits(clock2),
    ensures
        suffix_of(clock1, tick) != suffix_of(clock2, tick),
{
    let (c1, c2) = (clock_bits(clock1), clock_bits(clock2));
    let t = tick_bits(tick);
    assert(c1 ^ t == c2 ^ t ==> c1 == c2) by (bit_vector);
}

/// The bits of a tick are those of the one before it, moved on by the spread.
proof fn lemma_tick_moves_on(tick: u64)
    requires
        tick < u64::MAX,
    ensures
        tick_bits((tick + 1) as u64) == (tick_bits(tick) + TICK_SPREAD) % 0x1_0000_0000_0000_0000,
{
    let m: int = 0x1_0000_0000_0000_0000;
    let k: int = TICK_SPREAD as int;
    let x = tick * k;
    assert((tick + 1) * k == x + k) by (nonlinear_arith)
        requires
            x == tick * k,
    ;
    vstd::arithmetic::div_mod::lemma_add_mod_noop(x, k, m);
    vstd::arithmetic::div_mod::lemma_small_mod(k as nat, m as nat);
}

/// The suffix at a clock reading, against the one of the same tick without a clock,
/// shows the low 64 bits of the nanoseconds and nothing else. Without a clock the first
/// tick gives zero, and each tick gives what the one before it gave, moved on by
/// `0x9E37_79B9_7F4A_7C15` modulo two to the 64.
pub proof fn suffix_mixes_clock_and_tick(nanos: u128, tick: u64)
    ensures
        suffix_of(Some(nanos), tick) ^ suffix_of(None, tick) == nanos % 0x1_0000_0000_0000_0000,
        suffix_of(None, 0) == 0,
        tick < u64::MAX ==> suffix_of(None, (tick + 1) as u64) == (suffix_of(None, tick)
            + 0x9E37_79B9_7F4A_7C15) % 0x1_0000_0000_0000_0000,
{
    let c = clock_bits(Some(nanos));
    let t = tick_bits(tick);
    assert((c ^ t) ^ (0u64 ^ t) == c) by (bit_vector);
    assert(0u64 ^ t == t) by (bit_vector);
    let first = tick_bits(0);
    assert(0u64 ^ first == first) by (bit_vector);
    if tick < u64::MAX {
        let after = tick_bits((tick + 1) as u64);
        assert(0u64 ^ after == after) by (bit_vector);
        lemma_tick_moves_on(tick);
    }
}

} // verus!
