//! The energy arithmetic: power in microwatts (or milliwatts), time in
//! nanoseconds (or milliseconds), energy in micro-joules.

use vstd::arithmetic::div_mod::{
    lemma_div_is_ordered, lemma_div_multiples_vanish, lemma_fundamental_div_mod,
    lemma_hoist_over_denominator,
};
use vstd::arithmetic::mul::{lemma_mul_inequality, lemma_mul_is_commutative};
use vstd::prelude::*;

verus! {

/// Nanoseconds in one second.
pub const NANOSECONDS_PER_SECOND: u64 = 1_000_000_000;

/// The per-million share that stands for a whole CPU.
pub const WHOLE_CPU_SHARE_MICROS: u32 = 1_000_000;

/// `n` clamped to what a `u64` can hold.
pub open spec fn saturated(n: int) -> u64
    recommends
        0 <= n,
{
    if n > u64::MAX {
        u64::MAX
    } else {
        n as u64
    }
}

/// The smaller of two integers.
pub open spec fn least(a: int, b: int) -> int {
    if a <= b {
        a
    } else {
        b
    }
}

/// Power above the idle floor; nothing when the reading is at or below it.
pub open spec fn burst_power(active_power_uw: u64, idle_power_uw: u64) -> u64 {
    if active_power_uw <= idle_power_uw {
        0
    } else {
        (active_power_uw - idle_power_uw) as u64
    }
}

/// Energy of a constant power over a window, in 64-bit saturating steps: the
/// whole seconds, and the remaining fraction of a second.
pub open spec fn window_energy(power_uw: u64, window_ns: u64) -> u64 {
    let whole_seconds = window_ns as int / NANOSECONDS_PER_SECOND as int;
    let remainder_ns = window_ns as int % NANOSECONDS_PER_SECOND as int;
    saturated(
        saturated(power_uw * whole_seconds) + saturated(power_uw * remainder_ns) as int
            / NANOSECONDS_PER_SECOND as int,
    )
}

/// Energy above idle over a window.
pub open spec fn burst_energy(active_power_uw: u64, idle_power_uw: u64, window_ns: u64) -> u64 {
    window_energy(burst_power(active_power_uw, idle_power_uw), window_ns)
}

/// Burst energy of the time that a process held the accelerator, which counts
/// for no more than the time that the accelerator was busy at all.
pub open spec fn deterministic_attribution(
    total_power_uw: u64,
    idle_power_uw: u64,
    process_on_accelerator_ns: u64,
    total_busy_ns: u64,
) -> u64 {
    saturated(
        burst_power(total_power_uw, idle_power_uw) * least(
            process_on_accelerator_ns as int,
            total_busy_ns as int,
        ) / NANOSECONDS_PER_SECOND as int,
    )
}

/// The part of a package energy delta that a CPU-time share owns.
pub open spec fn rapl_fallback(rapl_uj_delta: u64, cpu_share_micros: u32) -> int {
    rapl_uj_delta * least(cpu_share_micros as int, WHOLE_CPU_SHARE_MICROS as int)
        / WHOLE_CPU_SHARE_MICROS as int
}

/// Milliwatts times milliseconds.
pub open spec fn nvml_window_energy(power_mw: u64, dt_ms: u64) -> u64 {
    saturated(power_mw * dt_ms)
}

/// The product, or `u64::MAX` where it does not fit.
fn saturating_product(a: u64, b: u64) -> (product: u64)
    ensures
        product == saturated(a * b),
{
    assert(a * b >= 0) by (nonlinear_arith);
    match a.checked_mul(b) {
        Some(product) => product,
        None => u64::MAX,
    }
}

/// `n`, or `u64::MAX` where it does not fit.
pub fn saturate_to_u64(n: u128) -> (clamped: u64)
    ensures
        clamped == saturated(n as int),
{
    if n > u64::MAX as u128 {
        u64::MAX
    } else {
        n as u64
    }
}

/// Power above the idle floor.
pub fn baseline_burst_power_uw(active_power_uw: u64, idle_power_uw: u64) -> (burst: u64)
    ensures
        burst == burst_power(active_power_uw, idle_power_uw),
{
    active_power_uw.saturating_sub(idle_power_uw)
}

/// Energy of a constant power over a window.
pub fn window_energy_uj(power_uw: u64, window_ns: u64) -> (energy: u64)
    ensures
        energy == window_energy(power_uw, window_ns),
{
    let whole_seconds: u64 = window_ns / NANOSECONDS_PER_SECOND;
    let remainder_ns: u64 = window_ns % NANOSECONDS_PER_SECOND;
    saturating_product(power_uw, whole_seconds).saturating_add(
        saturating_product(power_uw, remainder_ns) / NANOSECONDS_PER_SECOND,
    )
}

/// Energy above idle over a window.
pub fn burst_energy_uj(active_power_uw: u64, idle_power_uw: u64, window_ns: u64) -> (energy: u64)
    ensures
        energy == burst_energy(active_power_uw, idle_power_uw, window_ns),
{
    window_energy_uj(baseline_burst_power_uw(active_power_uw, idle_power_uw), window_ns)
}

/// The deterministic attribution model: the burst power above idle, over the
/// time that the process held the accelerator. A process time beyond the
/// total busy time counts as the total busy time.
pub fn deterministic_attribution_uj(
    total_power_uw: u64,
    idle_power_uw: u64,
    process_on_accelerator_ns: u64,
    total_busy_ns: u64,
) -> (energy: u64)
    ensures
        energy == deterministic_attribution(
            total_power_uw,
            idle_power_uw,
            process_on_accelerator_ns,
            total_busy_ns,
        ),
        total_busy_ns == 0 ==> energy == 0,
{
    let burst_power_uw: u64 = baseline_burst_power_uw(total_power_uw, idle_power_uw);
    if total_busy_ns == 0 {
        assert(burst_power_uw * 0 == 0) by (nonlinear_arith);
        return 0;
    }
    let proc_ns: u64 = if process_on_accelerator_ns <= total_busy_ns {
        process_on_accelerator_ns
    } else {
        total_busy_ns
    };
    proof {
        lemma_mul_inequality(burst_power_uw as int, u64::MAX as int, proc_ns as int);
        lemma_mul_inequality(proc_ns as int, u64::MAX as int, u64::MAX as int);
        lemma_mul_is_commutative(u64::MAX as int, proc_ns as int);
        assert(burst_power_uw * proc_ns >= 0) by (nonlinear_arith);
    }
    let numerator: u128 = burst_power_uw as u128 * proc_ns as u128;
    saturate_to_u64(numerator / NANOSECONDS_PER_SECOND as u128)
}

/// CPU-only fallback: the part of a package energy delta that the process's
/// per-million CPU-time share owns. A share beyond one million counts as one
/// million.
pub fn rapl_fallback_uj(rapl_uj_delta: u64, cpu_share_micros: u32) -> (energy: u64)
    ensures
        energy == rapl_fallback(rapl_uj_delta, cpu_share_micros),
        energy <= rapl_uj_delta,
{
    let share: u32 = if cpu_share_micros <= WHOLE_CPU_SHARE_MICROS {
        cpu_share_micros
    } else {
        WHOLE_CPU_SHARE_MICROS
    };
    assert(0 <= rapl_uj_delta * share <= rapl_uj_delta * 1_000_000) by (nonlinear_arith)
        requires
            share <= 1_000_000,
    ;
    let scaled: u128 = rapl_uj_delta as u128 * share as u128;
    saturate_to_u64(scaled / WHOLE_CPU_SHARE_MICROS as u128)
}

/// Energy of a power reading in milliwatts over a window in milliseconds.
pub fn nvml_window_energy_uj(power_mw: u64, dt_ms: u64) -> (energy: u64)
    ensures
        energy == nvml_window_energy(power_mw, dt_ms),
{
    saturating_product(power_mw, dt_ms)
}

/// Splitting a window into whole seconds and a remainder loses nothing: where
/// the product for the remainder fits in 64 bits, the window energy is the
/// product of power and time, rounded down and clamped.
pub proof fn window_energy_is_power_times_time(power_uw: u64, window_ns: u64)
    requires
        power_uw * (window_ns as int % NANOSECONDS_PER_SECOND as int) <= u64::MAX,
    ensures
        window_energy(power_uw, window_ns) == saturated(
            power_uw * window_ns / NANOSECONDS_PER_SECOND as int,
        ),
{
    let n = NANOSECONDS_PER_SECOND as int;
    let p = power_uw as int;
    let q = window_ns as int / n;
    let r = window_ns as int % n;
    assert(p * r >= 0 && p * q >= 0) by (nonlinear_arith)
        requires
            p >= 0,
            q >= 0,
            r >= 0,
    ;
    assert(p * window_ns == n * (p * q) + p * r) by (nonlinear_arith)
        requires
            window_ns == n * q + r,
    ;
    lemma_div_multiples_vanish_remainder(p * q, p * r, n);
}

/// `(n * a + b) / n` is `a + b / n`.
proof fn lemma_div_multiples_vanish_remainder(a: int, b: int, n: int)
    requires
        n > 0,
    ensures
        (n * a + b) / n == a + b / n,
{
    lemma_hoist_over_denominator(b, a, n as nat);
    lemma_mul_is_commutative(a, n);
}

/// Longer windows and higher powers never yield less energy.
pub proof fn window_energy_is_monotone(
    lower_power_uw: u64,
    higher_power_uw: u64,
    shorter_ns: u64,
    longer_ns: u64,
)
    requires
        lower_power_uw <= higher_power_uw,
        shorter_ns <= longer_ns,
    ensures
        window_energy(lower_power_uw, shorter_ns) <= window_energy(higher_power_uw, longer_ns),
{
    let n = NANOSECONDS_PER_SECOND as int;
    let (p1, p2) = (lower_power_uw as int, higher_power_uw as int);
    let (q1, q2) = (shorter_ns as int / n, longer_ns as int / n);
    let (r1, r2) = (shorter_ns as int % n, longer_ns as int % n);
    lemma_mul_bounds(p1, p2, q1, q2);
    lemma_mul_bounds(p1, p2, 0, r1);
    if q1 == q2 {
        lemma_mul_bounds(p1, p2, r1, r2);
        lemma_div_is_ordered(saturated(p1 * r1) as int, saturated(p2 * r2) as int, n);
    } else {
        lemma_mul_bounds(p1, p2, q1 + 1, q2);
        lemma_mul_bounds(p1, p1, r1, n);
        lemma_mul_bounds(p2, p2, 0, r2);
        assert(p1 * (q1 + 1) == p1 * q1 + p1) by (nonlinear_arith);
        assert(saturated(p1 * r1) as int / n <= p1) by {
            lemma_div_is_ordered(saturated(p1 * r1) as int, p1 * n, n);
            lemma_div_multiples_vanish(p1, n);
            lemma_mul_is_commutative(p1, n);
        }
        assert(saturated(p2 * r2) as int / n >= 0);
    }
}

/// Products of ordered non-negative factors are ordered.
proof fn lemma_mul_bounds(a: int, b: int, c: int, d: int)
    requires
        0 <= a <= b,
        0 <= c <= d,
    ensures
        0 <= a * c <= b * d,
{
    assert(0 <= a * c <= b * d) by (nonlinear_arith)
        requires
            0 <= a <= b,
            0 <= c <= d,
    ;
}

/// The two unit systems agree: milliwatts over milliseconds give the energy
/// that the same power in microwatts gives over the same time in nanoseconds.
pub proof fn nvml_energy_agrees_with_window_energy(power_mw: u64, dt_ms: u64)
    requires
        power_mw * 1_000 <= u64::MAX,
        dt_ms * 1_000_000 <= u64::MAX,
        (power_mw * 1_000) * ((dt_ms * 1_000_000) % NANOSECONDS_PER_SECOND as int) <= u64::MAX,
    ensures
        nvml_window_energy(power_mw, dt_ms) == window_energy(
            (power_mw * 1_000) as u64,
            (dt_ms * 1_000_000) as u64,
        ),
{
    let n = NANOSECONDS_PER_SECOND as int;
    window_energy_is_power_times_time((power_mw * 1_000) as u64, (dt_ms * 1_000_000) as u64);
    assert((power_mw * 1_000) * (dt_ms * 1_000_000) == n * (power_mw * dt_ms)) by (nonlinear_arith)
        requires
            n == 1_000_000_000,
    ;
    lemma_div_multiples_vanish(power_mw * dt_ms, n);
}

/// The share of a whole CPU owns the whole package delta, and no share owns more.
pub proof fn rapl_fallback_never_exceeds_the_delta(rapl_uj_delta: u64, cpu_share_micros: u32)
    ensures
        0 <= rapl_fallback(rapl_uj_delta, cpu_share_micros) <= rapl_uj_delta,
        cpu_share_micros >= WHOLE_CPU_SHARE_MICROS ==> rapl_fallback(
            rapl_uj_delta,
            cpu_share_micros,
        ) == rapl_uj_delta,
{
    let whole = WHOLE_CPU_SHARE_MICROS as int;
    let share = least(cpu_share_micros as int, whole);
    lemma_mul_inequality(share, whole, rapl_uj_delta as int);
    lemma_mul_is_commutative(share, rapl_uj_delta as int);
    lemma_mul_inequality(0, share, rapl_uj_delta as int);
    lemma_div_is_ordered(rapl_uj_delta * share, whole * rapl_uj_delta, whole);
    lemma_div_is_ordered(0, rapl_uj_delta * share, whole);
    lemma_div_multiples_vanish(rapl_uj_delta as int, whole);
    lemma_mul_is_commutative(rapl_uj_delta as int, whole);
}

/// The deterministic model and the burst model agree on a process that held the
/// accelerator for the whole window, where the latter's product fits in 64 bits.
pub proof fn attribution_agrees_with_burst_energy(
    total_power_uw: u64,
    idle_power_uw: u64,
    held_ns: u64,
    total_busy_ns: u64,
)
    requires
        held_ns <= total_busy_ns,
        burst_power(total_power_uw, idle_power_uw) * (held_ns as int
            % NANOSECONDS_PER_SECOND as int) <= u64::MAX,
    ensures
        deterministic_attribution(total_power_uw, idle_power_uw, held_ns, total_busy_ns)
            == burst_energy(total_power_uw, idle_power_uw, held_ns),
{
    window_energy_is_power_times_time(burst_power(total_power_uw, idle_power_uw), held_ns);
}

/// The sum of a sequence of durations.
pub open spec fn total_time(times_ns: Seq<u64>) -> int
    decreases times_ns.len(),
{
    if times_ns.len() == 0 {
        0
    } else {
        total_time(times_ns.drop_last()) + times_ns.last()
    }
}

/// The sum of what the deterministic model attributes to each of the durations.
pub open spec fn total_attributed(
    total_power_uw: u64,
    idle_power_uw: u64,
    times_ns: Seq<u64>,
    total_busy_ns: u64,
) -> int
    decreases times_ns.len(),
{
    if times_ns.len() == 0 {
        0
    } else {
        total_attributed(total_power_uw, idle_power_uw, times_ns.drop_last(), total_busy_ns)
            + deterministic_attribution(
            total_power_uw,
            idle_power_uw,
            times_ns.last(),
            total_busy_ns,
        )
    }
}

/// Processes that share the accelerator are never charged, all together, more
/// than the burst energy of the time they held it.
pub proof fn attribution_never_exceeds_burst_energy(
    total_power_uw: u64,
    idle_power_uw: u64,
    times_ns: Seq<u64>,
    total_busy_ns: u64,
)
    ensures
        total_attributed(total_power_uw, idle_power_uw, times_ns, total_busy_ns)
            <= burst_power(total_power_uw, idle_power_uw) * total_time(times_ns)
            / NANOSECONDS_PER_SECOND as int,
        0 <= total_time(times_ns),
    decreases times_ns.len(),
{
    let n = NANOSECONDS_PER_SECOND as int;
    let p = burst_power(total_power_uw, idle_power_uw) as int;
    if times_ns.len() == 0 {
        assert(p * 0 == 0) by (nonlinear_arith);
    } else {
        let rest = times_ns.drop_last();
        attribution_never_exceeds_burst_energy(total_power_uw, idle_power_uw, rest, total_busy_ns);
        let t = times_ns.last() as int;
        let held = least(t, total_busy_ns as int);
        let before = p * total_time(rest);
        lemma_mul_bounds(p, p, held, t);
        lemma_mul_bounds(p, p, 0, total_time(rest));
        lemma_div_is_ordered(p * held, p * t, n);
        assert(p * (total_time(rest) + t) == before + p * t) by (nonlinear_arith)
            requires
                before == p * total_time(rest),
        ;
        lemma_floors_add(before, p * t, n);
    }
}

/// The floors of two quotients add up to no more than the floor of the sum.
proof fn lemma_floors_add(a: int, b: int, n: int)
    requires
        n > 0,
    ensures
        a / n + b / n <= (a + b) / n,
{
    lemma_fundamental_div_mod(a, n);
    lemma_fundamental_div_mod(b, n);
    let whole = a / n + b / n;
    assert(n * whole <= a + b) by (nonlinear_arith)
        requires
            a == n * (a / n) + a % n,
            b == n * (b / n) + b % n,
            a % n >= 0,
            b % n >= 0,
            whole == a / n + b / n,
    ;
    lemma_div_is_ordered(n * whole, a + b, n);
    lemma_div_multiples_vanish(whole, n);
}

/// Clamping keeps what 64 bits can hold, and stops at the largest number that
/// they can.
pub proof fn clamping_keeps_what_fits(n: int)
    requires
        0 <= n,
    ensures
        n <= 0xffff_ffff_ffff_ffff ==> saturated(n) == n,
        n > 0xffff_ffff_ffff_ffff ==> saturated(n) == 0xffff_ffff_ffff_ffffu64,
{
}

/// A reading at or above idle is the idle power and the burst power together;
/// below idle there is no burst power.
pub proof fn burst_and_idle_make_up_the_reading(active_power_uw: u64, idle_power_uw: u64)
    ensures
        active_power_uw >= idle_power_uw ==> burst_power(active_power_uw, idle_power_uw)
            + idle_power_uw == active_power_uw,
        active_power_uw < idle_power_uw ==> burst_power(active_power_uw, idle_power_uw) == 0,
{
}

/// `q` is the whole part of `a / n` exactly when `n` times `q` is the last multiple
/// that does not exceed `a`.
proof fn lemma_whole_part(a: int, n: int)
    requires
        0 < n,
    ensures
        (a / n) * n <= a < (a / n + 1) * n,
{
    lemma_fundamental_div_mod(a, n);
    lemma_mul_is_commutative(n, a / n);
    assert((a / n + 1) * n == (a / n) * n + n) by (nonlinear_arith);
}

/// The window energy is the whole number of micro-joules in power times time: no
/// more than the product, and less than one micro-joule below it. This holds
/// where the result and the product for the fraction of a second fit in 64 bits.
pub proof fn window_energy_is_the_whole_part(power_uw: u64, window_ns: u64)
    requires
        power_uw * (window_ns as int % 1_000_000_000) <= 0xffff_ffff_ffff_ffff,
        power_uw * window_ns < 0x1_0000_0000_0000_0000 * 1_000_000_000,
    ensures
        window_energy(power_uw, window_ns) * 1_000_000_000 <= power_uw * window_ns < (window_energy(
            power_uw,
            window_ns,
        ) + 1) * 1_000_000_000,
{
    let product = power_uw * window_ns;
    window_energy_is_power_times_time(power_uw, window_ns);
    lemma_whole_part(product, 1_000_000_000);
    assert(product >= 0) by (nonlinear_arith)
        requires
            product == power_uw * window_ns,
            power_uw >= 0,
            window_ns >= 0,
    ;
}

/// Beyond these limits the window energy is clamped: to the largest number where
/// the whole seconds alone reach it, and else to what the largest product for the
/// fraction of a second adds.
pub proof fn window_energy_beyond_the_limits(power_uw: u64, window_ns: u64)
    ensures
        power_uw * (window_ns as int / 1_000_000_000) >= 0xffff_ffff_ffff_ffff ==> window_energy(
            power_uw,
            window_ns,
        ) == 0xffff_ffff_ffff_ffffu64,
        power_uw * (window_ns as int % 1_000_000_000) <= 0xffff_ffff_ffff_ffff && power_uw
            * window_ns >= 0x1_0000_0000_0000_0000 * 1_000_000_000 ==> window_energy(
            power_uw,
            window_ns,
        ) == 0xffff_ffff_ffff_ffffu64,
        power_uw * (window_ns as int % 1_000_000_000) > 0xffff_ffff_ffff_ffff && power_uw * (
        window_ns as int / 1_000_000_000) + 18_446_744_073 <= 0xffff_ffff_ffff_ffff
            ==> window_energy(power_uw, window_ns) == power_uw * (window_ns as int / 1_000_000_000)
            + 18_446_744_073,
        power_uw * (window_ns as int % 1_000_000_000) > 0xffff_ffff_ffff_ffff && power_uw * (
        window_ns as int / 1_000_000_000) + 18_446_744_073 > 0xffff_ffff_ffff_ffff
            ==> window_energy(power_uw, window_ns) == 0xffff_ffff_ffff_ffffu64,
{
    let whole = power_uw * (window_ns as int / 1_000_000_000);
    let fraction = power_uw * (window_ns as int % 1_000_000_000);
    assert(whole >= 0 && fraction >= 0) by (nonlinear_arith)
        requires
            whole == power_uw * (window_ns as int / 1_000_000_000),
            fraction == power_uw * (window_ns as int % 1_000_000_000),
            power_uw >= 0,
            window_ns >= 0,
    ;
    if fraction <= 0xffff_ffff_ffff_ffff {
        window_energy_is_power_times_time(power_uw, window_ns);
        if power_uw * window_ns >= 0x1_0000_0000_0000_0000 * 1_000_000_000 {
            lemma_div_is_ordered(
                0x1_0000_0000_0000_0000int * 1_000_000_000int,
                power_uw * window_ns,
                1_000_000_000,
            );
        }
    }
}

/// The burst energy is the whole number of micro-joules in the power above idle
/// times the window; there is none at or below idle.
pub proof fn burst_energy_is_the_whole_part(
    active_power_uw: u64,
    idle_power_uw: u64,
    window_ns: u64,
)
    requires
        (active_power_uw - idle_power_uw) * (window_ns as int % 1_000_000_000)
            <= 0xffff_ffff_ffff_ffff,
        (active_power_uw - idle_power_uw) * window_ns < 0x1_0000_0000_0000_0000 * 1_000_000_000,
    ensures
        active_power_uw >= idle_power_uw ==> burst_energy(
            active_power_uw,
            idle_power_uw,
            window_ns,
        ) * 1_000_000_000 <= (active_power_uw - idle_power_uw) * window_ns < (burst_energy(
            active_power_uw,
            idle_power_uw,
            window_ns,
        ) + 1) * 1_000_000_000,
        active_power_uw <= idle_power_uw ==> burst_energy(
            active_power_uw,
            idle_power_uw,
            window_ns,
        ) == 0,
{
    if active_power_uw >= idle_power_uw {
        window_energy_is_the_whole_part((active_power_uw - idle_power_uw) as u64, window_ns);
    }
    assert(window_energy(0, window_ns) == 0);
}

/// Two windows one after the other yield, but for one micro-joule of
/// rounding, what the joined window yields.
pub proof fn window_energy_is_additive(power_uw: u64, first_ns: u64, second_ns: u64)
    requires
        first_ns + second_ns <= 0xffff_ffff_ffff_ffff,
        power_uw * 1_000_000_000 <= 0xffff_ffff_ffff_ffff,
        power_uw * (first_ns + second_ns) < 0x1_0000_0000_0000_0000 * 1_000_000_000,
    ensures
        window_energy(power_uw, first_ns) + window_energy(power_uw, second_ns) <= window_energy(
            power_uw,
            (first_ns + second_ns) as u64,
        ) <= window_energy(power_uw, first_ns) + window_energy(power_uw, second_ns) + 1,
{
    let p = power_uw as int;
    let joined = (first_ns + second_ns) as u64;
    assert forall|r: int| 0 <= r < 1_000_000_000 implies #[trigger] (p * r)
        <= 0xffff_ffff_ffff_ffff by {
        lemma_mul_bounds(p, p, r, 1_000_000_000);
    }
    assert(p * (first_ns as int % 1_000_000_000) <= 0xffff_ffff_ffff_ffff);
    assert(p * (second_ns as int % 1_000_000_000) <= 0xffff_ffff_ffff_ffff);
    assert(p * (joined as int % 1_000_000_000) <= 0xffff_ffff_ffff_ffff);
    lemma_mul_bounds(p, p, first_ns as int, joined as int);
    lemma_mul_bounds(p, p, second_ns as int, joined as int);
    assert(p * (first_ns + second_ns) == p * first_ns + p * second_ns) by (nonlinear_arith);
    window_energy_is_the_whole_part(power_uw, first_ns);
    window_energy_is_the_whole_part(power_uw, second_ns);
    window_energy_is_the_whole_part(power_uw, joined);
}

/// The deterministic model attributes the whole number of micro-joules in the
/// power above idle times the time that the process held the accelerator, as far
/// as 64 bits can hold it; none at or below idle, and for a time beyond the busy
/// time what it attributes for the busy time.
pub proof fn attribution_is_the_whole_part(
    total_power_uw: u64,
    idle_power_uw: u64,
    held_ns: u64,
    total_busy_ns: u64,
)
    ensures
        held_ns <= total_busy_ns && total_power_uw >= idle_power_uw && (total_power_uw
            - idle_power_uw) * held_ns < 0x1_0000_0000_0000_0000 * 1_000_000_000
            ==> deterministic_attribution(total_power_uw, idle_power_uw, held_ns, total_busy_ns)
            * 1_000_000_000 <= (total_power_uw - idle_power_uw) * held_ns < (
        deterministic_attribution(total_power_uw, idle_power_uw, held_ns, total_busy_ns) + 1)
            * 1_000_000_000,
        held_ns <= total_busy_ns && total_power_uw >= idle_power_uw && (total_power_uw
            - idle_power_uw) * held_ns >= 0x1_0000_0000_0000_0000 * 1_000_000_000
            ==> deterministic_attribution(total_power_uw, idle_power_uw, held_ns, total_busy_ns)
            == 0xffff_ffff_ffff_ffffu64,
        total_power_uw <= idle_power_uw ==> deterministic_attribution(
            total_power_uw,
            idle_power_uw,
            held_ns,
            total_busy_ns,
        ) == 0,
        held_ns > total_busy_ns ==> deterministic_attribution(
            total_power_uw,
            idle_power_uw,
            held_ns,
            total_busy_ns,
        ) == deterministic_attribution(
            total_power_uw,
            idle_power_uw,
            total_busy_ns,
            total_busy_ns,
        ),
{
    let held = least(held_ns as int, total_busy_ns as int);
    assert(0 * held == 0) by (nonlinear_arith);
    if total_power_uw >= idle_power_uw {
        let product = (total_power_uw - idle_power_uw) * held_ns;
        assert(product >= 0) by (nonlinear_arith)
            requires
                product == (total_power_uw - idle_power_uw) * held_ns,
                total_power_uw >= idle_power_uw,
                held_ns >= 0,
        ;
        lemma_whole_part(product, 1_000_000_000);
        if product >= 0x1_0000_0000_0000_0000 * 1_000_000_000 {
            lemma_div_is_ordered(
                0x1_0000_0000_0000_0000int * 1_000_000_000int,
                product,
                1_000_000_000,
            );
        }
    }
}

/// A CPU-time share owns the whole number of micro-joules in its part, in
/// millionths, of the package delta; a share beyond the whole owns the delta.
pub proof fn rapl_fallback_is_the_whole_part(rapl_uj_delta: u64, cpu_share_micros: u32)
    ensures
        cpu_share_micros <= 1_000_000 ==> rapl_fallback(rapl_uj_delta, cpu_share_micros)
            * 1_000_000 <= rapl_uj_delta * cpu_share_micros < (rapl_fallback(
            rapl_uj_delta,
            cpu_share_micros,
        ) + 1) * 1_000_000,
        cpu_share_micros >= 1_000_000 ==> rapl_fallback(rapl_uj_delta, cpu_share_micros)
            == rapl_uj_delta,
{
    rapl_fallback_never_exceeds_the_delta(rapl_uj_delta, cpu_share_micros);
    lemma_whole_part(rapl_uj_delta * cpu_share_micros, 1_000_000);
}

/// Milliwatts times milliseconds are micro-joules, as far as 64 bits can hold them.
pub proof fn nvml_energy_is_the_product(power_mw: u64, dt_ms: u64)
    ensures
        power_mw * dt_ms <= 0xffff_ffff_ffff_ffff ==> nvml_window_energy(power_mw, dt_ms)
            == power_mw * dt_ms,
        power_mw * dt_ms > 0xffff_ffff_ffff_ffff ==> nvml_window_energy(power_mw, dt_ms)
            == 0xffff_ffff_ffff_ffffu64,
{
    assert(power_mw * dt_ms >= 0) by (nonlinear_arith)
        requires
            power_mw >= 0,
            dt_ms >= 0,
    ;
}

/// The burst energy is the window energy of the power above idle, also where 64 bits
/// cannot hold the products.
pub proof fn burst_energy_is_that_of_the_power_above_idle(
    active_power_uw: u64,
    idle_power_uw: u64,
    window_ns: u64,
)
    requires
        active_power_uw >= idle_power_uw,
    ensures
        burst_energy(active_power_uw, idle_power_uw, window_ns) == window_energy(
            (active_power_uw - idle_power_uw) as u64,
            window_ns,
        ),
{
}

} // verus!
