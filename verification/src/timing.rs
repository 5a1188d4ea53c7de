//! The display clock and the other decisions that depend on the time. All times
//! count nanoseconds on one clock of the editor.

use vstd::prelude::*;

verus! {

/// A tick that comes this late starts the cadence anew.
pub const TICK_LATENESS_NANOS: u64 = 100_000_000;

/// How long a script has to rest before it is run again.
pub const RELOAD_DELAY_NANOS: u64 = 250_000_000;

/// When the next picture is due. Playback repaints follow a fixed cadence: the
/// first of the times `previous`, `previous + period`, .. that is still to come,
/// unless the last tick was missed by too much, or there was none.
pub open spec fn tick_after(previous: Option<u64>, now: u64, period: u64) -> int {
    match previous {
        Some(previous) if now < previous + TICK_LATENESS_NANOS => if now < previous {
            previous as int
        } else {
            previous + ((now - previous) / (period as int) + 1) * period
        },
        _ => now + period,
    }
}

pub fn next_tick_deadline(previous: Option<u64>, now: u64, period: u64) -> (deadline: u64)
    requires
        period > 0,
        now + period <= u64::MAX,
        previous matches Some(previous) ==> previous + TICK_LATENESS_NANOS <= u64::MAX,
    ensures
        deadline == tick_after(previous, now, period),
{
    match previous {
        Some(previous) if now < previous + TICK_LATENESS_NANOS => {
            let mut next: u64 = previous;
            let ghost mut k: int = 0;
            while next <= now
                invariant
                    k >= 0,
                    period > 0,
                    now + period <= u64::MAX,
                    next == previous + k * period,
                    k == 0 || next - period <= now,
                decreases now + period - next,
            {
                next = next + period;
                proof {
                    assert((k + 1) * period == k * period + period) by (nonlinear_arith);
                    k = k + 1;
                }
            }
            proof {
                if previous <= now {
                    let late = now - previous;
                    let p = period as int;
                    assert(k > 0) by {
                        if k == 0 {
                            assert(k * period == 0) by (nonlinear_arith)
                                requires
                                    k == 0,
                            ;
                        }
                    }
                    assert((k - 1) * p == k * p - p) by (nonlinear_arith);
                    vstd::arithmetic::div_mod::lemma_fundamental_div_mod_converse(
                        late,
                        p,
                        k - 1,
                        late - (k - 1) * p,
                    );
                } else {
                    assert(k == 0) by {
                        if k > 0 {
                            assert(k * period >= period) by (nonlinear_arith)
                                requires
                                    k > 0,
                                    period > 0,
                            ;
                        }
                    }
                    assert(k * period == 0) by (nonlinear_arith)
                        requires
                            k == 0,
                    ;
                }
            }
            next
        },
        _ => now + period,
    }
}

/// The next picture is due in the future, and, unless the previous deadline still
/// lies ahead, no later than one period from now. A deadline that was not missed
/// by too much stays in step with the one before.
pub proof fn ticks_keep_their_cadence(previous: Option<u64>, now: u64, period: u64)
    requires
        period > 0,
    ensures
        tick_after(previous, now, period) > now,
        (previous matches Some(last) ==> last <= now) ==> tick_after(previous, now, period)
            <= now + period,
        previous matches Some(last) ==> now < last + TICK_LATENESS_NANOS ==> (tick_after(
            previous,
            now,
            period,
        ) - last) % (period as int) == 0,
{
    if let Some(previous) = previous {
        let p = period as int;
        if previous <= now && now < previous + TICK_LATENESS_NANOS {
            let late = now - previous;
            let whole = late / p;
            vstd::arithmetic::div_mod::lemma_fundamental_div_mod(late, p);
            vstd::arithmetic::div_mod::lemma_mod_bound(late, p);
            assert((whole + 1) * p == p * whole + p) by (nonlinear_arith);
            vstd::arithmetic::div_mod::lemma_mod_multiples_basic(whole + 1, p);
        }
        vstd::arithmetic::div_mod::lemma_small_mod(0, p as nat);
    }
}

/// Whether a script that last changed at `changed_at` is to be run again now.
pub fn reload_is_due(changed_at: Option<u64>, now: u64) -> (due: bool)
    ensures
        due <==> (changed_at matches Some(changed_at) && now - changed_at >= RELOAD_DELAY_NANOS),
{
    match changed_at {
        Some(changed_at) => now.saturating_sub(changed_at) >= RELOAD_DELAY_NANOS,
        None => false,
    }
}

/// The first tick, and one that comes 100 ms or more after its deadline, is followed by
/// the next after one period. A deadline that lies ahead stays. Else the next one is
/// the earliest in step with the last that lies ahead.
pub proof fn ticks_catch_up_without_bursting(previous: Option<u64>, now: u64, period: u64, k: int)
    requires
        period > 0,
    ensures
        previous is None ==> tick_after(previous, now, period) == now + period,
        previous matches Some(last) ==> {
            &&& now >= last + 100_000_000 ==> tick_after(previous, now, period) == now + period
            &&& now < last ==> tick_after(previous, now, period) == last
            &&& last <= now < last + 100_000_000 && k >= 0 && last + k * period > now ==> now
                < tick_after(previous, now, period) <= last + k * period
        },
{
    ticks_keep_their_cadence(previous, now, period);
    if let Some(last) = previous {
        if last <= now && now < last + 100_000_000 && k >= 0 && last + k * period > now {
            let p = period as int;
            let late = now - last;
            let whole = late / p;
            vstd::arithmetic::div_mod::lemma_fundamental_div_mod(late, p);
            vstd::arithmetic::div_mod::lemma_mod_bound(late, p);
            assert(whole < k) by (nonlinear_arith)
                requires
                    k * p > late,
                    late == p * whole + late % p,
                    late % p >= 0,
                    p > 0,
            ;
            assert((whole + 1) * p <= k * p) by (nonlinear_arith)
                requires
                    whole + 1 <= k,
                    p > 0,
            ;
        }
    }
}

} // verus!
