//! Fixed-timestep pacing for the tick loop.
//!
//! The loop accumulates wall time and runs whole logical frames until the
//! simulation clock catches up, so simulated time trails wall time by less
//! than one frame and never overtakes it.

use vstd::prelude::*;

verus! {

/// How many whole frames of `frametime` microseconds fit between the
/// simulation clock `update_ts` and the wall clock `now`.
pub fn catchup_steps(update_ts: u64, now: u64, frametime: u64) -> (r: u64)
    requires
        1 <= frametime,
    ensures
        update_ts <= now ==> r == (now - update_ts) as int / frametime as int,
        update_ts <= now ==> update_ts + r * frametime <= now < update_ts + (r + 1) * frametime,
        now < update_ts ==> r == 0,
{
    if now < update_ts {
        return 0;
    }
    let r = (now - update_ts) / frametime;
    proof {
        let gap = (now - update_ts) as int;
        let ft = frametime as int;
        crate::num::lemma_floor_mul(gap, ft);
        assert((gap / ft) * ft == ft * (gap / ft)) by (nonlinear_arith);
        assert((gap / ft + 1) * ft == (gap / ft) * ft + ft) by (nonlinear_arith);
    }
    r
}

/// The simulation clock after running the catch-up frames.
pub fn advance_clock(update_ts: u64, steps: u64, frametime: u64) -> (r: u64)
    requires
        update_ts + steps * frametime <= u64::MAX,
    ensures
        r == update_ts + steps * frametime,
{
    let mut ts = update_ts;
    let mut k: u64 = 0;
    while k < steps
        invariant
            k <= steps,
            ts == update_ts + k * frametime,
            update_ts + steps * frametime <= u64::MAX,
        decreases steps - k,
    {
        proof {
            assert((k + 1) * frametime == k * frametime + frametime) by (nonlinear_arith);
            assert(k * frametime <= steps * frametime) by (nonlinear_arith)
                requires
                    k < steps,
                    frametime >= 0,
            ;
            assert((k + 1) * frametime <= steps * frametime) by (nonlinear_arith)
                requires
                    k + 1 <= steps,
                    frametime >= 0,
            ;
        }
        ts = ts + frametime;
        k = k + 1;
    }
    ts
}

} // verus!
