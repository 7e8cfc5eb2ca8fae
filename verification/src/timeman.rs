use vstd::prelude::*;

verus! {

/// The time elapsed since `t`: `Instant::elapsed`. It reads the clock, so nothing is claimed
/// of the result.
#[verifier::external_body]
fn instant_elapsed(t: &std::time::Instant) -> (r: std::time::Duration) {
    t.elapsed()
}

/// The whole seconds of a duration: `Duration::as_secs`. Nothing is claimed of the result,
/// as the duration is opaque here.
#[verifier::external_body]
fn duration_as_secs(d: &std::time::Duration) -> (r: u64) {
    d.as_secs()
}

/// The milliseconds past the whole seconds of a duration: `Duration::subsec_millis`, which
/// std documents to be below one thousand.
#[verifier::external_body]
fn duration_subsec_millis(d: &std::time::Duration) -> (r: u32)
    ensures r < 1000,
{
    d.subsec_millis()
}

/// The time budget of a move: when the clock was started, and the optimum and maximum time
/// to spend, in milliseconds.
#[derive(Clone, Copy)]
pub struct TimeManagement {
    start_time: Option<std::time::Instant>,
    optimum_time_milli: u64,
    maximum_time_milli: u64,
}

/// The milliseconds of `secs` seconds and `subsec_millis` milliseconds, in the 64-bit
/// arithmetic of the word (wrapping past `u64::MAX`), read as an `i64`.
pub open spec fn spec_elapsed_millis(secs: u64, subsec_millis: u32) -> i64 {
    vstd::wrapping::u64_specs::wrapping_add(
        vstd::wrapping::u64_specs::wrapping_mul(secs, 1000),
        subsec_millis as u64,
    ) as i64
}

/// The time left to plan with: the clock plus 49 further increments, less 10 ms of overhead
/// for each of 52 moves, at least 1, scaled by `slow_mover` percent (rounding toward zero).
pub open spec fn spec_time_left(time_millis: int, inc_millis: int, slow_mover: int) -> int {
    let base = time_millis + inc_millis * 49 - 520;
    let base = if base < 1 { 1 } else { base };
    crate::strings::trunc_div(base * slow_mover, 100)
}

impl TimeManagement {
    pub closed spec fn spec_start_time(self) -> Option<std::time::Instant> {
        self.start_time
    }

    pub closed spec fn spec_optimum(self) -> u64 {
        self.optimum_time_milli
    }

    pub closed spec fn spec_maximum(self) -> u64 {
        self.maximum_time_milli
    }

    pub fn new() -> (r: TimeManagement)
        ensures
            r.spec_start_time() is None,
            r.spec_optimum() == 0,
            r.spec_maximum() == 0,
    {
        TimeManagement { start_time: None, optimum_time_milli: 0, maximum_time_milli: 0 }
    }

    /// The time left to plan with (see `spec_time_left`), from the clock and the increment
    /// of the side to move and the `Slow_Mover` option.
    pub fn time_left(time_millis: i64, inc_millis: i64, slow_mover: i64) -> (r: i64)
        requires
            i64::MIN <= inc_millis * 49 <= i64::MAX,
            i64::MIN <= time_millis + inc_millis * 49 <= i64::MAX,
            i64::MIN <= time_millis + inc_millis * 49 - 520 <= i64::MAX,
            ({
                let base = time_millis + inc_millis * 49 - 520;
                let base = if base < 1 { 1 } else { base };
                i64::MIN <= base * slow_mover <= i64::MAX
            }),
        ensures
            r == spec_time_left(time_millis as int, inc_millis as int, slow_mover as int),
    {
        let sum = time_millis + inc_millis * 49 - 10 * 52;
        let base = if sum < 1 { 1 } else { sum };
        let p = base * slow_mover;
        let q: i128 = if p >= 0 { (p as i128) / 100 } else { -((-(p as i128)) / 100) };
        q as i64
    }

    /// Sets the start of the clock and the time budget, in milliseconds.
    pub fn set_budget(&mut self, start_time: Option<std::time::Instant>, optimum_millis: u64, maximum_millis: u64)
        ensures
            final(self).spec_start_time() == start_time,
            final(self).spec_optimum() == optimum_millis,
            final(self).spec_maximum() == maximum_millis,
    {
        self.start_time = start_time;
        self.optimum_time_milli = optimum_millis;
        self.maximum_time_milli = maximum_millis;
    }

    pub fn optimum_millis(&self) -> (r: i64)
        ensures r == self.spec_optimum() as i64,
    {
        self.optimum_time_milli as i64
    }

    pub fn maximum_millis(&self) -> (r: i64)
        ensures r == self.spec_maximum() as i64,
    {
        self.maximum_time_milli as i64
    }

    /// The milliseconds of `secs` seconds and `subsec_millis` milliseconds (see
    /// `spec_elapsed_millis`).
    pub fn elapsed_millis(secs: u64, subsec_millis: u32) -> (r: i64)
        ensures r == spec_elapsed_millis(secs, subsec_millis),
    {
        secs.wrapping_mul(1000).wrapping_add(subsec_millis as u64) as i64
    }

    /// The milliseconds since the clock was started: the whole seconds and the milliseconds
    /// past them of the time read from the clock, as `elapsed_millis` counts them. The clock is
    /// read, so which duration that is depends on when the call is made.
    pub fn elapsed(&self) -> (r: i64)
        requires
            self.spec_start_time() is Some,
        ensures
            exists|secs: u64, ms: u32| ms < 1000 && r == spec_elapsed_millis(secs, ms),
    {
        let t = self.start_time.unwrap();
        let d = instant_elapsed(&t);
        let secs = duration_as_secs(&d);
        let ms = duration_subsec_millis(&d);
        Self::elapsed_millis(secs, ms)
    }
}

} // verus!
