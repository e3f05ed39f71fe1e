use vstd::prelude::*;

verus! {

/// Relies on chrono::Utc::now and chrono::DateTime::timestamp_micros: the
/// current UTC wall-clock reading as non-leap microseconds since the Unix
/// epoch. Nothing is assumed of the value, since it depends on the system
/// clock; chrono aborts the process if the clock reads before the epoch.
#[verifier::external_body]
fn utc_now_micros() -> i64 {
    chrono::Utc::now().timestamp_micros()
}

/// How long a run must still wait before it may start: the distance from
/// `now` to the requested start instant, in microseconds. An absent instant
/// and an instant that already passed both mean the run starts at once; a
/// past instant is deliberately a zero wait, not an error.
pub fn wait_micros(start_at: Option<i64>, now: i64) -> (r: u64)
    ensures
        match start_at {
            Option::None => r == 0,
            Option::Some(t) => if t <= now {
                r == 0
            } else {
                r == t - now
            },
        },
{
    match start_at {
        Option::None => 0,
        Option::Some(t) => {
            if t <= now {
                0
            } else {
                let diff: i128 = (t as i128) - (now as i128);
                proof {
                    assert(0 < diff <= u64::MAX as i128);
                }
                diff as u64
            }
        },
    }
}

/// The wait the scheduler applies for an optional start instant, measured
/// against the clock at the moment of the call. Whatever the clock reads,
/// a run with no start instant never waits.
pub fn effective_wait_micros(start_at: Option<i64>) -> (r: u64)
    ensures
        start_at is None ==> r == 0,
{
    let now = utc_now_micros();
    wait_micros(start_at, now)
}

} // verus!
