use vstd::prelude::*;

use crate::types::CreateTest;

verus! {

/// Whether a string is a well-formed request target under the URI grammar
/// that the HTTP client accepts.
pub uninterp spec fn uri_ok(s: Seq<char>) -> bool;

/// Relies on the `FromStr` parser of hyper::Uri: whether a string parses as
/// a URI is a function of its characters alone.
#[verifier::external_body]
fn parse_uri_ok(s: &str) -> (r: bool)
    ensures
        r == uri_ok(s@),
{
    s.parse::<hyper::Uri>().is_ok()
}

/// The ways a test description can be rejected before any worker spawns.
#[derive(Clone, Copy, Debug, PartialEq, Eq, Structural)]
pub enum ConfigError {
    /// The target URL does not parse, so no request could ever be built.
    InvalidUrl,
    /// `tasks * seconds` overflows the counters the run keeps, so the
    /// summary volume could not be accounted for.
    ExcessiveLoad,
}

/// A test description that validation accepts: its URL parses and its total
/// summary volume `tasks * seconds` stays countable.
pub open spec fn spec_valid_test(t: CreateTest) -> bool {
    &&& uri_ok(t.url@)
    &&& t.tasks * t.seconds <= u64::MAX as int
}

/// Checks a test description before the run starts. A configuration error is
/// surfaced here, once, rather than by a worker in mid-run; a start instant
/// in the past is deliberately not an error (the run then starts at once).
pub fn validate_test(test: &CreateTest) -> (r: Result<(), ConfigError>)
    ensures
        r is Ok <==> spec_valid_test(*test),
        r == Result::<(), ConfigError>::Err(ConfigError::InvalidUrl) <==> !uri_ok(test.url@),
        r == Result::<(), ConfigError>::Err(ConfigError::ExcessiveLoad) <==> (uri_ok(test.url@)
            && test.tasks * test.seconds > u64::MAX as int),
{
    if !parse_uri_ok(test.url.as_str()) {
        return Result::Err(ConfigError::InvalidUrl);
    }
    match test.tasks.checked_mul(test.seconds) {
        Option::Some(_) => Result::Ok(()),
        Option::None => Result::Err(ConfigError::ExcessiveLoad),
    }
}

/// How a run is laid out before any worker starts: how many workers to
/// spawn, how many summary messages the collector must drain before it may
/// return, and the capacity of the hand-off channel. The channel holds the
/// whole expected volume, so no producer ever stalls on a consumer that has
/// fallen behind.
#[derive(Clone, Copy, Debug, PartialEq, Eq, Structural)]
pub struct RunPlan {
    pub workers: u64,
    pub expected_messages: u64,
    pub channel_capacity: u64,
}

/// Lays out a run. A degenerate test (`tasks` or `seconds` zero) spawns no
/// worker and expects no message: the run returns empty at once instead of
/// waiting on a channel that nothing will ever feed.
pub fn run_plan(tasks: u64, seconds: u64) -> (r: RunPlan)
    requires
        tasks * seconds <= u64::MAX as int,
    ensures
        tasks == 0 || seconds == 0 ==> r == (RunPlan {
            workers: 0,
            expected_messages: 0,
            channel_capacity: 0,
        }),
        tasks > 0 && seconds > 0 ==> r == (RunPlan {
            workers: tasks,
            expected_messages: (tasks * seconds) as u64,
            channel_capacity: (tasks * seconds) as u64,
        }),
{
    if tasks == 0 || seconds == 0 {
        RunPlan { workers: 0, expected_messages: 0, channel_capacity: 0 }
    } else {
        let volume = tasks * seconds;
        RunPlan { workers: tasks, expected_messages: volume, channel_capacity: volume }
    }
}

} // verus!
