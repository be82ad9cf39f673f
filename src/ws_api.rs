use vstd::prelude::*;

verus! {

/// The route on which clients subscribe to delay records.
pub const DELAYS_ROUTE: &'static str = "/api/ws/delays";

/// How far back a new subscriber is sent records when it asks for nothing else.
pub const DEFAULT_HISTORIC_SECONDS: u64 = 3600;

/// The farthest back a subscriber can ask for records.
pub const MAX_HISTORIC_SECONDS: u64 = 3600 * 24 * 31;

/// The seconds of history to send a new subscriber who asked for `requested`
/// seconds, or for nothing readable.
pub fn historic_seconds(requested: Option<u64>) -> (r: u64)
    ensures
        r == match requested {
            Some(h) => if h < MAX_HISTORIC_SECONDS {
                h
            } else {
                MAX_HISTORIC_SECONDS
            },
            None => DEFAULT_HISTORIC_SECONDS,
        },
{
    match requested {
        Some(h) => if h < MAX_HISTORIC_SECONDS {
            h
        } else {
            MAX_HISTORIC_SECONDS
        },
        None => DEFAULT_HISTORIC_SECONDS,
    }
}

} // verus!
