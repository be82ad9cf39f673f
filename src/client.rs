use vstd::prelude::*;

use crate::models::overview_time;
use crate::position::{locate_on_route, position_on_route};
use crate::transport::TripOverview;

verus! {

/// The position and delay of a trip as shown to the web client.
#[derive(Debug, Clone)]
pub struct ClientMsg {
    pub trip_id: String,
    /// Microseconds since the Unix epoch.
    pub time: i64,
    pub previous_station: Option<i64>,
    pub next_station: Option<i64>,
    /// In units of `SEGMENT_SCALE`.
    pub percentage_segment: i64,
    /// Seconds.
    pub delay: i64,
}

/// Converts a trip overview into a message for the web client.
///
/// `fetched_at` stands in for the overview's instant where the overview carries
/// none. The trip must not have left all of its stops.
pub fn client_msg_from_trip_overview(to: TripOverview, fetched_at: i64) -> (r: ClientMsg)
    requires
        position_on_route(to.trip.stopovers@, overview_time(to, fetched_at) as int) is Some,
    ensures
        ({
            let p = position_on_route(to.trip.stopovers@, overview_time(to, fetched_at) as int)->Some_0;
            r == ClientMsg {
                trip_id: to.trip.id,
                time: overview_time(to, fetched_at),
                previous_station: p.previous_station,
                next_station: Some(p.next_station),
                percentage_segment: p.percentage_segment,
                delay: match p.delay {
                    Some(d) => d,
                    None => 0,
                },
            }
        }),
{
    let current_time = match to.realtime_data_updated_at {
        Some(ct) => ct,
        None => fetched_at,
    };
    let position = locate_on_route(&to.trip.stopovers, current_time);
    let p = position.unwrap();
    ClientMsg {
        trip_id: to.trip.id,
        time: current_time,
        previous_station: p.previous_station,
        next_station: Some(p.next_station),
        percentage_segment: p.percentage_segment,
        delay: match p.delay {
            Some(d) => d,
            None => 0,
        },
    }
}

} // verus!
