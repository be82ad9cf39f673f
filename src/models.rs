use vstd::prelude::*;

use crate::position::{locate_on_route, position_on_route};
use crate::transport::TripOverview;
use crate::trip_map::TripMap;

verus! {

/// Microseconds in one second; every timestamp of this crate counts microseconds
/// since the Unix epoch.
pub const MICROS_PER_SECOND: i64 = 1_000_000;

/// The fixed-point unit of a position within a track segment: `0` is the segment's
/// start, `SEGMENT_SCALE` its end.
pub const SEGMENT_SCALE: i64 = 1_000_000_000;

/// Integer division rounded toward zero, as Rust's `/` does on signed integers.
pub open spec fn div_toward_zero(a: int, b: int) -> int
    recommends
        b > 0,
{
    if a >= 0 {
        a / b
    } else {
        -((-a) / b)
    }
}

/// The whole seconds in a span of microseconds, rounded toward zero.
pub open spec fn whole_seconds(micros: int) -> int {
    div_toward_zero(micros, MICROS_PER_SECOND as int)
}

/// The instant halfway between two instants, rounded toward the first one.
pub open spec fn midpoint(a: int, b: int) -> int {
    a + div_toward_zero(b - a, 2)
}

/// A segment position that lies within the segment.
pub open spec fn segment_position_in_range(p: int) -> bool {
    0 <= p <= SEGMENT_SCALE
}

pub proof fn lemma_div_toward_zero_bounds(a: int, b: int)
    requires
        b > 0,
    ensures
        a >= 0 ==> 0 <= div_toward_zero(a, b) <= a,
        a < 0 ==> a <= div_toward_zero(a, b) <= 0,
        a >= 0 ==> b * div_toward_zero(a, b) <= a < b * div_toward_zero(a, b) + b,
        a < 0 ==> b * div_toward_zero(a, b) - b < a <= b * div_toward_zero(a, b),
{
    let m = if a >= 0 {
        a
    } else {
        -a
    };
    vstd::arithmetic::div_mod::lemma_fundamental_div_mod(m, b);
    vstd::arithmetic::div_mod::lemma_mod_pos_bound(m, b);
    assert(0 <= m / b <= m) by (nonlinear_arith)
        requires
            m == b * (m / b) + (m % b),
            0 <= m % b < b,
            m >= 0,
            b > 0,
    ;
    if a < 0 {
        assert(b * (-(m / b)) == -(b * (m / b))) by (nonlinear_arith);
    }
}

/// Rust's `/` on a signed dividend and a positive divisor.
pub fn div_toward_zero_i128(a: i128, b: i128) -> (q: i128)
    requires
        b > 0,
        a > i128::MIN,
    ensures
        q == div_toward_zero(a as int, b as int),
{
    proof {
        lemma_div_toward_zero_bounds(a as int, b as int);
    }
    if a >= 0 {
        a / b
    } else {
        let n: i128 = -a;
        -(n / b)
    }
}

/// A delay record as storage hands it back, with the row id storage assigned.
#[derive(Debug, Clone, PartialEq)]
pub struct DelayRecordWithID {
    pub id: i64,
    pub fetched_json_id: i64,
    pub trip_id: String,
    pub time: i64,
    pub previous_station: i64,
    pub next_station: i64,
    pub percentage_segment: i64,
    pub delay: i64,
}

/// One observation of a trip: the segment between two stations that it occupies,
/// how far along that segment it is, and its delay in seconds.
#[derive(Debug, Clone, PartialEq)]
pub struct DelayRecord {
    /// The raw capture row the record was derived from.
    pub fetched_json_id: i64,
    pub trip_id: String,
    /// Microseconds since the Unix epoch.
    pub time: i64,
    pub previous_station: i64,
    pub next_station: i64,
    /// Fraction of the segment already passed, in units of `SEGMENT_SCALE`.
    pub percentage_segment: i64,
    /// Seconds of delay.
    pub delay: i64,
}

impl DelayRecord {
    /// The record's segment position lies within its segment.
    pub open spec fn is_valid(&self) -> bool {
        segment_position_in_range(self.percentage_segment as int)
    }

    /// A field-by-field copy.
    pub fn duplicate(&self) -> (r: DelayRecord)
        ensures
            r == *self,
    {
        DelayRecord {
            fetched_json_id: self.fetched_json_id,
            trip_id: self.trip_id.clone(),
            time: self.time,
            previous_station: self.previous_station,
            next_station: self.next_station,
            percentage_segment: self.percentage_segment,
            delay: self.delay,
        }
    }

    /// Determines whether this record might be redundant compared to the latest
    /// record of its trip: it stays between the same two stations with the same
    /// delay. The record becomes the latest of its trip in every case.
    ///
    /// `None`: can be skipped. `Some(None)`: the first record of its trip, cannot
    /// be skipped. `Some(Some(latest))`: both the latest and this one are relevant.
    pub fn might_be_redundant(&self, latest_drs: &mut TripMap<DelayRecord>) -> (r: Option<
        Option<DelayRecord>,
    >)
        ensures
            final(latest_drs)@ == old(latest_drs)@.insert(self.trip_id@, *self),
            !old(latest_drs)@.contains_key(self.trip_id@) ==> r == Some(None::<DelayRecord>),
            old(latest_drs)@.contains_key(self.trip_id@) ==> ({
                let latest = old(latest_drs)@[self.trip_id@];
                if self.delay == latest.delay && self.previous_station == latest.previous_station
                    && self.next_station == latest.next_station {
                    r == None::<Option<DelayRecord>>
                } else {
                    r == Some(Some(latest))
                }
            }),
    {
        let previous = match latest_drs.get(self.trip_id.as_str()) {
            Some(latest) => Some(latest.duplicate()),
            None => None,
        };
        latest_drs.insert(self.trip_id.clone(), self.duplicate());
        match previous {
            None => Some(None),
            Some(latest_dr) => {
                if self.delay == latest_dr.delay && self.previous_station
                    == latest_dr.previous_station && self.next_station == latest_dr.next_station {
                    None
                } else {
                    Some(Some(latest_dr))
                }
            },
        }
    }
}

impl From<DelayRecordWithID> for DelayRecord {
    fn from(item: DelayRecordWithID) -> (r: DelayRecord)
        ensures
            r == (DelayRecord {
                fetched_json_id: item.fetched_json_id,
                trip_id: item.trip_id,
                time: item.time,
                previous_station: item.previous_station,
                next_station: item.next_station,
                percentage_segment: item.percentage_segment,
                delay: item.delay,
            }),
    {
        DelayRecord {
            fetched_json_id: item.fetched_json_id,
            trip_id: item.trip_id,
            time: item.time,
            previous_station: item.previous_station,
            next_station: item.next_station,
            percentage_segment: item.percentage_segment,
            delay: item.delay,
        }
    }
}

impl vstd::std_specs::convert::FromSpecImpl<DelayRecordWithID> for DelayRecord {
    open spec fn obeys_from_spec() -> bool {
        true
    }

    open spec fn from_spec(item: DelayRecordWithID) -> DelayRecord {
        DelayRecord {
            fetched_json_id: item.fetched_json_id,
            trip_id: item.trip_id,
            time: item.time,
            previous_station: item.previous_station,
            next_station: item.next_station,
            percentage_segment: item.percentage_segment,
            delay: item.delay,
        }
    }
}

/// The instant an overview describes: its realtime update, or else the instant it
/// was fetched.
pub open spec fn overview_time(to: TripOverview, fetched_at: i64) -> i64 {
    match to.realtime_data_updated_at {
        Some(t) => t,
        None => fetched_at,
    }
}

/// The record that an overview fetched in raw capture row `fetched_json_id` yields:
/// the trip's position at the overview's instant, if the trip has both left a stop
/// and not yet left the next one. A missing delay counts as none.
pub open spec fn record_from_overview(
    to: TripOverview,
    fetched_json_id: i64,
    fetched_at: i64,
) -> Option<DelayRecord> {
    let now = overview_time(to, fetched_at);
    match position_on_route(to.trip.stopovers@, now as int) {
        Some(p) => match p.previous_station {
            Some(previous_station) => Some(
                DelayRecord {
                    fetched_json_id,
                    trip_id: to.trip.id,
                    time: now,
                    previous_station,
                    next_station: p.next_station,
                    percentage_segment: p.percentage_segment,
                    delay: match p.delay {
                        Some(d) => d,
                        None => 0,
                    },
                },
            ),
            None => None,
        },
        None => None,
    }
}

/// Converts a trip overview into a delay record.
///
/// `fetched_at` stands in for the overview's instant where the overview carries
/// none. Without both a previous and a next stop there is no record.
pub fn delay_record_from_trip_overview(
    to: TripOverview,
    fetched_json_id: i64,
    fetched_at: i64,
) -> (r: Option<DelayRecord>)
    ensures
        r == record_from_overview(to, fetched_json_id, fetched_at),
        r matches Some(record) ==> record.is_valid(),
{
    let current_time = match to.realtime_data_updated_at {
        Some(ct) => ct,
        None => fetched_at,
    };
    let position = locate_on_route(&to.trip.stopovers, current_time);
    match position {
        Some(p) => match p.previous_station {
            Some(previous_station) => Some(
                DelayRecord {
                    fetched_json_id,
                    trip_id: to.trip.id,
                    time: current_time,
                    previous_station,
                    next_station: p.next_station,
                    percentage_segment: p.percentage_segment,
                    delay: match p.delay {
                        Some(d) => d,
                        None => 0,
                    },
                },
            ),
            None => None,
        },
        None => None,
    }
}

/// A time and a span in space where a given trip had a certain delay, derived from
/// two consecutive delay records of the trip.
#[derive(Debug, Clone, PartialEq)]
pub struct DelayEvent {
    pub from_id: i64,
    pub to_id: i64,
    pub trip_id: String,
    /// Microseconds since the Unix epoch.
    pub time: i64,
    /// Seconds.
    pub duration: i64,
    pub previous_station: i64,
    pub next_station: i64,
    /// In units of `SEGMENT_SCALE`.
    pub percentage_segment: i64,
    pub delay: i64,
}

/// The mathematical content of a delay event.
pub struct EventView {
    pub from_id: int,
    pub to_id: int,
    pub trip_id: Seq<char>,
    pub time: int,
    pub duration: int,
    pub previous_station: int,
    pub next_station: int,
    pub percentage_segment: int,
    pub delay: int,
}

impl View for DelayEvent {
    type V = EventView;

    open spec fn view(&self) -> EventView {
        EventView {
            from_id: self.from_id as int,
            to_id: self.to_id as int,
            trip_id: self.trip_id@,
            time: self.time as int,
            duration: self.duration as int,
            previous_station: self.previous_station as int,
            next_station: self.next_station as int,
            percentage_segment: self.percentage_segment as int,
            delay: self.delay as int,
        }
    }
}

/// The views of a sequence of delay events.
pub open spec fn events_view(events: Seq<DelayEvent>) -> Seq<EventView> {
    events.map_values(|e: DelayEvent| e@)
}

/// A stopover of a trip as shown to the web client.
#[derive(Debug, Clone, PartialEq)]
pub struct Stopover {
    pub stop: i64,
    pub planned_arrival: Option<i64>,
    pub arrival_delay: Option<i64>,
    pub planned_departure: Option<i64>,
    pub departure_delay: Option<i64>,
}

} // verus!
