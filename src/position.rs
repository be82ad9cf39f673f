use vstd::prelude::*;

use crate::models::{segment_position_in_range, SEGMENT_SCALE};
use crate::transport::TripStopover;

verus! {

/// Where a trip is on its route at some instant.
#[derive(Debug, Clone, PartialEq, Eq, Structural)]
pub struct SegmentPosition {
    /// The last stop it has left, if any.
    pub previous_station: Option<i64>,
    /// The stop it is heading for, or sitting in.
    pub next_station: i64,
    /// The fraction of the segment passed, in units of `SEGMENT_SCALE`.
    pub percentage_segment: i64,
    /// The delay at the next stop, in seconds, where known.
    pub delay: Option<i64>,
}

/// The trip has left this stop before `now`.
pub open spec fn departed(s: TripStopover, now: int) -> bool {
    match s.planned_departure {
        Some(d) => now > d,
        None => false,
    }
}

/// The trip reaches this stop after `now`.
pub open spec fn still_arriving(s: TripStopover, now: int) -> bool {
    match s.planned_arrival {
        Some(a) => now < a,
        None => false,
    }
}

/// The index of the first stop at or after `from` that the trip has not left
/// before `now`; the length of `stops` if it has left them all.
pub open spec fn first_pending(stops: Seq<TripStopover>, now: int, from: int) -> int
    decreases stops.len() - from,
{
    if from < 0 || from >= stops.len() {
        stops.len() as int
    } else if departed(stops[from], now) {
        first_pending(stops, now, from + 1)
    } else {
        from
    }
}

/// The fraction of a segment passed at `now`, leaving at `departure` and arriving at
/// `arrival`, in units of `SEGMENT_SCALE`, assuming the trip moves linearly in time.
pub open spec fn segment_fraction(now: int, departure: int, arrival: int) -> int {
    (now - departure) * SEGMENT_SCALE / (arrival - departure)
}

/// The position of a trip at `now`: the first stop it has not left yet is the next
/// one and the stop before it the previous one. If the trip is on its way to the
/// next stop, the position is the fraction of the segment passed (zero without a
/// previous stop) and the delay the arrival delay; if it sits in that stop, it has
/// passed the whole segment and the delay is the departure delay. `None` if the
/// trip has left every stop.
pub open spec fn position_on_route(stops: Seq<TripStopover>, now: int) -> Option<SegmentPosition> {
    let k = first_pending(stops, now, 0);
    if k >= stops.len() {
        None
    } else {
        let next = stops[k];
        let previous_station = if k > 0 {
            Some(stops[k - 1].stop.id)
        } else {
            None::<i64>
        };
        if still_arriving(next, now) {
            let pct = if k > 0 {
                segment_fraction(
                    now,
                    stops[k - 1].planned_departure->Some_0 as int,
                    next.planned_arrival->Some_0 as int,
                )
            } else {
                0
            };
            Some(
                SegmentPosition {
                    previous_station,
                    next_station: next.stop.id,
                    percentage_segment: pct as i64,
                    delay: next.arrival_delay,
                },
            )
        } else {
            Some(
                SegmentPosition {
                    previous_station,
                    next_station: next.stop.id,
                    percentage_segment: SEGMENT_SCALE,
                    delay: next.departure_delay,
                },
            )
        }
    }
}

proof fn lemma_first_pending_stays(stops: Seq<TripStopover>, now: int, from: int)
    requires
        0 <= from,
    ensures
        from <= first_pending(stops, now, from) <= stops.len() || from > stops.len(),
        forall|j: int|
            from <= j < first_pending(stops, now, from) ==> departed(#[trigger] stops[j], now),
        first_pending(stops, now, from) < stops.len() ==> !departed(
            stops[first_pending(stops, now, from)],
            now,
        ),
    decreases stops.len() - from,
{
    if from < stops.len() && departed(stops[from], now) {
        lemma_first_pending_stays(stops, now, from + 1);
    }
}

proof fn lemma_segment_fraction_in_range(now: int, departure: int, arrival: int)
    requires
        departure < now < arrival,
    ensures
        0 <= segment_fraction(now, departure, arrival) <= SEGMENT_SCALE,
{
    let x = now - departure;
    let y = arrival - departure;
    assert(0 <= x * SEGMENT_SCALE / y <= SEGMENT_SCALE) by (nonlinear_arith)
        requires
            0 < x < y,
    ;
}

fn is_departed(s: &TripStopover, now: i64) -> (r: bool)
    ensures
        r == departed(*s, now as int),
{
    match s.planned_departure {
        Some(d) => now > d,
        None => false,
    }
}

/// Where a trip is on its route at `current_time`.
pub fn locate_on_route(stopovers: &Vec<TripStopover>, current_time: i64) -> (r: Option<
    SegmentPosition,
>)
    ensures
        r == position_on_route(stopovers@, current_time as int),
        r matches Some(p) ==> segment_position_in_range(p.percentage_segment as int),
{
    let ghost stops = stopovers@;
    let ghost now = current_time as int;
    let mut i: usize = 0;
    while i < stopovers.len() && is_departed(&stopovers[i], current_time)
        invariant
            stops == stopovers@,
            now == current_time as int,
            i <= stops.len(),
            first_pending(stops, now, 0) == first_pending(stops, now, i as int),
            forall|j: int| 0 <= j < i ==> departed(#[trigger] stops[j], now),
        decreases stopovers.len() - i,
    {
        i += 1;
    }
    proof {
        lemma_first_pending_stays(stops, now, i as int);
    }
    if i == stopovers.len() {
        return None;
    }
    let next = &stopovers[i];
    let previous_station = if i > 0 {
        Some(stopovers[i - 1].stop.id)
    } else {
        None
    };
    let arriving = match next.planned_arrival {
        Some(a) => current_time < a,
        None => false,
    };
    if arriving {
        let pct: i64 = if i > 0 {
            let departure = stopovers[i - 1].planned_departure.unwrap();
            let arrival = next.planned_arrival.unwrap();
            let passed: i128 = current_time as i128 - departure as i128;
            let length: i128 = arrival as i128 - departure as i128;
            proof {
                assert(departed(stops[i - 1], now));
                lemma_segment_fraction_in_range(now, departure as int, arrival as int);
                assert(passed * SEGMENT_SCALE <= 0x1_0000_0000_0000_0000 * SEGMENT_SCALE)
                    by (nonlinear_arith)
                    requires
                        0 < passed <= 0x1_0000_0000_0000_0000,
                ;
            }
            (passed * (SEGMENT_SCALE as i128) / length) as i64
        } else {
            0
        };
        Some(
            SegmentPosition {
                previous_station,
                next_station: next.stop.id,
                percentage_segment: pct,
                delay: next.arrival_delay,
            },
        )
    } else {
        Some(
            SegmentPosition {
                previous_station,
                next_station: next.stop.id,
                percentage_segment: SEGMENT_SCALE,
                delay: next.departure_delay,
            },
        )
    }
}

} // verus!
