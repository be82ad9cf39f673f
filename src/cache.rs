use vstd::prelude::*;

use crate::models::{
    div_toward_zero, div_toward_zero_i128, lemma_div_toward_zero_bounds, midpoint,
    segment_position_in_range, whole_seconds, DelayEvent, DelayRecord, EventView,
    MICROS_PER_SECOND, SEGMENT_SCALE, events_view,
};
use crate::trip_map::TripMap;

verus! {

/// The latest record of each trip, with the raw capture row it came from.
pub type TripIdMap = TripMap<(i64, DelayRecord)>;

/// State that is not saved in storage but rebuilt on each start.
pub struct CacheState {
    pub trip_id_map: TripIdMap,
}

impl CacheState {
    /// A state in which no trip has been seen.
    pub fn new() -> (r: CacheState)
        ensures
            r.trip_id_map@ == Map::<Seq<char>, (i64, DelayRecord)>::empty(),
            trip_map_wf(r.trip_id_map@),
    {
        CacheState { trip_id_map: TripMap::new() }
    }
}

/// A record whose segment position lies outside its segment.
#[derive(Debug, Clone, Copy, PartialEq, Eq, Structural)]
pub struct InvariantViolation {
    pub fetched_json_id: i64,
    pub percentage_segment: i64,
}

/// Each entry is keyed by its record's trip id, carries the record's raw capture
/// row, and holds a valid record.
pub open spec fn trip_map_wf(m: Map<Seq<char>, (i64, DelayRecord)>) -> bool {
    forall|k: Seq<char>| #[trigger]
        m.contains_key(k) ==> m[k].0 == m[k].1.fetched_json_id && m[k].1.trip_id@ == k
            && m[k].1.is_valid()
}

/// The entry of a trip, if it has been seen.
pub open spec fn prior_record(m: Map<Seq<char>, (i64, DelayRecord)>, trip_id: Seq<char>) -> Option<
    (i64, DelayRecord),
> {
    if m.contains_key(trip_id) {
        Some(m[trip_id])
    } else {
        None
    }
}

/// Both records lie on the same segment.
pub open spec fn same_segment(old: DelayRecord, new: DelayRecord) -> bool {
    old.previous_station == new.previous_station && old.next_station == new.next_station
}

/// The trip passed exactly one station between the two records.
pub open spec fn crossed_one_station(old: DelayRecord, new: DelayRecord) -> bool {
    old.next_station == new.previous_station
}

/// The share of the time between two records spent finishing the old segment, as
/// a numerator and a denominator, under a constant speed. Where the trip did not
/// move at all (it sat in the station the whole time) the share is one half.
pub open spec fn crossing_ratio(old_pct: int, new_pct: int) -> (int, int) {
    let den = SEGMENT_SCALE - old_pct + new_pct;
    if den == 0 {
        (1, 2)
    } else {
        (SEGMENT_SCALE - old_pct, den)
    }
}

/// The estimated instant at which the trip was at the station it passed.
pub open spec fn switch_time(old: DelayRecord, new: DelayRecord) -> int {
    let (n, d) = crossing_ratio(old.percentage_segment as int, new.percentage_segment as int);
    old.time + div_toward_zero(whole_seconds(new.time - old.time) * n, d) * MICROS_PER_SECOND
}

/// The event between two records on the same segment.
pub open spec fn same_segment_event(from_id: int, old: DelayRecord, new: DelayRecord) -> EventView {
    EventView {
        from_id,
        to_id: new.fetched_json_id as int,
        trip_id: new.trip_id@,
        time: midpoint(old.time as int, new.time as int),
        duration: whole_seconds(new.time - old.time),
        previous_station: old.previous_station as int,
        next_station: old.next_station as int,
        percentage_segment: old.percentage_segment + div_toward_zero(
            new.percentage_segment - old.percentage_segment,
            2,
        ),
        delay: div_toward_zero(old.delay + new.delay, 2),
    }
}

/// The first event of a station crossing: finishing the old segment.
pub open spec fn arriving_event(from_id: int, old: DelayRecord, new: DelayRecord) -> EventView {
    let (n, d) = crossing_ratio(old.percentage_segment as int, new.percentage_segment as int);
    let switch = switch_time(old, new);
    EventView {
        from_id,
        to_id: new.fetched_json_id as int,
        trip_id: new.trip_id@,
        time: midpoint(old.time as int, switch),
        duration: whole_seconds(switch - old.time),
        previous_station: old.previous_station as int,
        next_station: old.next_station as int,
        percentage_segment: (old.percentage_segment + SEGMENT_SCALE) / 2,
        delay: div_toward_zero(old.delay * n, d),
    }
}

/// The second event of a station crossing: starting the new segment.
pub open spec fn departing_event(from_id: int, old: DelayRecord, new: DelayRecord) -> EventView {
    let (n, d) = crossing_ratio(old.percentage_segment as int, new.percentage_segment as int);
    let switch = switch_time(old, new);
    EventView {
        from_id,
        to_id: new.fetched_json_id as int,
        trip_id: new.trip_id@,
        time: midpoint(switch, new.time as int),
        duration: whole_seconds(new.time - switch),
        previous_station: new.previous_station as int,
        next_station: new.next_station as int,
        percentage_segment: new.percentage_segment / 2,
        delay: div_toward_zero(old.delay * (d - n), d),
    }
}

/// The events that a new record yields, given the latest earlier record of its trip.
pub open spec fn derived_events(prior: Option<(i64, DelayRecord)>, new: DelayRecord) -> Seq<
    EventView,
> {
    match prior {
        None => seq![],
        Some((from_id, old)) => {
            if same_segment(old, new) {
                seq![same_segment_event(from_id as int, old, new)]
            } else if crossed_one_station(old, new) {
                seq![arriving_event(from_id as int, old, new), departing_event(from_id as int, old, new)]
            } else {
                seq![]
            }
        },
    }
}

/// `div_toward_zero(x * n, d)` lies between `0` and `x` for `0 <= n <= d`.
pub proof fn lemma_scaled_between(x: int, n: int, d: int)
    requires
        0 <= n <= d,
        d > 0,
    ensures
        x >= 0 ==> 0 <= div_toward_zero(x * n, d) <= x,
        x < 0 ==> x <= div_toward_zero(x * n, d) <= 0,
{
    if x >= 0 {
        assert(0 <= x * n <= x * d) by (nonlinear_arith)
            requires
                x >= 0,
                0 <= n <= d,
        ;
        assert(0 <= (x * n) / d <= x) by (nonlinear_arith)
            requires
                0 <= x * n <= x * d,
                d > 0,
                x >= 0,
        ;
    } else {
        assert(0 <= (-x) * n <= (-x) * d) by (nonlinear_arith)
            requires
                x < 0,
                0 <= n <= d,
        ;
        assert(x * n == -((-x) * n)) by (nonlinear_arith);
        assert(0 <= ((-x) * n) / d <= -x) by (nonlinear_arith)
            requires
                0 <= (-x) * n <= (-x) * d,
                d > 0,
                x < 0,
        ;
    }
}

/// The share of a crossing is a proper fraction: `0 <= n <= d` and `d > 0`.
pub proof fn lemma_crossing_ratio_in_unit(old_pct: int, new_pct: int)
    requires
        segment_position_in_range(old_pct),
        segment_position_in_range(new_pct),
    ensures
        0 <= crossing_ratio(old_pct, new_pct).0 <= crossing_ratio(old_pct, new_pct).1,
        crossing_ratio(old_pct, new_pct).1 > 0,
        crossing_ratio(old_pct, new_pct).1 <= 2 * SEGMENT_SCALE,
{
}

/// The event between two records on the same segment.
fn same_segment_delay_event(from_id: i64, old: &DelayRecord, new: &DelayRecord) -> (e: DelayEvent)
    requires
        old.is_valid(),
        new.is_valid(),
    ensures
        e@ == same_segment_event(from_id as int, *old, *new),
{
    let diff: i128 = new.time as i128 - old.time as i128;
    let half: i128 = div_toward_zero_i128(diff, 2);
    let secs: i128 = div_toward_zero_i128(diff, MICROS_PER_SECOND as i128);
    let pct_diff: i128 = new.percentage_segment as i128 - old.percentage_segment as i128;
    let pct_half: i128 = div_toward_zero_i128(pct_diff, 2);
    let delay_sum: i128 = old.delay as i128 + new.delay as i128;
    let delay: i128 = div_toward_zero_i128(delay_sum, 2);
    proof {
        lemma_div_toward_zero_bounds(diff as int, 2);
        lemma_div_toward_zero_bounds(diff as int, MICROS_PER_SECOND as int);
        lemma_div_toward_zero_bounds(pct_diff as int, 2);
        lemma_div_toward_zero_bounds(delay_sum as int, 2);
    }
    DelayEvent {
        from_id,
        to_id: new.fetched_json_id,
        trip_id: new.trip_id.clone(),
        time: (old.time as i128 + half) as i64,
        duration: secs as i64,
        previous_station: old.previous_station,
        next_station: old.next_station,
        percentage_segment: (old.percentage_segment as i128 + pct_half) as i64,
        delay: delay as i64,
    }
}

/// The two events of a crossing of one station: the rest of the old segment, and
/// the start of the new one.
fn station_crossing_delay_events(from_id: i64, old: &DelayRecord, new: &DelayRecord) -> (r: (
    DelayEvent,
    DelayEvent,
))
    requires
        old.is_valid(),
        new.is_valid(),
    ensures
        r.0@ == arriving_event(from_id as int, *old, *new),
        r.1@ == departing_event(from_id as int, *old, *new),
{
    let old_pct: i128 = old.percentage_segment as i128;
    let new_pct: i128 = new.percentage_segment as i128;
    let scale: i128 = SEGMENT_SCALE as i128;
    let micros: i128 = MICROS_PER_SECOND as i128;
    let den: i128 = scale - old_pct + new_pct;
    let (num, den): (i128, i128) = if den == 0 {
        (1, 2)
    } else {
        (scale - old_pct, den)
    };
    proof {
        lemma_crossing_ratio_in_unit(old_pct as int, new_pct as int);
        assert((num as int, den as int) == crossing_ratio(old_pct as int, new_pct as int));
    }
    let diff: i128 = new.time as i128 - old.time as i128;
    let secs: i128 = div_toward_zero_i128(diff, micros);
    proof {
        lemma_div_toward_zero_bounds(diff as int, micros as int);
        assert(-0x1_0000_0000_0000 <= secs <= 0x1_0000_0000_0000);
        assert(-0x1_0000_0000_0000 * 0x1_0000_0000 <= secs * num <= 0x1_0000_0000_0000 * 0x1_0000_0000)
            by (nonlinear_arith)
            requires
                -0x1_0000_0000_0000 <= secs <= 0x1_0000_0000_0000,
                0 <= num <= 0x1_0000_0000,
        ;
    }
    let offset: i128 = div_toward_zero_i128(secs * num, den);
    proof {
        lemma_scaled_between(secs as int, num as int, den as int);
    }
    let switch: i128 = old.time as i128 + offset * micros;
    proof {
        assert(switch == switch_time(*old, *new));
        if diff >= 0 {
            assert(0 <= offset * micros <= secs * micros);
        } else {
            assert(secs * micros <= offset * micros <= 0);
        }
    }
    let first_span: i128 = switch - old.time as i128;
    let second_span: i128 = new.time as i128 - switch;
    let time1: i128 = old.time as i128 + div_toward_zero_i128(first_span, 2);
    let time2: i128 = switch + div_toward_zero_i128(second_span, 2);
    let duration1: i128 = div_toward_zero_i128(first_span, micros);
    let duration2: i128 = div_toward_zero_i128(second_span, micros);
    let old_delay: i128 = old.delay as i128;
    proof {
        assert(-0x8000_0000_0000_0000 * 0x1_0000_0000 <= old_delay * num <= 0x8000_0000_0000_0000
            * 0x1_0000_0000) by (nonlinear_arith)
            requires
                -0x8000_0000_0000_0000 <= old_delay <= 0x8000_0000_0000_0000,
                0 <= num <= 0x1_0000_0000,
        ;
        assert(-0x8000_0000_0000_0000 * 0x1_0000_0000 <= old_delay * (den - num)
            <= 0x8000_0000_0000_0000 * 0x1_0000_0000) by (nonlinear_arith)
            requires
                -0x8000_0000_0000_0000 <= old_delay <= 0x8000_0000_0000_0000,
                0 <= den - num <= 0x1_0000_0000,
        ;
    }
    let delay1: i128 = div_toward_zero_i128(old_delay * num, den);
    let delay2: i128 = div_toward_zero_i128(old_delay * (den - num), den);
    proof {
        lemma_div_toward_zero_bounds(first_span as int, 2);
        lemma_div_toward_zero_bounds(second_span as int, 2);
        lemma_div_toward_zero_bounds(first_span as int, micros as int);
        lemma_div_toward_zero_bounds(second_span as int, micros as int);
        lemma_scaled_between(old_delay as int, num as int, den as int);
        lemma_scaled_between(old_delay as int, (den - num) as int, den as int);
    }
    let arriving = DelayEvent {
        from_id,
        to_id: new.fetched_json_id,
        trip_id: new.trip_id.clone(),
        time: time1 as i64,
        duration: duration1 as i64,
        previous_station: old.previous_station,
        next_station: old.next_station,
        percentage_segment: ((old_pct + scale) / 2) as i64,
        delay: delay1 as i64,
    };
    let departing = DelayEvent {
        from_id,
        to_id: new.fetched_json_id,
        trip_id: new.trip_id.clone(),
        time: time2 as i64,
        duration: duration2 as i64,
        previous_station: new.previous_station,
        next_station: new.next_station,
        percentage_segment: (new_pct / 2) as i64,
        delay: delay2 as i64,
    };
    (arriving, departing)
}

/// Derives zero, one or two delay events from a new record and the latest earlier
/// record of its trip, and makes the new record the latest of its trip.
///
/// One event if both records lie on the same segment; two if the trip passed one
/// station in between; none for the first record of a trip, or if the trip passed
/// more than one station. A record whose segment position lies outside its segment
/// is refused and leaves the map as it was.
pub fn delay_events_from_delay_record(
    trip_id_map: &mut TripIdMap,
    new_delay_record: &DelayRecord,
) -> (r: Result<Vec<DelayEvent>, InvariantViolation>)
    requires
        trip_map_wf(old(trip_id_map)@),
    ensures
        trip_map_wf(final(trip_id_map)@),
        new_delay_record.is_valid() ==> {
            &&& r is Ok
            &&& events_view(r->Ok_0@) == derived_events(
                prior_record(old(trip_id_map)@, new_delay_record.trip_id@),
                *new_delay_record,
            )
            &&& final(trip_id_map)@ == old(trip_id_map)@.insert(
                new_delay_record.trip_id@,
                (new_delay_record.fetched_json_id, *new_delay_record),
            )
        },
        new_delay_record.is_valid() && !old(trip_id_map)@.contains_key(new_delay_record.trip_id@)
            ==> r->Ok_0@.len() == 0,
        new_delay_record.is_valid() && old(trip_id_map)@.contains_key(new_delay_record.trip_id@)
            && !same_segment(old(trip_id_map)@[new_delay_record.trip_id@].1, *new_delay_record)
            && !crossed_one_station(old(trip_id_map)@[new_delay_record.trip_id@].1, *new_delay_record)
            ==> r->Ok_0@.len() == 0,
        !new_delay_record.is_valid() ==> {
            &&& r == Err::<Vec<DelayEvent>, InvariantViolation>(
                InvariantViolation {
                    fetched_json_id: new_delay_record.fetched_json_id,
                    percentage_segment: new_delay_record.percentage_segment,
                },
            )
            &&& final(trip_id_map)@ == old(trip_id_map)@
        },
{
    let new = new_delay_record;
    if new.percentage_segment < 0 || new.percentage_segment > SEGMENT_SCALE {
        return Err(
            InvariantViolation {
                fetched_json_id: new.fetched_json_id,
                percentage_segment: new.percentage_segment,
            },
        );
    }
    let ghost prior = prior_record(trip_id_map@, new.trip_id@);
    let result: Vec<DelayEvent> = match trip_id_map.get(new.trip_id.as_str()) {
        None => Vec::new(),
        Some(entry) => {
            let old_row_id = entry.0;
            let old = &entry.1;
            if old.previous_station == new.previous_station && old.next_station
                == new.next_station {
                let event = same_segment_delay_event(old_row_id, old, new);
                vec![event]
            } else if old.next_station == new.previous_station {
                let (arriving, departing) = station_crossing_delay_events(old_row_id, old, new);
                vec![arriving, departing]
            } else {
                Vec::new()
            }
        },
    };
    proof {
        assert(events_view(result@) =~= derived_events(prior, *new));
    }
    trip_id_map.insert(new.trip_id.clone(), (new.fetched_json_id, new.duplicate()));
    Ok(result)
}

/// Every event of a new record runs from the latest earlier record of its trip to
/// the new one, and belongs to the new record's trip.
pub proof fn lemma_event_ids(prior: Option<(i64, DelayRecord)>, new: DelayRecord)
    requires
        prior is Some,
    ensures
        forall|i: int|
            0 <= i < derived_events(prior, new).len() ==> {
                &&& (#[trigger] derived_events(prior, new)[i]).from_id == prior->Some_0.0
                &&& derived_events(prior, new)[i].to_id == new.fetched_json_id
                &&& derived_events(prior, new)[i].trip_id == new.trip_id@
            },
{
}

/// Crossing one station splits the interval in two events: the first on the old
/// segment, between the old position and the segment's end; the second on the new
/// segment, between its start and the new position. Their delays add up to the old
/// record's delay, but for at most one second lost to rounding.
pub proof fn lemma_station_crossing_split(from_id: i64, old: DelayRecord, new: DelayRecord)
    requires
        old.is_valid(),
        new.is_valid(),
        crossed_one_station(old, new),
        !same_segment(old, new),
    ensures
        ({
            let ev = derived_events(Some((from_id, old)), new);
            &&& ev.len() == 2
            &&& ev[0].previous_station == old.previous_station
            &&& ev[0].next_station == old.next_station
            &&& ev[1].previous_station == new.previous_station
            &&& ev[1].next_station == new.next_station
            &&& old.percentage_segment <= ev[0].percentage_segment <= SEGMENT_SCALE
            &&& SEGMENT_SCALE / 2 <= ev[0].percentage_segment
            &&& 0 <= ev[1].percentage_segment <= new.percentage_segment
            &&& ev[1].percentage_segment <= SEGMENT_SCALE / 2
            &&& old.delay - 1 <= ev[0].delay + ev[1].delay <= old.delay + 1
        }),
{
    let (n, d) = crossing_ratio(old.percentage_segment as int, new.percentage_segment as int);
    lemma_crossing_ratio_in_unit(old.percentage_segment as int, new.percentage_segment as int);
    let big_d = old.delay as int;
    let a = big_d * n;
    let b = big_d * (d - n);
    assert(a + b == big_d * d) by (nonlinear_arith)
        requires
            a == big_d * n,
            b == big_d * (d - n),
    ;
    lemma_div_toward_zero_bounds(a, d);
    lemma_div_toward_zero_bounds(b, d);
    let q1 = div_toward_zero(a, d);
    let q2 = div_toward_zero(b, d);
    if big_d >= 0 {
        assert(a >= 0 && b >= 0) by (nonlinear_arith)
            requires
                big_d >= 0,
                0 <= n <= d,
                a == big_d * n,
                b == big_d * (d - n),
        ;
        assert(q1 + q2 <= big_d < q1 + q2 + 2) by (nonlinear_arith)
            requires
                d * q1 <= a < d * q1 + d,
                d * q2 <= b < d * q2 + d,
                a + b == big_d * d,
                d > 0,
        ;
    } else {
        assert(a <= 0 && b <= 0) by (nonlinear_arith)
            requires
                big_d < 0,
                0 <= n <= d,
                a == big_d * n,
                b == big_d * (d - n),
        ;
        if a == 0 {
            assert(q1 == 0);
        }
        if b == 0 {
            assert(q2 == 0);
        }
        assert(a == 0 ==> q1 == 0);
        assert(q1 + q2 - 2 < big_d <= q1 + q2) by (nonlinear_arith)
            requires
                a < 0 ==> d * q1 - d < a <= d * q1,
                b < 0 ==> d * q2 - d < b <= d * q2,
                a == 0 ==> q1 == 0,
                b == 0 ==> q2 == 0,
                a <= 0,
                b <= 0,
                a + b == big_d * d,
                d > 0,
        ;
    }
}

/// Where the trip sat in the passed station for the whole interval, so that its
/// positions give no share, the interval is split in halves: the switch lies
/// halfway and each event carries half of the old delay.
pub proof fn lemma_degenerate_ratio(from_id: i64, old: DelayRecord, new: DelayRecord)
    requires
        crossed_one_station(old, new),
        !same_segment(old, new),
        old.percentage_segment == SEGMENT_SCALE,
        new.percentage_segment == 0,
    ensures
        crossing_ratio(old.percentage_segment as int, new.percentage_segment as int) == (1int, 2int),
        switch_time(old, new) == old.time + div_toward_zero(whole_seconds(new.time - old.time), 2)
            * MICROS_PER_SECOND,
        derived_events(Some((from_id, old)), new)[0].delay == div_toward_zero(old.delay as int, 2),
        derived_events(Some((from_id, old)), new)[1].delay == div_toward_zero(old.delay as int, 2),
{
    assert(whole_seconds(new.time - old.time) * 1 == whole_seconds(new.time - old.time));
    assert(old.delay * 1 == old.delay);
    assert(old.delay * (2 - 1) == old.delay);
}

/// Between two valid records in time order every event lies within the interval
/// they span, lasts no negative time, and has a position within its segment.
pub proof fn lemma_events_within_interval(from_id: i64, old: DelayRecord, new: DelayRecord)
    requires
        old.is_valid(),
        new.is_valid(),
        old.time <= new.time,
    ensures
        forall|i: int|
            0 <= i < derived_events(Some((from_id, old)), new).len() ==> {
                let e = #[trigger] derived_events(Some((from_id, old)), new)[i];
                &&& old.time <= e.time <= new.time
                &&& e.duration >= 0
                &&& segment_position_in_range(e.percentage_segment)
            },
{
    let diff = new.time - old.time;
    lemma_div_toward_zero_bounds(diff, 2);
    lemma_div_toward_zero_bounds(diff, MICROS_PER_SECOND as int);
    lemma_div_toward_zero_bounds(new.percentage_segment - old.percentage_segment, 2);
    if crossed_one_station(old, new) && !same_segment(old, new) {
        let (n, d) = crossing_ratio(old.percentage_segment as int, new.percentage_segment as int);
        lemma_crossing_ratio_in_unit(old.percentage_segment as int, new.percentage_segment as int);
        let secs = whole_seconds(diff);
        lemma_scaled_between(secs, n, d);
        let offset = div_toward_zero(secs * n, d);
        assert(0 <= offset * MICROS_PER_SECOND <= secs * MICROS_PER_SECOND);
        let switch = switch_time(old, new);
        assert(old.time <= switch <= new.time);
        lemma_div_toward_zero_bounds(switch - old.time, 2);
        lemma_div_toward_zero_bounds(new.time - switch, 2);
        lemma_div_toward_zero_bounds(switch - old.time, MICROS_PER_SECOND as int);
        lemma_div_toward_zero_bounds(new.time - switch, MICROS_PER_SECOND as int);
    }
}

} // verus!
