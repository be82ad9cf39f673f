use isre1late::client::{client_msg_from_trip_overview, ClientMsg};
use isre1late::models::{delay_record_from_trip_overview, DelayRecord, SEGMENT_SCALE};
use isre1late::position::{locate_on_route, SegmentPosition};
use isre1late::transport::{
    Trip, TripDestination, TripOrigin, TripOverview, TripStop, TripStopover,
};

const S: i64 = 1_000_000;

fn stopover(
    id: i64,
    planned_arrival: Option<i64>,
    arrival_delay: Option<i64>,
    planned_departure: Option<i64>,
    departure_delay: Option<i64>,
) -> TripStopover {
    TripStopover {
        stop: TripStop { name: format!("stop {}", id), id },
        planned_arrival,
        arrival_delay,
        planned_departure,
        departure_delay,
    }
}

fn route() -> Vec<TripStopover> {
    vec![
        stopover(10, None, None, Some(100 * S), Some(0)),
        stopover(20, Some(200 * S), Some(60), Some(210 * S), Some(90)),
        stopover(30, Some(300 * S), None, None, None),
    ]
}

fn overview(stopovers: Vec<TripStopover>, realtime: Option<i64>) -> TripOverview {
    TripOverview {
        trip: Trip {
            id: "trip-1".to_string(),
            origin: TripOrigin { name: "Magdeburg".to_string() },
            destination: TripDestination { name: "Frankfurt (Oder)".to_string() },
            departure: None,
            planned_departure: 100 * S,
            current_location: None,
            stopovers,
            departure_delay: None,
            arrival_delay: None,
        },
        realtime_data_updated_at: realtime,
    }
}

#[test]
fn record_between_two_stations() {
    let r = delay_record_from_trip_overview(overview(route(), Some(150 * S)), 42, 0);
    assert_eq!(
        r,
        Some(DelayRecord {
            fetched_json_id: 42,
            trip_id: "trip-1".to_string(),
            time: 150 * S,
            previous_station: 10,
            next_station: 20,
            percentage_segment: SEGMENT_SCALE / 2,
            delay: 60,
        })
    );
}

#[test]
fn record_falls_back_to_fetch_time() {
    let r = delay_record_from_trip_overview(overview(route(), None), 7, 125 * S).unwrap();
    assert_eq!(r.time, 125 * S);
    assert_eq!(r.percentage_segment, SEGMENT_SCALE / 4);
}

#[test]
fn record_while_dwelling_in_station() {
    let r = delay_record_from_trip_overview(overview(route(), Some(205 * S)), 1, 0).unwrap();
    assert_eq!(r.previous_station, 10);
    assert_eq!(r.next_station, 20);
    assert_eq!(r.percentage_segment, SEGMENT_SCALE);
    assert_eq!(r.delay, 90);
}

#[test]
fn record_on_second_segment_without_delay() {
    let r = delay_record_from_trip_overview(overview(route(), Some(280 * S)), 1, 0).unwrap();
    assert_eq!(r.previous_station, 20);
    assert_eq!(r.next_station, 30);
    // 70 of 90 seconds have passed.
    assert_eq!(r.percentage_segment, 777_777_777);
    assert_eq!(r.delay, 0);
}

#[test]
fn no_record_before_the_first_departure() {
    assert_eq!(delay_record_from_trip_overview(overview(route(), Some(50 * S)), 1, 0), None);
}

#[test]
fn no_record_without_stopovers() {
    assert_eq!(delay_record_from_trip_overview(overview(vec![], Some(50 * S)), 1, 0), None);
}

#[test]
fn no_record_once_every_stop_is_left() {
    let stops = vec![
        stopover(10, None, None, Some(100 * S), None),
        stopover(20, Some(200 * S), None, Some(210 * S), None),
    ];
    assert_eq!(delay_record_from_trip_overview(overview(stops, Some(500 * S)), 1, 0), None);
}

#[test]
fn record_at_the_terminus() {
    let r = delay_record_from_trip_overview(overview(route(), Some(400 * S)), 1, 0).unwrap();
    assert_eq!(r.previous_station, 20);
    assert_eq!(r.next_station, 30);
    assert_eq!(r.percentage_segment, SEGMENT_SCALE);
}

#[test]
fn position_without_previous_stop() {
    let stops = vec![stopover(10, Some(100 * S), Some(30), Some(110 * S), None)];
    assert_eq!(
        locate_on_route(&stops, 50 * S),
        Some(SegmentPosition {
            previous_station: None,
            next_station: 10,
            percentage_segment: 0,
            delay: Some(30),
        })
    );
}

#[test]
fn client_message_for_a_trip() {
    let msg: ClientMsg = client_msg_from_trip_overview(overview(route(), Some(50 * S)), 0);
    assert_eq!(msg.trip_id, "trip-1");
    assert_eq!(msg.time, 50 * S);
    assert_eq!(msg.previous_station, None);
    assert_eq!(msg.next_station, Some(10));
    assert_eq!(msg.percentage_segment, SEGMENT_SCALE);
    assert_eq!(msg.delay, 0);

    let msg = client_msg_from_trip_overview(overview(route(), None), 150 * S);
    assert_eq!(msg.previous_station, Some(10));
    assert_eq!(msg.next_station, Some(20));
    assert_eq!(msg.percentage_segment, SEGMENT_SCALE / 2);
    assert_eq!(msg.delay, 60);
}
