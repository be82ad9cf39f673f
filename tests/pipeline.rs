use isre1late::cache::CacheState;
use isre1late::crawler::{ingest_trip_overview, trip_url, trips_overview_url};
use isre1late::models::{DelayRecord, DelayRecordWithID, SEGMENT_SCALE};
use isre1late::rebuild::{backlog, Batcher, EventRebuild, RecordRebuild, BATCH_SIZE};
use isre1late::transport::{
    classify_undecodable, contains_bytes, HafasErr, HafasMsg, Trip, TripDestination, TripOrigin,
    TripOverview, TripStop, TripStopover,
};
use isre1late::trip_map::TripMap;
use isre1late::ws_api::{historic_seconds, DEFAULT_HISTORIC_SECONDS, MAX_HISTORIC_SECONDS};

fn record(id: i64, trip: &str, time: i64, prev: i64, next: i64, pct: i64, delay: i64) -> DelayRecord {
    DelayRecord {
        fetched_json_id: id,
        trip_id: trip.to_string(),
        time,
        previous_station: prev,
        next_station: next,
        percentage_segment: pct,
        delay,
    }
}

fn history() -> Vec<DelayRecord> {
    vec![
        record(1, "a", 0, 0, 1, 100_000_000, 0),
        record(2, "b", 1_000_000, 5, 6, 100_000_000, 0),
        record(3, "a", 2_000_000, 0, 1, 300_000_000, 20),
        record(4, "a", 4_000_000, 1, 2, 100_000_000, 20),
        record(5, "b", 9_000_000, 8, 9, 100_000_000, 0),
    ]
}

fn rebuild_events(records: &[DelayRecord], latest_to_id: i64) -> (Vec<i64>, CacheState) {
    let mut rebuild = EventRebuild::new(latest_to_id);
    let mut written = Vec::new();
    for r in records {
        if let Some(batch) = rebuild.feed(r).unwrap() {
            written.extend(batch.iter().map(|e| e.to_id));
        }
    }
    let (rest, cache) = rebuild.finish();
    written.extend(rest.iter().map(|e| e.to_id));
    (written, cache)
}

#[test]
fn event_rebuild_from_scratch() {
    let (written, cache) = rebuild_events(&history(), 0);
    // Record 3 continues record 1; record 4 crosses a station; record 5 skips stations.
    assert_eq!(written, vec![3, 4, 4]);
    assert_eq!(cache.trip_id_map.len(), 2);
    assert_eq!(cache.trip_id_map.get("b").map(|e| e.0), Some(5));
}

#[test]
fn event_rebuild_twice_writes_nothing_new() {
    let (first, _) = rebuild_events(&history(), 0);
    let mark = *first.iter().max().unwrap();
    let (second, cache) = rebuild_events(&history(), mark);
    assert!(second.is_empty());
    // The state is warmed all the same.
    assert_eq!(cache.trip_id_map.get("a").map(|e| e.0), Some(4));
}

#[test]
fn event_rebuild_resumes_after_mark() {
    let (written, _) = rebuild_events(&history(), 3);
    assert_eq!(written, vec![4, 4]);
    assert!(written.iter().all(|&id| id > 3));
}

#[test]
fn event_rebuild_stops_on_invalid_record() {
    let mut rebuild = EventRebuild::new(0);
    assert!(rebuild.feed(&record(1, "a", 0, 0, 1, 2 * SEGMENT_SCALE, 0)).is_err());
}

#[test]
fn event_rebuild_hands_out_full_batches() {
    let mut rebuild = EventRebuild::new(0);
    let mut batches = Vec::new();
    for i in 0..1100i64 {
        let r = record(i + 1, "a", i * 1_000_000, 0, 1, 0, 0);
        if let Some(batch) = rebuild.feed(&r).unwrap() {
            batches.push(batch.len());
        }
    }
    let (rest, _) = rebuild.finish();
    assert_eq!(batches, vec![BATCH_SIZE]);
    assert_eq!(rest.len(), 1099 - BATCH_SIZE);
}

#[test]
fn record_rebuild_skips_stored_rows_and_batches() {
    let mut rebuild = RecordRebuild::new(10);
    let mut batches = Vec::new();
    for id in 1..=(10 + BATCH_SIZE as i64 + 5) {
        if let Some(batch) = rebuild.offer(record(id, "a", 0, 0, 1, 0, 0)) {
            batches.push(batch);
        }
    }
    let rest = rebuild.finish();
    assert_eq!(batches.len(), 1);
    assert_eq!(batches[0].len(), BATCH_SIZE);
    assert_eq!(batches[0][0].fetched_json_id, 11);
    assert_eq!(rest.len(), 5);
    assert!(rest.iter().all(|r| r.fetched_json_id > 10));
}

#[test]
fn record_rebuild_twice_writes_nothing_new() {
    let mut rebuild = RecordRebuild::new(5);
    for id in 1..=5 {
        assert!(rebuild.offer(record(id, "a", 0, 0, 1, 0, 0)).is_none());
    }
    assert!(rebuild.finish().is_empty());
}

#[test]
fn batcher_hands_out_at_limit() {
    let mut b = Batcher::new(3);
    assert_eq!(b.push_all(vec![1, 2]), None);
    assert_eq!(b.push_all(vec![3, 4]), Some(vec![1, 2, 3, 4]));
    assert_eq!(b.push_all(vec![5]), None);
    assert_eq!(b.finish(), vec![5]);
}

#[test]
fn backlog_counts() {
    assert_eq!(backlog(10, 3), 7);
    assert_eq!(backlog(3, 10), 0);
    assert_eq!(backlog(4, 4), 0);
    assert_eq!(backlog(i64::MAX, i64::MIN), u64::MAX);
}

#[test]
fn undecodable_bodies() {
    assert!(matches!(classify_undecodable(""), Some(HafasMsg::EmptyBody)));
    assert!(matches!(
        classify_undecodable("<html><h1>502 Bad Gateway</h1></html>"),
        Some(HafasMsg::BadGatewayError)
    ));
    assert!(classify_undecodable("{\"broken\": ").is_none());
    assert!(classify_undecodable("502 Bad Gatewa").is_none());
}

#[test]
fn byte_runs() {
    assert!(contains_bytes(b"abcabd", b"abd"));
    assert!(contains_bytes(b"abc", b""));
    assert!(!contains_bytes(b"ab", b"abc"));
    assert!(!contains_bytes(b"abcabc", b"acb"));
}

#[test]
fn overview_url() {
    assert_eq!(
        trips_overview_url("https://v6.vbb.transport.rest"),
        "https://v6.vbb.transport.rest/trips?lineName=RE1&operatorNames=ODEG"
    );
}

#[test]
fn trip_url_encodes_id() {
    assert_eq!(
        trip_url("https://api.example", "1|12345|0|86|18102023"),
        "https://api.example/trips/1%7C12345%7C0%7C86%7C18102023"
    );
    assert_eq!(trip_url("b", "a-b_c.d~e f/ü"), "b/trips/a-b_c.d~e%20f%2F%C3%BC");
}

#[test]
fn historic_window() {
    assert_eq!(historic_seconds(None), DEFAULT_HISTORIC_SECONDS);
    assert_eq!(historic_seconds(Some(60)), 60);
    assert_eq!(historic_seconds(Some(u64::MAX)), MAX_HISTORIC_SECONDS);
    assert_eq!(MAX_HISTORIC_SECONDS, 2_678_400);
}

#[test]
fn redundant_records() {
    let mut latest = TripMap::new();
    let first = record(1, "a", 0, 0, 1, 0, 30);
    assert_eq!(first.might_be_redundant(&mut latest), Some(None));
    let same = record(2, "a", 1_000_000, 0, 1, 500_000_000, 30);
    assert_eq!(same.might_be_redundant(&mut latest), None);
    let later = record(3, "a", 2_000_000, 0, 1, 600_000_000, 45);
    assert_eq!(later.might_be_redundant(&mut latest), Some(Some(same.clone())));
    assert_eq!(latest.get("a"), Some(&later));
}

#[test]
fn record_from_stored_row() {
    let row = DelayRecordWithID {
        id: 99,
        fetched_json_id: 7,
        trip_id: "x".to_string(),
        time: 5,
        previous_station: 1,
        next_station: 2,
        percentage_segment: 3,
        delay: 4,
    };
    assert_eq!(DelayRecord::from(row), record(7, "x", 5, 1, 2, 3, 4));
}

fn trip_overview(id: &str, now: i64) -> TripOverview {
    let s = |id: i64, arr: Option<i64>, dep: Option<i64>| TripStopover {
        stop: TripStop { name: String::new(), id },
        planned_arrival: arr,
        arrival_delay: Some(120),
        planned_departure: dep,
        departure_delay: None,
    };
    TripOverview {
        trip: Trip {
            id: id.to_string(),
            origin: TripOrigin { name: String::new() },
            destination: TripDestination { name: String::new() },
            departure: None,
            planned_departure: 0,
            current_location: None,
            stopovers: vec![s(1, None, Some(0)), s(2, Some(100_000_000), None)],
            departure_delay: None,
            arrival_delay: None,
        },
        realtime_data_updated_at: Some(now),
    }
}

#[test]
fn live_ingestion() {
    let mut cache = CacheState::new();
    let (rec, events) =
        ingest_trip_overview(&mut cache, HafasMsg::TripOverview(trip_overview("t", 10_000_000)), 1, 0)
            .unwrap();
    assert_eq!(rec.percentage_segment, 100_000_000);
    assert!(events.is_empty());
    let (rec, events) =
        ingest_trip_overview(&mut cache, HafasMsg::TripOverview(trip_overview("t", 30_000_000)), 2, 0)
            .unwrap();
    assert_eq!(rec.fetched_json_id, 2);
    assert_eq!(events.len(), 1);
    assert_eq!(events[0].time, 20_000_000);
    assert_eq!(events[0].percentage_segment, 200_000_000);
    let err = HafasMsg::HafasErr(HafasErr { message: "x".to_string(), hafas_description: None });
    assert!(ingest_trip_overview(&mut cache, err, 3, 0).is_none());
    assert!(ingest_trip_overview(&mut cache, HafasMsg::EmptyBody, 4, 0).is_none());
    assert_eq!(cache.trip_id_map.get("t").map(|e| e.0), Some(2));
}
