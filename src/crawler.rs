use vstd::prelude::*;
use vstd::string::{StringExecFns, StringSliceAdditionalSpecFns};

use crate::cache::{
    delay_events_from_delay_record, derived_events, prior_record, trip_map_wf, CacheState,
};
use crate::models::{
    delay_record_from_trip_overview, events_view, record_from_overview, DelayEvent, DelayRecord,
};
use crate::transport::HafasMsg;

verus! {

/// The path of the trip endpoints of the transit API.
pub const TRIPS_PATH: &'static str = "/trips";

/// The query that selects the trips of the observed line.
pub const TRIPS_QUERY: &'static str = "?lineName=RE1&operatorNames=ODEG";

/// A byte that percent-encoding leaves as it is: an ASCII letter or digit, or one
/// of `-`, `.`, `_` and `~`.
pub open spec fn unreserved(b: u8) -> bool {
    (48 <= b <= 57) || (65 <= b <= 90) || (97 <= b <= 122) || b == 45 || b == 46 || b == 95
        || b == 126
}

/// The upper-case hex digit of a value below sixteen.
pub open spec fn hex_digit(d: u8) -> char {
    if d < 10 {
        (48 + d) as char
    } else {
        (55 + d) as char
    }
}

/// Percent-encoding of a byte string: unreserved bytes stand for themselves, every
/// other byte becomes `%` and its two upper-case hex digits.
pub open spec fn percent_encoded(bytes: Seq<u8>) -> Seq<char>
    decreases bytes.len(),
{
    if bytes.len() == 0 {
        seq![]
    } else {
        let b = bytes[0];
        (if unreserved(b) {
            seq![b as char]
        } else {
            seq!['%', hex_digit(b / 16), hex_digit(b % 16)]
        }) + percent_encoded(bytes.drop_first())
    }
}

/// Relies on `urlencoding::encode`, which percent-encodes every byte of the text's
/// UTF-8 form but ASCII letters, digits, `-`, `.`, `_` and `~`, with upper-case hex
/// digits.
#[verifier::external_body]
fn url_encode(s: &str) -> (r: String)
    ensures
        r@ == percent_encoded(s.spec_bytes()),
{
    urlencoding::encode(s).into_owned()
}

/// The address of the trips that currently run on the observed line.
pub fn trips_overview_url(base: &str) -> (r: String)
    ensures
        r@ == base@ + TRIPS_PATH@ + TRIPS_QUERY@,
{
    let mut url = base.to_owned();
    url.append(TRIPS_PATH);
    url.append(TRIPS_QUERY);
    url
}

/// The address of one trip, whose id is percent-encoded into the path.
pub fn trip_url(base: &str, trip_id: &str) -> (r: String)
    ensures
        r@ == base@ + TRIPS_PATH@ + seq!['/'] + percent_encoded(trip_id.spec_bytes()),
{
    let mut url = base.to_owned();
    url.append(TRIPS_PATH);
    url.append("/");
    proof {
        reveal_strlit("/");
    }
    let encoded = url_encode(trip_id);
    url.append(encoded.as_str());
    url
}

/// Handles one message fetched for a trip on the live path, in raw capture row
/// `row_id`: a trip overview that yields a delay record gives that record and the
/// events it derives, and the record becomes the latest of its trip. Anything else
/// gives nothing and changes nothing.
pub fn ingest_trip_overview(
    cache_state: &mut CacheState,
    msg: HafasMsg,
    row_id: i64,
    fetched_at: i64,
) -> (r: Option<(DelayRecord, Vec<DelayEvent>)>)
    requires
        trip_map_wf(old(cache_state).trip_id_map@),
    ensures
        trip_map_wf(final(cache_state).trip_id_map@),
        match msg {
            HafasMsg::TripOverview(to) => match record_from_overview(to, row_id, fetched_at) {
                Some(record) => {
                    &&& r matches Some((rec, events)) && rec == record && events_view(events@)
                        == derived_events(
                        prior_record(old(cache_state).trip_id_map@, record.trip_id@),
                        record,
                    )
                    &&& final(cache_state).trip_id_map@ == old(cache_state).trip_id_map@.insert(
                        record.trip_id@,
                        (record.fetched_json_id, record),
                    )
                },
                None => r is None && final(cache_state).trip_id_map@ == old(
                    cache_state,
                ).trip_id_map@,
            },
            _ => r is None && final(cache_state).trip_id_map@ == old(cache_state).trip_id_map@,
        },
{
    match msg {
        HafasMsg::TripOverview(to) => match delay_record_from_trip_overview(to, row_id, fetched_at) {
            Some(record) => {
                match delay_events_from_delay_record(&mut cache_state.trip_id_map, &record) {
                    Ok(events) => Some((record, events)),
                    Err(_) => None,
                }
            },
            None => None,
        },
        _ => None,
    }
}

} // verus!
