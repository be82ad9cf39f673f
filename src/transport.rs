use vstd::prelude::*;
use vstd::string::StringSliceAdditionalSpecFns;

verus! {

/// The text that a gateway's error page carries in place of a message.
pub const BAD_GATEWAY_FRAGMENT: &'static str = "502 Bad Gateway";

/// Everything that the trip endpoints of the transit API can answer.
#[derive(Debug, Clone)]
pub enum HafasMsg {
    TripOverview(TripOverview),
    TripsOverview(TripsOverview),
    TransportRestErr(TransportRestErr),
    HafasErr(HafasErr),
    EmptyBody,
    BadGatewayError,
}

/// An error reported by the REST layer in front of the timetable system.
#[derive(Debug, Clone)]
pub struct TransportRestErr {
    pub message: String,
    pub error_type: String,
    pub errno: String,
    pub code: String,
}

/// An error reported by the timetable system itself.
#[derive(Debug, Clone)]
pub struct HafasErr {
    pub message: String,
    pub hafas_description: Option<String>,
}

/// The trips that currently run.
#[derive(Debug, Clone)]
pub struct TripsOverview {
    pub trips: Vec<Trip>,
}

/// One trip, with the instant its realtime data was last updated.
#[derive(Debug, Clone)]
pub struct TripOverview {
    pub trip: Trip,
    /// Microseconds since the Unix epoch.
    pub realtime_data_updated_at: Option<i64>,
}

/// One scheduled run of a vehicle along the line. Instants are microseconds since
/// the Unix epoch.
#[derive(Debug, Clone)]
pub struct Trip {
    pub id: String,
    pub origin: TripOrigin,
    pub destination: TripDestination,
    pub departure: Option<i64>,
    pub planned_departure: i64,
    pub current_location: Option<TripLocation>,
    pub stopovers: Vec<TripStopover>,
    pub departure_delay: Option<i64>,
    pub arrival_delay: Option<i64>,
}

#[derive(Debug, Clone)]
pub struct TripOrigin {
    pub name: String,
}

#[derive(Debug, Clone)]
pub struct TripDestination {
    pub name: String,
}

/// A position in millionths of a degree.
#[derive(Debug, Clone)]
pub struct TripLocation {
    pub latitude: i64,
    pub longitude: i64,
}

/// A stop of a trip with its planned instants (microseconds since the Unix epoch)
/// and delays (seconds).
#[derive(Debug, Clone)]
pub struct TripStopover {
    pub stop: TripStop,
    pub planned_arrival: Option<i64>,
    pub arrival_delay: Option<i64>,
    pub planned_departure: Option<i64>,
    pub departure_delay: Option<i64>,
}

#[derive(Debug, Clone)]
pub struct TripStop {
    pub name: String,
    pub id: i64,
}

/// `needle` occurs in `hay` as a contiguous run.
pub open spec fn contains_run(hay: Seq<u8>, needle: Seq<u8>) -> bool {
    exists|i: int|
        0 <= i && i + needle.len() <= hay.len() && #[trigger] hay.subrange(i, i + needle.len())
            == needle
}

/// Whether `needle` occurs in `hay` as a contiguous run.
pub fn contains_bytes(hay: &[u8], needle: &[u8]) -> (r: bool)
    ensures
        r == contains_run(hay@, needle@),
{
    let n = needle.len();
    if n > hay.len() {
        return false;
    }
    let mut i: usize = 0;
    while i <= hay.len() - n
        invariant
            n == needle@.len(),
            n <= hay@.len(),
            i <= hay@.len() - n + 1,
            forall|j: int| 0 <= j < i ==> #[trigger] hay@.subrange(j, j + n) != needle@,
        decreases hay.len() - i,
    {
        let mut k: usize = 0;
        while k < n && hay[i + k] == needle[k]
            invariant
                i + n <= hay.len(),
                n == needle@.len(),
                i + n <= hay@.len(),
                k <= n,
                forall|l: int| 0 <= l < k ==> hay@[i + l] == needle@[l],
            decreases n - k,
        {
            k += 1;
        }
        if k == n {
            assert(hay@.subrange(i as int, i + n) =~= needle@);
            return true;
        }
        assert(hay@.subrange(i as int, i + n)[k as int] != needle@[k as int]);
        i += 1;
    }
    false
}

/// The message that a body stands for when it is no message of the API: an empty
/// body, or a gateway's error page. `None` for any other body.
pub fn classify_undecodable(json: &str) -> (r: Option<HafasMsg>)
    ensures
        r == (if json.spec_bytes().len() == 0 {
            Some(HafasMsg::EmptyBody)
        } else if contains_run(json.spec_bytes(), BAD_GATEWAY_FRAGMENT.spec_bytes()) {
            Some(HafasMsg::BadGatewayError)
        } else {
            None
        }),
{
    let bytes = json.as_bytes();
    if bytes.len() == 0 {
        Some(HafasMsg::EmptyBody)
    } else if contains_bytes(bytes, BAD_GATEWAY_FRAGMENT.as_bytes()) {
        Some(HafasMsg::BadGatewayError)
    } else {
        None
    }
}

} // verus!
