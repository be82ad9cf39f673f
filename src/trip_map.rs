use vstd::hash_map::StringHashMap;
use vstd::prelude::*;

verus! {

/// A map from trip ids to one value per trip.
#[verifier::reject_recursive_types(V)]
pub struct TripMap<V> {
    entries: StringHashMap<V>,
}

impl<V> View for TripMap<V> {
    type V = Map<Seq<char>, V>;

    closed spec fn view(&self) -> Map<Seq<char>, V> {
        self.entries@
    }
}

impl<V> TripMap<V> {
    pub fn new() -> (r: Self)
        ensures
            r@ == Map::<Seq<char>, V>::empty(),
    {
        TripMap { entries: StringHashMap::new() }
    }

    pub fn len(&self) -> (r: usize)
        ensures
            r == self@.len(),
    {
        self.entries.len()
    }

    pub fn get(&self, trip_id: &str) -> (r: Option<&V>)
        ensures
            match r {
                Some(v) => self@.contains_key(trip_id@) && *v == self@[trip_id@],
                None => !self@.contains_key(trip_id@),
            },
    {
        self.entries.get(trip_id)
    }

    pub fn insert(&mut self, trip_id: String, value: V)
        ensures
            final(self)@ == old(self)@.insert(trip_id@, value),
    {
        self.entries.insert(trip_id, value);
    }
}

} // verus!
