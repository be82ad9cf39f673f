use vstd::prelude::*;

use crate::cache::{
    delay_events_from_delay_record, derived_events, prior_record, trip_map_wf, CacheState,
    InvariantViolation, lemma_event_ids,
};
use crate::models::{events_view, DelayEvent, DelayRecord, EventView};
use crate::trip_map::TripMap;

verus! {

/// The most rows handed to storage in one statement.
pub const BATCH_SIZE: usize = 1024;

/// How many items are left to process: `total` less the high-water mark, and none
/// where that is not positive.
pub fn backlog(total: i64, high_water: i64) -> (r: u64)
    ensures
        r == (if total - high_water > 0 {
            total - high_water
        } else {
            0
        }),
{
    let left: i128 = total as i128 - high_water as i128;
    if left > 0 {
        left as u64
    } else {
        0
    }
}

/// Collects items and hands them out in batches once `limit` of them are waiting.
pub struct Batcher<T> {
    pending: Vec<T>,
    limit: usize,
}

impl<T> Batcher<T> {
    /// The items waiting to be handed out.
    pub closed spec fn pending(&self) -> Seq<T> {
        self.pending@
    }

    pub closed spec fn limit(&self) -> nat {
        self.limit as nat
    }

    /// Fewer than `limit` items wait.
    pub open spec fn wf(&self) -> bool {
        0 < self.limit() && self.pending().len() < self.limit()
    }

    pub fn new(limit: usize) -> (r: Self)
        requires
            limit > 0,
        ensures
            r.wf(),
            r.pending() == Seq::<T>::empty(),
            r.limit() == limit,
    {
        Batcher { pending: Vec::new(), limit }
    }

    /// Adds `items`; once `limit` or more wait, hands all of them out.
    pub fn push_all(&mut self, items: Vec<T>) -> (r: Option<Vec<T>>)
        requires
            old(self).wf(),
        ensures
            final(self).wf(),
            final(self).limit() == old(self).limit(),
            old(self).pending().len() + items@.len() >= old(self).limit() ==> {
                &&& r matches Some(batch)
                &&& batch@ == old(self).pending() + items@
                &&& final(self).pending() == Seq::<T>::empty()
            },
            old(self).pending().len() + items@.len() < old(self).limit() ==> {
                &&& r is None
                &&& final(self).pending() == old(self).pending() + items@
            },
    {
        let mut items = items;
        self.pending.append(&mut items);
        if self.pending.len() >= self.limit {
            let mut batch: Vec<T> = Vec::new();
            std::mem::swap(&mut batch, &mut self.pending);
            Some(batch)
        } else {
            None
        }
    }

    /// Hands out what waits.
    pub fn finish(self) -> (r: Vec<T>)
        ensures
            r@ == self.pending(),
    {
        self.pending
    }
}

/// The records that a rebuild resuming after `latest_fetched_json_id` writes, of
/// those offered in this order: the ones of later raw capture rows.
pub open spec fn written_records(offered: Seq<DelayRecord>, latest_fetched_json_id: int) -> Seq<
    DelayRecord,
>
    decreases offered.len(),
{
    if offered.len() == 0 {
        seq![]
    } else {
        let last = offered.last();
        written_records(offered.drop_last(), latest_fetched_json_id) + if latest_fetched_json_id
            < last.fetched_json_id {
            seq![last]
        } else {
            seq![]
        }
    }
}

/// Writing delay records resumes after the highest raw capture row that storage
/// already reflects: every record written comes from a later row.
pub proof fn lemma_written_records_resume(offered: Seq<DelayRecord>, latest_fetched_json_id: int)
    ensures
        forall|i: int|
            0 <= i < written_records(offered, latest_fetched_json_id).len()
                ==> latest_fetched_json_id < #[trigger] written_records(
                offered,
                latest_fetched_json_id,
            )[i].fetched_json_id,
    decreases offered.len(),
{
    if offered.len() > 0 {
        let rest = offered.drop_last();
        lemma_written_records_resume(rest, latest_fetched_json_id);
        let all = written_records(offered, latest_fetched_json_id);
        let earlier = written_records(rest, latest_fetched_json_id);
        assert forall|i: int| 0 <= i < all.len() implies latest_fetched_json_id
            < #[trigger] all[i].fetched_json_id by {
            if i < earlier.len() {
                assert(all[i] == earlier[i]);
            }
        }
    }
}

/// Rebuilding the delay records again, from the high-water mark that the first
/// rebuild left, writes nothing when no new raw rows came in between.
pub proof fn lemma_written_records_idempotent(
    offered: Seq<DelayRecord>,
    first_mark: int,
    second_mark: int,
)
    requires
        first_mark <= second_mark,
        forall|i: int|
            0 <= i < written_records(offered, first_mark).len() ==> #[trigger] written_records(
                offered,
                first_mark,
            )[i].fetched_json_id <= second_mark,
    ensures
        written_records(offered, second_mark) == Seq::<DelayRecord>::empty(),
    decreases offered.len(),
{
    if offered.len() > 0 {
        let rest = offered.drop_last();
        let last = offered.last();
        let earlier = written_records(rest, first_mark);
        assert forall|i: int| 0 <= i < earlier.len() implies #[trigger] earlier[i].fetched_json_id
            <= second_mark by {
            assert(written_records(offered, first_mark)[i] == earlier[i]);
        }
        lemma_written_records_idempotent(rest, first_mark, second_mark);
        if second_mark < last.fetched_json_id {
            assert(written_records(offered, first_mark)[earlier.len() as int] == last);
        }
        assert(written_records(offered, second_mark) =~= Seq::<DelayRecord>::empty());
    }
}

/// Writes delay records in batches, skipping those that storage already holds.
pub struct RecordRebuild {
    latest_fetched_json_id: i64,
    batch: Batcher<DelayRecord>,
    offered: Ghost<Seq<DelayRecord>>,
    emitted: Ghost<Seq<DelayRecord>>,
}

impl RecordRebuild {
    /// The high-water mark the rebuild resumes after.
    pub closed spec fn latest_fetched_json_id(&self) -> int {
        self.latest_fetched_json_id as int
    }

    /// The records offered so far.
    pub closed spec fn offered(&self) -> Seq<DelayRecord> {
        self.offered@
    }

    /// The records handed out in batches so far.
    pub closed spec fn emitted(&self) -> Seq<DelayRecord> {
        self.emitted@
    }

    /// The records waiting for the next batch.
    pub closed spec fn pending(&self) -> Seq<DelayRecord> {
        self.batch.pending()
    }

    pub closed spec fn wf(&self) -> bool {
        &&& self.batch.wf()
        &&& self.batch.limit() == BATCH_SIZE
        &&& self.emitted@ + self.batch.pending() == written_records(
            self.offered@,
            self.latest_fetched_json_id as int,
        )
    }

    pub fn new(latest_fetched_json_id: i64) -> (r: Self)
        ensures
            r.wf(),
            r.latest_fetched_json_id() == latest_fetched_json_id,
            r.offered() == Seq::<DelayRecord>::empty(),
            r.emitted() == Seq::<DelayRecord>::empty(),
    {
        RecordRebuild {
            latest_fetched_json_id,
            batch: Batcher::new(BATCH_SIZE),
            offered: Ghost(Seq::empty()),
            emitted: Ghost(Seq::empty()),
        }
    }

    /// Offers the next extracted record; returns a batch once one is full.
    pub fn offer(&mut self, record: DelayRecord) -> (r: Option<Vec<DelayRecord>>)
        requires
            old(self).wf(),
        ensures
            final(self).wf(),
            final(self).latest_fetched_json_id() == old(self).latest_fetched_json_id(),
            final(self).offered() == old(self).offered().push(record),
            final(self).emitted() == old(self).emitted() + match r {
                Some(batch) => batch@,
                None => Seq::<DelayRecord>::empty(),
            },
            final(self).emitted() + final(self).pending() == written_records(
                final(self).offered(),
                final(self).latest_fetched_json_id(),
            ),
            r matches Some(batch) ==> forall|i: int|
                0 <= i < batch@.len() ==> old(self).latest_fetched_json_id()
                    < #[trigger] batch@[i].fetched_json_id,
    {
        let ghost old_pending = self.batch.pending();
        let keep = self.latest_fetched_json_id < record.fetched_json_id;
        let ghost fresh = if keep {
            seq![record]
        } else {
            Seq::<DelayRecord>::empty()
        };
        proof {
            self.offered@ = self.offered@.push(record);
            assert(self.offered@.drop_last() =~= old(self).offered@);
        }
        let items: Vec<DelayRecord> = if keep {
            vec![record]
        } else {
            Vec::new()
        };
        assert(items@ == fresh);
        let r = self.batch.push_all(items);
        proof {
            lemma_written_records_resume(self.offered@, self.latest_fetched_json_id as int);
            let all = written_records(self.offered@, self.latest_fetched_json_id as int);
            assert(all == self.emitted@ + old_pending + fresh);
            if r is Some {
                let batch = r->Some_0;
                assert(self.emitted@ + batch@ + Seq::<DelayRecord>::empty() =~= all);
                assert forall|i: int| 0 <= i < batch@.len() implies self.latest_fetched_json_id
                    < #[trigger] batch@[i].fetched_json_id by {
                    assert(all[self.emitted@.len() + i] == batch@[i]);
                    assert(self.latest_fetched_json_id < all[self.emitted@.len()
                        + i].fetched_json_id);
                }
                self.emitted@ = self.emitted@ + batch@;
            } else {
                assert(self.emitted@ + Seq::<DelayRecord>::empty() =~= self.emitted@);
            }
            assert(self.emitted@ + self.batch.pending() =~= all);
        }
        r
    }

    /// Hands out the last, partial batch.
    pub fn finish(self) -> (r: Vec<DelayRecord>)
        requires
            self.wf(),
        ensures
            self.emitted() + r@ == written_records(self.offered(), self.latest_fetched_json_id()),
    {
        self.batch.finish()
    }
}

/// The latest record of each trip after the given records, in this order.
pub open spec fn trips_after(records: Seq<DelayRecord>) -> Map<Seq<char>, (i64, DelayRecord)>
    decreases records.len(),
{
    if records.len() == 0 {
        Map::empty()
    } else {
        let last = records.last();
        trips_after(records.drop_last()).insert(last.trip_id@, (last.fetched_json_id, last))
    }
}

/// The events that a rebuild resuming after `latest_to_id` writes when it derives
/// events from the given records, in this order: those of later records.
pub open spec fn written_events(records: Seq<DelayRecord>, latest_to_id: int) -> Seq<EventView>
    decreases records.len(),
{
    if records.len() == 0 {
        seq![]
    } else {
        let rest = records.drop_last();
        let last = records.last();
        written_events(rest, latest_to_id) + if latest_to_id < last.fetched_json_id {
            derived_events(prior_record(trips_after(rest), last.trip_id@), last)
        } else {
            seq![]
        }
    }
}

/// All records are valid.
pub open spec fn all_valid(records: Seq<DelayRecord>) -> bool {
    forall|i: int| 0 <= i < records.len() ==> #[trigger] records[i].is_valid()
}

pub proof fn lemma_trips_after_wf(records: Seq<DelayRecord>)
    requires
        all_valid(records),
    ensures
        trip_map_wf(trips_after(records)),
    decreases records.len(),
{
    if records.len() > 0 {
        let rest = records.drop_last();
        assert(all_valid(rest)) by {
            assert forall|i: int| 0 <= i < rest.len() implies #[trigger] rest[i].is_valid() by {
                assert(rest[i] == records[i]);
            }
        }
        lemma_trips_after_wf(rest);
        assert(records.last() == records[records.len() - 1]);
    }
}

/// Writing delay events resumes after the highest record that storage already
/// reflects: every event written ends at a later record.
pub proof fn lemma_written_events_resume(records: Seq<DelayRecord>, latest_to_id: int)
    ensures
        forall|i: int|
            0 <= i < written_events(records, latest_to_id).len() ==> latest_to_id
                < #[trigger] written_events(records, latest_to_id)[i].to_id,
    decreases records.len(),
{
    if records.len() > 0 {
        let rest = records.drop_last();
        let last = records.last();
        lemma_written_events_resume(rest, latest_to_id);
        let prior = prior_record(trips_after(rest), last.trip_id@);
        if prior is Some {
            lemma_event_ids(prior, last);
        }
        let all = written_events(records, latest_to_id);
        let earlier = written_events(rest, latest_to_id);
        assert forall|i: int| 0 <= i < all.len() implies latest_to_id < #[trigger] all[i].to_id by {
            if i < earlier.len() {
                assert(all[i] == earlier[i]);
            } else {
                assert(all[i] == derived_events(prior, last)[i - earlier.len()]);
            }
        }
    }
}

/// Rebuilding the delay events again, from the high-water mark that the first
/// rebuild left, writes nothing when no new records came in between.
pub proof fn lemma_written_events_idempotent(
    records: Seq<DelayRecord>,
    first_mark: int,
    second_mark: int,
)
    requires
        first_mark <= second_mark,
        forall|i: int|
            0 <= i < written_events(records, first_mark).len() ==> #[trigger] written_events(
                records,
                first_mark,
            )[i].to_id <= second_mark,
    ensures
        written_events(records, second_mark) == Seq::<EventView>::empty(),
    decreases records.len(),
{
    if records.len() > 0 {
        let rest = records.drop_last();
        let last = records.last();
        let earlier = written_events(rest, first_mark);
        assert forall|i: int| 0 <= i < earlier.len() implies #[trigger] earlier[i].to_id
            <= second_mark by {
            assert(written_events(records, first_mark)[i] == earlier[i]);
        }
        lemma_written_events_idempotent(rest, first_mark, second_mark);
        let prior = prior_record(trips_after(rest), last.trip_id@);
        let evs = derived_events(prior, last);
        if second_mark < last.fetched_json_id && evs.len() > 0 {
            assert(prior is Some);
            lemma_event_ids(prior, last);
            assert(written_events(records, first_mark) == earlier + evs);
            assert(written_events(records, first_mark)[earlier.len() as int] == evs[0]);
            assert(written_events(records, first_mark)[earlier.len() as int].to_id <= second_mark);
            assert(evs[0].to_id == last.fetched_json_id);
        }
        assert(written_events(records, second_mark) =~= Seq::<EventView>::empty());
    }
}

/// Derives delay events from the records in order, writing in batches those that
/// storage does not hold yet, and builds up the latest record of each trip.
pub struct EventRebuild {
    trip_id_map: TripMap<(i64, DelayRecord)>,
    latest_to_id: i64,
    batch: Batcher<DelayEvent>,
    fed: Ghost<Seq<DelayRecord>>,
    emitted: Ghost<Seq<EventView>>,
}

impl EventRebuild {
    /// The high-water mark the rebuild resumes after.
    pub closed spec fn latest_to_id(&self) -> int {
        self.latest_to_id as int
    }

    /// The records fed so far.
    pub closed spec fn fed(&self) -> Seq<DelayRecord> {
        self.fed@
    }

    /// The events handed out in batches so far.
    pub closed spec fn emitted(&self) -> Seq<EventView> {
        self.emitted@
    }

    /// The events waiting for the next batch.
    pub closed spec fn pending(&self) -> Seq<EventView> {
        events_view(self.batch.pending())
    }

    pub closed spec fn wf(&self) -> bool {
        &&& self.batch.wf()
        &&& self.batch.limit() == BATCH_SIZE
        &&& all_valid(self.fed@)
        &&& self.trip_id_map@ == trips_after(self.fed@)
        &&& self.emitted@ + events_view(self.batch.pending()) == written_events(
            self.fed@,
            self.latest_to_id as int,
        )
    }

    pub fn new(latest_to_id: i64) -> (r: Self)
        ensures
            r.wf(),
            r.latest_to_id() == latest_to_id,
            r.fed() == Seq::<DelayRecord>::empty(),
            r.emitted() == Seq::<EventView>::empty(),
    {
        let r = EventRebuild {
            trip_id_map: TripMap::new(),
            latest_to_id,
            batch: Batcher::new(BATCH_SIZE),
            fed: Ghost(Seq::empty()),
            emitted: Ghost(Seq::empty()),
        };
        assert(events_view(Seq::<DelayEvent>::empty()) =~= Seq::<EventView>::empty());
        r
    }

    /// Feeds the next record, in the order of the raw capture rows; returns a batch
    /// of events once one is full. A record whose segment position lies outside its
    /// segment stops the rebuild: it is refused and nothing changes.
    pub fn feed(&mut self, record: &DelayRecord) -> (r: Result<
        Option<Vec<DelayEvent>>,
        InvariantViolation,
    >)
        requires
            old(self).wf(),
        ensures
            final(self).wf(),
            final(self).latest_to_id() == old(self).latest_to_id(),
            record.is_valid() ==> {
                &&& r is Ok
                &&& final(self).fed() == old(self).fed().push(*record)
                &&& final(self).emitted() == old(self).emitted() + match r {
                    Ok(Some(batch)) => events_view(batch@),
                    _ => Seq::<EventView>::empty(),
                }
            },
            !record.is_valid() ==> {
                &&& r == Err::<Option<Vec<DelayEvent>>, InvariantViolation>(
                    InvariantViolation {
                        fetched_json_id: record.fetched_json_id,
                        percentage_segment: record.percentage_segment,
                    },
                )
                &&& final(self).fed() == old(self).fed()
                &&& final(self).emitted() == old(self).emitted()
                &&& final(self).pending() == old(self).pending()
            },
            final(self).emitted() + final(self).pending() == written_events(
                final(self).fed(),
                final(self).latest_to_id(),
            ),
            r matches Ok(Some(batch)) ==> forall|i: int|
                0 <= i < batch@.len() ==> old(self).latest_to_id()
                    < #[trigger] batch@[i].to_id,
    {
        let ghost old_pending = self.batch.pending();
        proof {
            lemma_trips_after_wf(self.fed@);
        }
        let derived = delay_events_from_delay_record(&mut self.trip_id_map, record);
        let events = match derived {
            Err(e) => {
                return Err(e);
            },
            Ok(events) => events,
        };
        let ghost prior = prior_record(trips_after(self.fed@), record.trip_id@);
        proof {
            let fed = self.fed@.push(*record);
            assert(fed.drop_last() =~= self.fed@);
            assert(all_valid(fed)) by {
                assert forall|i: int| 0 <= i < fed.len() implies #[trigger] fed[i].is_valid() by {
                    if i < self.fed@.len() {
                        assert(fed[i] == self.fed@[i]);
                    }
                }
            }
            self.fed@ = fed;
        }
        let keep = self.latest_to_id < record.fetched_json_id;
        let items: Vec<DelayEvent> = if keep {
            events
        } else {
            Vec::new()
        };
        let r = self.batch.push_all(items);
        proof {
            lemma_written_events_resume(self.fed@, self.latest_to_id as int);
            let all = written_events(self.fed@, self.latest_to_id as int);
            let fresh = events_view(items@);
            assert(events_view(old_pending + items@) =~= events_view(old_pending) + fresh);
            assert(all == self.emitted@ + events_view(old_pending) + fresh);
            if r is Some {
                let batch = r->Some_0;
                assert(events_view(Seq::<DelayEvent>::empty()) =~= Seq::<EventView>::empty());
                assert(self.emitted@ + events_view(batch@) =~= all);
                assert forall|i: int| 0 <= i < batch@.len() implies self.latest_to_id
                    < #[trigger] batch@[i].to_id by {
                    assert(all[self.emitted@.len() + i] == events_view(batch@)[i]);
                    assert(events_view(batch@)[i] == batch@[i]@);
                    assert(self.latest_to_id < all[self.emitted@.len() + i].to_id);
                }
                self.emitted@ = self.emitted@ + events_view(batch@);
            } else {
                assert(self.emitted@ + Seq::<EventView>::empty() =~= self.emitted@);
            }
            assert(self.emitted@ + events_view(self.batch.pending()) =~= all);
        }
        Ok(r)
    }

    /// Hands out the last, partial batch, and the latest record of each trip.
    pub fn finish(self) -> (r: (Vec<DelayEvent>, CacheState))
        requires
            self.wf(),
        ensures
            self.emitted() + events_view(r.0@) == written_events(self.fed(), self.latest_to_id()),
            r.1.trip_id_map@ == trips_after(self.fed()),
            trip_map_wf(r.1.trip_id_map@),
    {
        proof {
            lemma_trips_after_wf(self.fed@);
        }
        let EventRebuild { trip_id_map, batch, .. } = self;
        (batch.finish(), CacheState { trip_id_map })
    }
}

} // verus!
