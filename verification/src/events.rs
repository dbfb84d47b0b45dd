//! Event records, addressed by the composite key
//! (`group_id`, `start_time`, `event_id`): a partition key plus clustering
//! keys, so that all events of a group read out ordered by time. A point
//! lookup or delete needs the full triple.

use vstd::prelude::*;

use crate::collab::fresh_uuid;
use crate::collab::now_millis;
use crate::errors::RepoError;
use crate::table::distinct_keys;
use crate::table::keyed_map_of;
use crate::table::lemma_keyed_map_of;
use crate::table::lemma_keyed_map_insert_at;
use crate::table::lemma_keyed_map_remove;
use crate::table::lemma_keyed_map_update;

verus! {

/// A stored event row. Coordinates are carried as IEEE 754 bit patterns;
/// the repository never computes with them.
#[derive(Debug)]
pub struct Event {
    pub event_id: u128,
    pub group_id: u128,
    pub title: String,
    pub description: String,
    pub start_time: i64,
    pub end_time: i64,
    pub lat_bits: u64,
    pub lon_bits: u64,
    pub location: String,
    pub created_at: i64,
    pub updated_at: i64,
}

impl Clone for Event {
    fn clone(&self) -> (r: Self)
        ensures
            r == *self,
    {
        Event {
            event_id: self.event_id,
            group_id: self.group_id,
            title: self.title.clone(),
            description: self.description.clone(),
            start_time: self.start_time,
            end_time: self.end_time,
            lat_bits: self.lat_bits,
            lon_bits: self.lon_bits,
            location: self.location.clone(),
            created_at: self.created_at,
            updated_at: self.updated_at,
        }
    }
}

/// The composite key of an event row.
pub open spec fn event_key_of(e: Event) -> (u128, i64, u128) {
    (e.group_id, e.start_time, e.event_id)
}

/// The composite key as the row-set key function.
pub open spec fn event_key() -> spec_fn(Event) -> (u128, i64, u128) {
    |e: Event| event_key_of(e)
}

/// The clustering order: keys compare lexicographically, so one group's
/// rows are contiguous and ordered by start time.
pub open spec fn key_lt(a: (u128, i64, u128), b: (u128, i64, u128)) -> bool {
    ||| a.0 < b.0
    ||| (a.0 == b.0 && a.1 < b.1)
    ||| (a.0 == b.0 && a.1 == b.1 && a.2 < b.2)
}

/// Membership of the events of one group, used by the range-scan contract.
pub open spec fn group_pred(group_id: u128) -> spec_fn(Event) -> bool {
    |e: Event| e.group_id == group_id
}

fn key_cmp_lt(
    a_group: u128,
    a_start: i64,
    a_id: u128,
    b_group: u128,
    b_start: i64,
    b_id: u128,
) -> (r: bool)
    ensures
        r == key_lt((a_group, a_start, a_id), (b_group, b_start, b_id)),
{
    a_group < b_group || (a_group == b_group && (a_start < b_start || (a_start == b_start && a_id
        < b_id)))
}

/// The events row set, kept in clustering order.
pub struct EventStore {
    events: Vec<Event>,
}

impl EventStore {
    /// The row set as a map from composite key to row.
    pub closed spec fn events_map(self) -> Map<(u128, i64, u128), Event> {
        keyed_map_of(self.events@, event_key())
    }

    /// The rows in clustering order; scans return subsequences of this.
    pub closed spec fn events_seq(self) -> Seq<Event> {
        self.events@
    }

    /// The rows are strictly sorted by composite key: the clustering
    /// invariant, which also makes keys pairwise distinct.
    pub closed spec fn wf(self) -> bool {
        forall|i: int, j: int|
            0 <= i < j < self.events@.len() ==> key_lt(
                event_key_of(#[trigger] self.events@[i]),
                event_key_of(#[trigger] self.events@[j]),
            )
    }

    proof fn lemma_wf_distinct(self)
        requires
            self.wf(),
        ensures
            distinct_keys(self.events@, event_key()),
    {
    }

    /// An empty row set.
    pub fn new() -> (r: EventStore)
        ensures
            r.wf(),
            r.events_map() == Map::<(u128, i64, u128), Event>::empty(),
            r.events_seq() == Seq::<Event>::empty(),
    {
        EventStore { events: Vec::new() }
    }

    fn find_at_or_after(&self, group_id: u128, start_time: i64, event_id: u128) -> (r: usize)
        requires
            self.wf(),
        ensures
            r <= self.events@.len(),
            forall|i: int|
                0 <= i < r ==> key_lt(
                    event_key_of(#[trigger] self.events@[i]),
                    (group_id, start_time, event_id),
                ),
            forall|i: int|
                r <= i < self.events@.len() ==> !key_lt(
                    event_key_of(#[trigger] self.events@[i]),
                    (group_id, start_time, event_id),
                ),
    {
        let mut i: usize = 0;
        while i < self.events.len()
            invariant
                0 <= i <= self.events@.len(),
                forall|j: int|
                    0 <= j < i ==> key_lt(
                        event_key_of(#[trigger] self.events@[j]),
                        (group_id, start_time, event_id),
                    ),
            ensures
                i <= self.events@.len(),
                forall|j: int|
                    0 <= j < i ==> key_lt(
                        event_key_of(#[trigger] self.events@[j]),
                        (group_id, start_time, event_id),
                    ),
                i < self.events@.len() ==> !key_lt(
                    event_key_of(self.events@[i as int]),
                    (group_id, start_time, event_id),
                ),
            decreases self.events@.len() - i,
        {
            let e = &self.events[i];
            if !key_cmp_lt(e.group_id, e.start_time, e.event_id, group_id, start_time, event_id) {
                break;
            }
            i = i + 1;
        }
        proof {
            assert forall|j: int|
                i <= j < self.events@.len() implies !key_lt(
                event_key_of(#[trigger] self.events@[j]),
                (group_id, start_time, event_id),
            ) by {
                if j > i {
                    assert(key_lt(
                        event_key_of(self.events@[i as int]),
                        event_key_of(self.events@[j]),
                    ));
                }
            }
        }
        i
    }

    /// Write an event row: an upsert keyed by the composite key, placed so
    /// the clustering order is kept.
    pub fn insert_event_row(&mut self, event: Event)
        requires
            old(self).wf(),
        ensures
            final(self).wf(),
            final(self).events_map() == old(self).events_map().insert(event_key_of(event), event),
            !old(self).events_map().contains_key(event_key_of(event)) ==> exists|p: int|
                0 <= p <= old(self).events_seq().len() && final(self).events_seq()
                    == old(self).events_seq().insert(p, event),
            old(self).events_map().contains_key(event_key_of(event)) ==> exists|p: int|
                0 <= p < old(self).events_seq().len() && event_key_of(
                    old(self).events_seq()[p],
                ) == event_key_of(event) && final(self).events_seq()
                    == old(self).events_seq().update(p, event),
    {
        let ghost s0 = self.events@;
        let ghost k = event_key_of(event);
        proof {
            self.lemma_wf_distinct();
            lemma_keyed_map_of(s0, event_key());
        }
        let p = self.find_at_or_after(event.group_id, event.start_time, event.event_id);
        let same = if p < self.events.len() {
            let e = &self.events[p];
            e.group_id == event.group_id && e.start_time == event.start_time && e.event_id
                == event.event_id
        } else {
            false
        };
        if same {
            proof {
                lemma_keyed_map_update(s0, event_key(), p as int, event);
            }
            self.events[p] = event;
            proof {
                assert(keyed_map_of(s0, event_key()).contains_key(k));
                assert(0 <= (p as int) && (p as int) < old(self).events_seq().len());
                assert(event_key_of(old(self).events_seq()[p as int]) == event_key_of(event));
                assert(self.events@ == old(self).events_seq().update(p as int, event));
                assert forall|i: int, j: int|
                    0 <= i < j < self.events@.len() implies key_lt(
                    event_key_of(#[trigger] self.events@[i]),
                    event_key_of(#[trigger] self.events@[j]),
                ) by {
                    assert(event_key_of(self.events@[i]) == event_key_of(s0[i]));
                    assert(event_key_of(self.events@[j]) == event_key_of(s0[j]));
                }
            }
        } else {
            proof {
                assert forall|i: int| 0 <= i < s0.len() implies event_key_of(#[trigger] s0[i])
                    != k by {
                    if i < p {
                        assert(key_lt(event_key_of(s0[i]), k));
                    }
                }
                lemma_keyed_map_insert_at(s0, event_key(), p as int, event);
                s0.insert_ensures(p as int, event);
            }
            self.events.insert(p, event);
            proof {
                assert(!keyed_map_of(s0, event_key()).contains_key(k));
                assert(0 <= (p as int) && (p as int) <= old(self).events_seq().len());
                assert(self.events@ == old(self).events_seq().insert(p as int, event));
                assert forall|i: int, j: int|
                    0 <= i < j < self.events@.len() implies key_lt(
                    event_key_of(#[trigger] self.events@[i]),
                    event_key_of(#[trigger] self.events@[j]),
                ) by {
                    let pi = p as int;
                    if i < pi && j == pi {
                        assert(key_lt(event_key_of(s0[i]), k));
                    } else if i == pi && j > pi {
                        assert(!key_lt(event_key_of(s0[j - 1]), k));
                        assert(event_key_of(s0[j - 1]) != k);
                    } else if i < pi && j > pi {
                        assert(key_lt(event_key_of(s0[i]), event_key_of(s0[j - 1])));
                    } else {
                        let i0 = if i < pi { i } else { i - 1 };
                        let j0 = if j < pi { j } else { j - 1 };
                        assert(key_lt(event_key_of(s0[i0]), event_key_of(s0[j0])));
                    }
                }
            }
        }
    }

    fn find_exact(&self, group_id: u128, start_time: i64, event_id: u128) -> (r: Option<usize>)
        requires
            self.wf(),
        ensures
            match r {
                Some(i) => i < self.events@.len() && event_key_of(self.events@[i as int]) == (
                    group_id,
                    start_time,
                    event_id,
                ),
                None => !self.events_map().contains_key((group_id, start_time, event_id)),
            },
    {
        proof {
            self.lemma_wf_distinct();
            lemma_keyed_map_of(self.events@, event_key());
        }
        let mut i: usize = 0;
        while i < self.events.len()
            invariant
                0 <= i <= self.events@.len(),
                forall|j: int|
                    0 <= j < i ==> event_key_of(#[trigger] self.events@[j]) != (
                        group_id,
                        start_time,
                        event_id,
                    ),
            decreases self.events@.len() - i,
        {
            let e = &self.events[i];
            if e.group_id == group_id && e.start_time == start_time && e.event_id == event_id {
                return Some(i);
            }
            i = i + 1;
        }
        None
    }

    /// Point read by the full composite key.
    pub fn select_event(&self, event_id: u128, group_id: u128, start_time: i64) -> (r: Option<
        Event,
    >)
        requires
            self.wf(),
        ensures
            r == if self.events_map().contains_key((group_id, start_time, event_id)) {
                Some(self.events_map()[(group_id, start_time, event_id)])
            } else {
                Option::<Event>::None
            },
            r matches Some(ev) ==> event_key_of(ev) == (group_id, start_time, event_id),
    {
        proof {
            self.lemma_wf_distinct();
            lemma_keyed_map_of(self.events@, event_key());
        }
        match self.find_exact(group_id, start_time, event_id) {
            Some(i) => Some(self.events[i].clone()),
            None => None,
        }
    }

    /// Delete by the full composite key; reports whether a row was present.
    pub fn delete_event_row(&mut self, event_id: u128, group_id: u128, start_time: i64) -> (r:
        bool)
        requires
            old(self).wf(),
        ensures
            final(self).wf(),
            r == old(self).events_map().contains_key((group_id, start_time, event_id)),
            final(self).events_map() == old(self).events_map().remove(
                (group_id, start_time, event_id),
            ),
            !r ==> *final(self) == *old(self),
    {
        let ghost s0 = self.events@;
        proof {
            self.lemma_wf_distinct();
            lemma_keyed_map_of(s0, event_key());
        }
        match self.find_exact(group_id, start_time, event_id) {
            Some(i) => {
                proof {
                    lemma_keyed_map_remove(s0, event_key(), i as int);
                    assert(keyed_map_of(s0, event_key()).contains_key(
                        (group_id, start_time, event_id),
                    ));
                }
                self.events.remove(i);
                proof {
                    assert forall|a: int, b: int|
                        0 <= a < b < self.events@.len() implies key_lt(
                        event_key_of(#[trigger] self.events@[a]),
                        event_key_of(#[trigger] self.events@[b]),
                    ) by {
                        let a0 = if a < i { a } else { a + 1 };
                        let b0 = if b < i { b } else { b + 1 };
                        assert(self.events@[a] == s0[a0] && self.events@[b] == s0[b0]);
                    }
                }
                true
            },
            None => {
                proof {
                    assert(keyed_map_of(s0, event_key()).remove((group_id, start_time, event_id))
                        =~= keyed_map_of(s0, event_key()));
                }
                false
            },
        }
    }

    /// Range scan: every event of the group, in clustering order, so the
    /// result reads out ordered by start time.
    pub fn select_events_by_group(&self, group_id: u128) -> (r: Vec<Event>)
        requires
            self.wf(),
        ensures
            r@ == self.events_seq().filter(group_pred(group_id)),
            forall|i: int| 0 <= i < r@.len() ==> (#[trigger] r@[i]).group_id == group_id,
            forall|i: int, j: int|
                0 <= i < j < r@.len() ==> (#[trigger] r@[i]).start_time <= (
                #[trigger] r@[j]).start_time,
    {
        let mut out: Vec<Event> = Vec::new();
        let mut i: usize = 0;
        proof {
            assert(self.events@.take(0) =~= Seq::<Event>::empty());
            assert(self.events@.take(0).filter(group_pred(group_id)) =~= Seq::<Event>::empty());
        }
        while i < self.events.len()
            invariant
                self.wf(),
                0 <= i <= self.events@.len(),
                out@ == self.events@.take(i as int).filter(group_pred(group_id)),
                forall|a: int| 0 <= a < out@.len() ==> (#[trigger] out@[a]).group_id == group_id,
                forall|a: int|
                    0 <= a < out@.len() ==> exists|j: int|
                        0 <= j < i && #[trigger] out@[a] == self.events@[j],
                forall|a: int, b: int|
                    0 <= a < b < out@.len() ==> key_lt(
                        event_key_of(#[trigger] out@[a]),
                        event_key_of(#[trigger] out@[b]),
                    ),
            decreases self.events@.len() - i,
        {
            let ghost prefix = self.events@.take(i as int);
            let ghost out0 = out@;
            let e = &self.events[i];
            if e.group_id == group_id {
                out.push(e.clone());
                proof {
                    assert(out@ =~= out0.push(self.events@[i as int]));
                    assert forall|a: int| 0 <= a < out@.len() implies exists|j: int|
                        0 <= j < i + 1 && #[trigger] out@[a] == self.events@[j] by {
                        if a < out0.len() {
                            let j = choose|j: int|
                                0 <= j < i && #[trigger] out0[a] == self.events@[j];
                            assert(out@[a] == self.events@[j]);
                        } else {
                            assert(out@[a] == self.events@[i as int]);
                        }
                    }
                    assert forall|a: int, b: int| 0 <= a < b < out@.len() implies key_lt(
                        event_key_of(#[trigger] out@[a]),
                        event_key_of(#[trigger] out@[b]),
                    ) by {
                        if b == out@.len() - 1 {
                            let j = choose|j: int|
                                0 <= j < i && #[trigger] out0[a] == self.events@[j];
                            assert(key_lt(
                                event_key_of(self.events@[j]),
                                event_key_of(self.events@[i as int]),
                            ));
                        }
                    }
                }
            }
            proof {
                assert(self.events@.take(i as int + 1) =~= prefix.push(self.events@[i as int]));
                prefix.lemma_filter_push(self.events@[i as int], group_pred(group_id));
            }
            i = i + 1;
        }
        proof {
            assert(self.events@.take(self.events@.len() as int) =~= self.events@);
            assert forall|a: int, b: int| 0 <= a < b < out@.len() implies (
            #[trigger] out@[a]).start_time <= (#[trigger] out@[b]).start_time by {
                assert(key_lt(event_key_of(out@[a]), event_key_of(out@[b])));
            }
        }
        out
    }
}


/// What a point lookup of the full composite key yields.
pub open spec fn event_lookup(
    events: Map<(u128, i64, u128), Event>,
    group_id: u128,
    start_time: i64,
    event_id: u128,
) -> Option<Event> {
    if events.contains_key((group_id, start_time, event_id)) {
        Some(events[(group_id, start_time, event_id)])
    } else {
        None
    }
}

/// Create an event: draw a fresh id, stamp the server times, and insert the
/// row under (`group_id`, `start_time`, `event_id`). No existence check is
/// needed: ids are fresh.
pub fn create_event(store: &mut EventStore, event: Event) -> (r: Event)
    requires
        old(store).wf(),
    ensures
        final(store).wf(),
        r.group_id == event.group_id && r.title == event.title && r.description
            == event.description && r.start_time == event.start_time && r.end_time
            == event.end_time && r.lat_bits == event.lat_bits && r.lon_bits == event.lon_bits
            && r.location == event.location,
        r.created_at == r.updated_at,
        final(store).events_map() == old(store).events_map().insert(event_key_of(r), r),
        final(store).events_seq().filter(group_pred(r.group_id)).contains(r),
        !old(store).events_map().contains_key(event_key_of(r))
            ==> final(store).events_seq().filter(group_pred(r.group_id)).len()
            == old(store).events_seq().filter(group_pred(r.group_id)).len() + 1,
{
    let mut e = event;
    e.event_id = fresh_uuid();
    let now = now_millis();
    e.created_at = now;
    e.updated_at = now;
    let stored = e.clone();
    let ghost s0 = store.events_seq();
    let ghost was_there = store.events_map().contains_key(event_key_of(e));
    store.insert_event_row(stored);
    proof {
        let sq = store.events_seq();
        let pred = group_pred(e.group_id);
        if was_there {
            let p = choose|p: int|
                0 <= p < s0.len() && event_key_of(s0[p]) == event_key_of(e) && sq == s0.update(
                    p,
                    e,
                );
            assert(sq[p] == e);
            sq.lemma_filter_contains(pred, p);
        } else {
            let p = choose|p: int| 0 <= p <= s0.len() && sq == s0.insert(p, e);
            s0.insert_ensures(p, e);
            assert(sq[p] == e);
            sq.lemma_filter_contains(pred, p);
            lemma_scan_after_insert(s0, p, e, e.group_id);
        }
    }
    e
}

/// Inserting an event of a group anywhere in the row sequence grows that
/// group's scan by exactly one.
proof fn lemma_scan_after_insert(s: Seq<Event>, p: int, e: Event, group_id: u128)
    requires
        0 <= p <= s.len(),
        e.group_id == group_id,
    ensures
        s.insert(p, e).filter(group_pred(group_id)).len() == s.filter(group_pred(group_id)).len()
            + 1,
{
    let pred = group_pred(group_id);
    let a = s.take(p);
    let b = s.skip(p);
    s.insert_ensures(p, e);
    assert(s.insert(p, e) =~= a + seq![e] + b);
    assert(s =~= a + b);
    Seq::filter_distributes_over_add(a + seq![e], b, pred);
    Seq::filter_distributes_over_add(a, seq![e], pred);
    Seq::filter_distributes_over_add(a, b, pred);
    assert(seq![e] =~= Seq::<Event>::empty().push(e));
    Seq::<Event>::empty().lemma_filter_push(e, pred);
    reveal(Seq::filter);
    assert(Seq::<Event>::empty().filter(pred) =~= Seq::<Event>::empty());
    assert(seq![e].filter(pred).len() == 1);
}

/// Point lookup requiring the full composite key; a mismatched group or
/// start time finds nothing rather than scanning.
pub fn get_event(store: &EventStore, event_id: u128, group_id: u128, start_time: i64) -> (r:
    Option<Event>)
    requires
        store.wf(),
    ensures
        r == event_lookup(store.events_map(), group_id, start_time, event_id),
        r matches Some(ev) ==> event_key_of(ev) == (group_id, start_time, event_id),
{
    store.select_event(event_id, group_id, start_time)
}

/// Range scan over one group's partition, naturally ordered by start time.
pub fn list_events_by_group(store: &EventStore, group_id: u128) -> (r: Vec<Event>)
    requires
        store.wf(),
    ensures
        r@ == store.events_seq().filter(group_pred(group_id)),
        forall|i: int| 0 <= i < r@.len() ==> (#[trigger] r@[i]).group_id == group_id,
        forall|i: int, j: int|
            0 <= i < j < r@.len() ==> (#[trigger] r@[i]).start_time <= (
            #[trigger] r@[j]).start_time,
{
    store.select_events_by_group(group_id)
}

/// Delete by the full composite key. Zero affected rows fails with
/// `NotFound` instead of silently succeeding, so callers can tell "already
/// gone" from "deleted".
pub fn delete_event(store: &mut EventStore, event_id: u128, group_id: u128, start_time: i64) -> (r:
    Result<(), RepoError>)
    requires
        old(store).wf(),
    ensures
        final(store).wf(),
        r is Ok <==> old(store).events_map().contains_key((group_id, start_time, event_id)),
        r matches Err(e) ==> e == RepoError::NotFound && *final(store) == *old(store),
        r matches Ok(_) ==> final(store).events_map() == old(store).events_map().remove(
            (group_id, start_time, event_id),
        ),
{
    if store.delete_event_row(event_id, group_id, start_time) {
        Ok(())
    } else {
        Err(RepoError::NotFound)
    }
}

/// The scan order agrees with the map view: every stored row is the map's
/// value at its own composite key, and every key of the map belongs to some
/// row, so range scans and point lookups describe one store.
pub proof fn lemma_events_match_map(s: EventStore)
    requires
        s.wf(),
    ensures
        forall|i: int|
            0 <= i < s.events_seq().len() ==> s.events_map().contains_key(
                event_key_of(#[trigger] s.events_seq()[i]),
            ) && s.events_map()[event_key_of(s.events_seq()[i])] == s.events_seq()[i],
        forall|k: (u128, i64, u128)|
            #[trigger] s.events_map().contains_key(k) ==> exists|i: int|
                0 <= i < s.events_seq().len() && event_key_of(#[trigger] s.events_seq()[i]) == k,
{
    s.lemma_wf_distinct();
    lemma_keyed_map_of(s.events@, event_key());
    let kf = event_key();
    assert forall|k: (u128, i64, u128)| #[trigger] s.events_map().contains_key(k) implies exists|
        i: int,
    | 0 <= i < s.events_seq().len() && event_key_of(#[trigger] s.events_seq()[i]) == k by {
        assert(keyed_map_of(s.events@, event_key()).contains_key(k));
        let i = choose|i: int| 0 <= i < s.events@.len() && kf(#[trigger] s.events@[i]) == k;
        assert(event_key_of(s.events_seq()[i]) == k);
    }
}

/// Composite-key lookup agreement: a written event is found under exactly
/// its triple, and a triple differing in any component (and not otherwise
/// present) finds nothing.
pub proof fn lemma_event_lookup_roundtrip(
    events: Map<(u128, i64, u128), Event>,
    e: Event,
    group_id: u128,
    start_time: i64,
    event_id: u128,
)
    ensures
        event_lookup(
            events.insert(event_key_of(e), e),
            e.group_id,
            e.start_time,
            e.event_id,
        ) == Some(e),
        (group_id, start_time, event_id) != event_key_of(e) && !events.contains_key(
            (group_id, start_time, event_id),
        ) ==> event_lookup(
            events.insert(event_key_of(e), e),
            group_id,
            start_time,
            event_id,
        ) is None,
{
}

/// Delete-miss distinction: a key just written is present (its delete
/// succeeds), and once removed it is absent (a repeated delete misses).
pub proof fn lemma_delete_miss_distinction(events: Map<(u128, i64, u128), Event>, e: Event)
    ensures
        events.insert(event_key_of(e), e).contains_key(event_key_of(e)),
        !events.insert(event_key_of(e), e).remove(event_key_of(e)).contains_key(event_key_of(e)),
{
}

} // verus!
