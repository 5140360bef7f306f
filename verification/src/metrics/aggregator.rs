//! A table of fixed capacity that gathers metric points by identity and
//! hands them out in batches.
//!
//! An identity is a name, a tag set and a kind. Each identity owns one
//! slot. Once every slot is taken, points of further identities are
//! dropped, while the identities that hold a slot go on gathering points.

use crate::vecs::reversed;
use vstd::prelude::*;

verus! {

/// The kind of a metric. Counts and gauges are shipped as series, a
/// distribution as its raw samples.
#[derive(Clone, Copy, Debug, PartialEq, Eq, Structural)]
pub enum MetricKind {
    Count,
    Gauge,
    Distribution,
}

/// The identity of a metric: name, tag set and kind.
#[derive(Debug)]
pub struct MetricIdentity {
    pub name: Vec<u8>,
    pub tags: Vec<u8>,
    pub kind: MetricKind,
}

/// One sample: when it was taken, in seconds, and its value as the bit
/// pattern of a double.
#[derive(Clone, Copy, Debug, PartialEq, Eq, Structural)]
pub struct MetricPoint {
    pub timestamp: u64,
    pub value: u64,
}

/// What one identity gathered since the table was last consumed: its
/// points in the order of their arrival.
#[derive(Debug)]
pub struct Series {
    pub identity: MetricIdentity,
    pub points: Vec<MetricPoint>,
}

/// An identity as a plain value.
pub struct Key {
    pub name: Seq<u8>,
    pub tags: Seq<u8>,
    pub kind: MetricKind,
}

/// A series as a plain value.
pub struct SeriesView {
    pub key: Key,
    pub points: Seq<MetricPoint>,
}

impl MetricIdentity {
    /// The identity as a plain value.
    pub open spec fn key(&self) -> Key {
        Key { name: self.name@, tags: self.tags@, kind: self.kind }
    }

    /// Whether two identities are the same: equal name, tags and kind.
    pub fn same(&self, other: &MetricIdentity) -> (equal: bool)
        ensures
            equal == (self.key() == other.key()),
    {
        self.kind == other.kind && bytes_eq(&self.name, &other.name) && bytes_eq(
            &self.tags,
            &other.tags,
        )
    }

    /// Whether this is the identity of a distribution.
    pub fn is_distribution(&self) -> (yes: bool)
        ensures
            yes == (self.kind == MetricKind::Distribution),
    {
        self.kind == MetricKind::Distribution
    }
}

impl View for Series {
    type V = SeriesView;

    open spec fn view(&self) -> SeriesView {
        SeriesView { key: self.identity.key(), points: self.points@ }
    }
}

/// Whether two byte vectors hold the same bytes.
pub fn bytes_eq(a: &Vec<u8>, b: &Vec<u8>) -> (equal: bool)
    ensures
        equal == (a@ == b@),
{
    if a.len() != b.len() {
        return false;
    }
    let mut i: usize = 0;
    while i < a.len()
        invariant
            a@.len() == b@.len(),
            0 <= i <= a@.len(),
            a@.take(i as int) =~= b@.take(i as int),
        decreases a@.len() - i,
    {
        if a[i] != b[i] {
            return false;
        }
        proof {
            assert(a@.take(i + 1) =~= a@.take(i as int).push(a@[i as int]));
            assert(b@.take(i + 1) =~= b@.take(i as int).push(b@[i as int]));
        }
        i = i + 1;
    }
    proof {
        assert(a@.take(i as int) =~= a@);
        assert(b@.take(i as int) =~= b@);
    }
    true
}

/// The series of a vector as plain values.
pub open spec fn series_views(items: Seq<Series>) -> Seq<SeriesView> {
    Seq::new(items.len(), |i: int| items[i]@)
}

/// The batches of a vector as plain values.
pub open spec fn batch_views(batches: Seq<Vec<Series>>) -> Seq<Seq<SeriesView>> {
    Seq::new(batches.len(), |i: int| series_views(batches[i]@))
}

/// Some slot of the table belongs to the identity.
pub open spec fn has_key(table: Seq<SeriesView>, key: Key) -> bool {
    exists|i: int| 0 <= i < table.len() && (#[trigger] table[i]).key == key
}

/// The slot of an identity that the table holds.
pub open spec fn slot_of(table: Seq<SeriesView>, key: Key) -> int {
    choose|i: int| 0 <= i < table.len() && (#[trigger] table[i]).key == key
}

/// No two slots belong to the same identity.
pub open spec fn distinct_keys(table: Seq<SeriesView>) -> bool {
    forall|i: int, j: int|
        0 <= i < j < table.len() ==> (#[trigger] table[i]).key != (#[trigger] table[j]).key
}

/// The table after a point has arrived for an identity: the point joins the
/// identity's slot, or opens a new slot while one is free, or is dropped.
pub open spec fn added(
    table: Seq<SeriesView>,
    key: Key,
    point: MetricPoint,
    capacity: int,
) -> Seq<SeriesView> {
    if has_key(table, key) {
        let i = slot_of(table, key);
        table.update(i, SeriesView { key, points: table[i].points.push(point) })
    } else if table.len() < capacity {
        table.push(SeriesView { key, points: seq![point] })
    } else {
        table
    }
}

/// The slots of distributions (`distributions` true) or of series (false),
/// in the order of the table.
pub open spec fn select(table: Seq<SeriesView>, distributions: bool) -> Seq<SeriesView>
    decreases table.len(),
{
    if table.len() == 0 {
        Seq::empty()
    } else if (table.last().key.kind == MetricKind::Distribution) == distributions {
        select(table.drop_last(), distributions).push(table.last())
    } else {
        select(table.drop_last(), distributions)
    }
}

/// The items cut into batches of `size` items; only the last batch may hold
/// fewer.
pub open spec fn chunks(items: Seq<SeriesView>, size: int) -> Seq<Seq<SeriesView>>
    decreases items.len(),
{
    if items.len() == 0 || size <= 0 {
        Seq::empty()
    } else if items.len() <= size {
        seq![items]
    } else {
        seq![items.take(size)] + chunks(items.skip(size), size)
    }
}

/// The batches laid end to end.
pub open spec fn flattened(batches: Seq<Seq<SeriesView>>) -> Seq<SeriesView>
    decreases batches.len(),
{
    if batches.len() == 0 {
        Seq::empty()
    } else {
        batches[0] + flattened(batches.skip(1))
    }
}

/// Splits the slots, in order, into those of one sort (distributions or
/// series) and the others.
fn partition(items: Vec<Series>, distributions: bool) -> (parts: (Vec<Series>, Vec<Series>))
    ensures
        series_views(parts.0@) == select(series_views(items@), distributions),
        series_views(parts.1@) == select(series_views(items@), !distributions),
{
    let ghost all = series_views(items@);
    let ghost slots = items@;
    let mut stack = reversed(items);
    let mut taken: Vec<Series> = Vec::new();
    let mut kept: Vec<Series> = Vec::new();
    let ghost mut done: int = 0;
    proof {
        assert(all.take(0) =~= Seq::<SeriesView>::empty());
        assert(series_views(taken@) =~= select(all.take(0), distributions));
        assert(series_views(kept@) =~= select(all.take(0), !distributions));
    }
    while stack.len() > 0
        invariant
            all == series_views(slots),
            0 <= done,
            stack@.len() + done == slots.len(),
            all.len() == slots.len(),
            forall|i: int| 0 <= i < stack@.len() ==> stack@[i] == slots[slots.len() - 1 - i],
            series_views(taken@) == select(all.take(done), distributions),
            series_views(kept@) == select(all.take(done), !distributions),
        decreases stack@.len(),
    {
        let item = stack.pop().unwrap();
        proof {
            assert(item == slots[done]);
            assert(all.take(done + 1).drop_last() =~= all.take(done));
            assert(all.take(done + 1).last() == item@);
        }
        if item.identity.is_distribution() == distributions {
            proof {
                assert(series_views(taken@.push(item)) =~= series_views(taken@).push(item@));
            }
            taken.push(item);
        } else {
            proof {
                assert(series_views(kept@.push(item)) =~= series_views(kept@).push(item@));
            }
            kept.push(item);
        }
        proof {
            done = done + 1;
        }
    }
    assert(all.take(done) =~= all);
    (taken, kept)
}

/// Cuts the items into batches of `size` items; only the last batch may
/// hold fewer.
fn into_chunks(items: Vec<Series>, size: usize) -> (batches: Vec<Vec<Series>>)
    requires
        size >= 1,
    ensures
        batch_views(batches@) == chunks(series_views(items@), size as int),
{
    let ghost all = series_views(items@);
    let mut rest = items;
    let mut batches: Vec<Vec<Series>> = Vec::new();
    assert(batch_views(batches@) + chunks(all, size as int) =~= chunks(all, size as int));
    while rest.len() > size
        invariant
            size >= 1,
            batch_views(batches@) + chunks(series_views(rest@), size as int) == chunks(
                all,
                size as int,
            ),
        decreases rest@.len(),
    {
        let ghost before = series_views(rest@);
        let tail = rest.split_off(size);
        proof {
            assert(series_views(rest@) =~= before.take(size as int));
            assert(series_views(tail@) =~= before.skip(size as int));
            assert(batch_views(batches@.push(rest)) =~= batch_views(batches@).push(
                before.take(size as int),
            ));
            assert(batch_views(batches@).push(before.take(size as int)) + chunks(
                before.skip(size as int),
                size as int,
            ) =~= batch_views(batches@) + chunks(before, size as int));
        }
        batches.push(rest);
        rest = tail;
    }
    if rest.len() > 0 {
        proof {
            assert(batch_views(batches@.push(rest)) =~= batch_views(batches@) + chunks(
                series_views(rest@),
                size as int,
            ));
        }
        batches.push(rest);
    } else {
        assert(batch_views(batches@) + chunks(series_views(rest@), size as int) =~= batch_views(
            batches@,
        ));
    }
    batches
}

/// The metric aggregator: the slots in the order in which their identities
/// arrived, the number of slots, and the number of series that one batch
/// may hold.
pub struct Aggregator {
    entries: Vec<Series>,
    capacity: usize,
    max_batch_entries: usize,
}

impl Aggregator {
    /// The slots in the order in which their identities arrived.
    pub closed spec fn view(&self) -> Seq<SeriesView> {
        series_views(self.entries@)
    }

    /// The number of identities that the table can hold.
    pub closed spec fn capacity(&self) -> int {
        self.capacity as int
    }

    /// The number of series that one batch may hold.
    pub closed spec fn batch_size(&self) -> int {
        self.max_batch_entries as int
    }

    /// The table holds no more identities than its capacity and none twice,
    /// and a batch holds at least one series.
    pub open spec fn wf(&self) -> bool {
        &&& self@.len() <= self.capacity()
        &&& distinct_keys(self@)
        &&& self.batch_size() >= 1
    }

    /// An empty table with `capacity` slots whose batches hold up to
    /// `max_batch_entries` series; `None` where a batch could hold nothing.
    pub fn new(capacity: usize, max_batch_entries: usize) -> (made: Option<Aggregator>)
        ensures
            made is Some <==> max_batch_entries >= 1,
            made is Some ==> {
                &&& made->0.wf()
                &&& made->0@ == Seq::<SeriesView>::empty()
                &&& made->0.capacity() == capacity
                &&& made->0.batch_size() == max_batch_entries
            },
    {
        if max_batch_entries == 0 {
            None
        } else {
            let aggregator = Aggregator { entries: Vec::new(), capacity, max_batch_entries };
            assert(aggregator@ =~= Seq::<SeriesView>::empty());
            Some(aggregator)
        }
    }

    /// The number of identities that hold a slot.
    pub fn len(&self) -> (n: usize)
        ensures
            n == self@.len(),
    {
        self.entries.len()
    }

    /// The slot of the identity, if it holds one.
    fn find(&self, identity: &MetricIdentity) -> (slot: Option<usize>)
        requires
            self.wf(),
        ensures
            slot is Some <==> has_key(self@, identity.key()),
            slot is Some ==> slot->0 == slot_of(self@, identity.key()) && slot->0 < self@.len(),
    {
        let mut i: usize = 0;
        while i < self.entries.len()
            invariant
                self.wf(),
                0 <= i <= self@.len(),
                self@.len() == self.entries@.len(),
                forall|j: int| 0 <= j < i ==> (#[trigger] self@[j]).key != identity.key(),
            decreases self@.len() - i,
        {
            if self.entries[i].identity.same(identity) {
                proof {
                    assert(self@[i as int].key == identity.key());
                    let c = slot_of(self@, identity.key());
                    assert(self@[c].key == identity.key());
                    if c < i {
                        assert(self@[c].key != self@[i as int].key);
                    } else if c > i {
                        assert(self@[i as int].key != self@[c].key);
                    }
                }
                return Some(i);
            }
            i = i + 1;
        }
        None
    }

    /// Routes a point to the slot of its identity. A new identity gets a
    /// slot while one is free; once the table is full its points are
    /// dropped. The result says whether the point was kept.
    pub fn add_point(&mut self, identity: MetricIdentity, point: MetricPoint) -> (kept: bool)
        requires
            old(self).wf(),
        ensures
            final(self).wf(),
            final(self).capacity() == old(self).capacity(),
            final(self).batch_size() == old(self).batch_size(),
            final(self)@ == added(old(self)@, identity.key(), point, old(self).capacity()),
            kept == (has_key(old(self)@, identity.key()) || old(self)@.len() < old(
                self,
            ).capacity()),
    {
        let ghost table = self@;
        let ghost key = identity.key();
        match self.find(&identity) {
            Some(i) => {
                self.entries[i].points.push(point);
                proof {
                    assert(self@ =~= added(table, key, point, self.capacity()));
                    assert forall|a: int, b: int| 0 <= a < b < self@.len() implies (
                    #[trigger] self@[a]).key != (#[trigger] self@[b]).key by {
                        assert(self@[a].key == table[a].key);
                        assert(self@[b].key == table[b].key);
                    }
                }
                true
            },
            None => {
                if self.entries.len() < self.capacity {
                    let mut points: Vec<MetricPoint> = Vec::new();
                    points.push(point);
                    self.entries.push(Series { identity, points });
                    proof {
                        assert(self@ =~= added(table, key, point, self.capacity()));
                        assert forall|a: int, b: int| 0 <= a < b < self@.len() implies (
                        #[trigger] self@[a]).key != (#[trigger] self@[b]).key by {
                            assert(self@[a].key == table[a].key);
                            if b < table.len() {
                                assert(self@[b].key == table[b].key);
                            }
                        }
                    }
                    true
                } else {
                    false
                }
            },
        }
    }

    /// Removes the slots of one sort and returns them in batches.
    fn consume(&mut self, distributions: bool) -> (batches: Vec<Vec<Series>>)
        requires
            old(self).wf(),
        ensures
            final(self).wf(),
            final(self).capacity() == old(self).capacity(),
            final(self).batch_size() == old(self).batch_size(),
            final(self)@ == select(old(self)@, !distributions),
            batch_views(batches@) == chunks(
                select(old(self)@, distributions),
                old(self).batch_size(),
            ),
            forall|i: int|
                0 <= i < batches@.len() ==> 1 <= (#[trigger] batches@[i])@.len() <= old(
                    self,
                ).batch_size(),
    {
        let ghost table = self@;
        let mut entries: Vec<Series> = Vec::new();
        std::mem::swap(&mut entries, &mut self.entries);
        let (taken, kept) = partition(entries, distributions);
        self.entries = kept;
        proof {
            lemma_select_keeps(table, !distributions);
        }
        let batches = into_chunks(taken, self.max_batch_entries);
        proof {
            let parts = chunks(select(table, distributions), self.batch_size());
            lemma_chunks_flatten(select(table, distributions), self.batch_size());
            assert forall|i: int| 0 <= i < batches@.len() implies 1 <= (
            #[trigger] batches@[i])@.len() <= self.batch_size() by {
                assert(batch_views(batches@)[i] == parts[i]);
            }
        }
        batches
    }

    /// Removes every series (the slots of counts and gauges) and returns
    /// them in batches, in the order of the table. The distributions stay.
    pub fn consume_metrics(&mut self) -> (batches: Vec<Vec<Series>>)
        requires
            old(self).wf(),
        ensures
            final(self).wf(),
            final(self).capacity() == old(self).capacity(),
            final(self).batch_size() == old(self).batch_size(),
            final(self)@ == select(old(self)@, true),
            batch_views(batches@) == chunks(select(old(self)@, false), old(self).batch_size()),
            forall|i: int|
                0 <= i < batches@.len() ==> 1 <= (#[trigger] batches@[i])@.len() <= old(
                    self,
                ).batch_size(),
    {
        self.consume(false)
    }

    /// Removes every distribution and returns them in batches, in the order
    /// of the table. The series stay.
    pub fn consume_distributions(&mut self) -> (batches: Vec<Vec<Series>>)
        requires
            old(self).wf(),
        ensures
            final(self).wf(),
            final(self).capacity() == old(self).capacity(),
            final(self).batch_size() == old(self).batch_size(),
            final(self)@ == select(old(self)@, false),
            batch_views(batches@) == chunks(select(old(self)@, true), old(self).batch_size()),
            forall|i: int|
                0 <= i < batches@.len() ==> 1 <= (#[trigger] batches@[i])@.len() <= old(
                    self,
                ).batch_size(),
    {
        self.consume(true)
    }
}

/// A selection is a part of the table: it is no longer than the table, each
/// of its slots is a slot of the table of the sort asked for, and it holds
/// no identity twice where the table holds none twice.
pub proof fn lemma_select_keeps(table: Seq<SeriesView>, distributions: bool)
    ensures
        select(table, distributions).len() <= table.len(),
        forall|i: int|
            0 <= i < select(table, distributions).len() ==> {
                &&& table.contains(#[trigger] select(table, distributions)[i])
                &&& (select(table, distributions)[i].key.kind == MetricKind::Distribution)
                    == distributions
            },
        distinct_keys(table) ==> distinct_keys(select(table, distributions)),
    decreases table.len(),
{
    if table.len() > 0 {
        let front = table.drop_last();
        lemma_select_keeps(front, distributions);
        let chosen = select(table, distributions);
        assert forall|i: int| 0 <= i < chosen.len() implies table.contains(#[trigger] chosen[i])
        by {
            if i < select(front, distributions).len() {
                let x = select(front, distributions)[i];
                assert(front.contains(x));
                let j = choose|j: int| 0 <= j < front.len() && front[j] == x;
                assert(table[j] == x);
            } else {
                assert(table[table.len() - 1] == chosen[i]);
            }
        }
        if distinct_keys(table) {
            assert(distinct_keys(front)) by {
                assert forall|a: int, b: int| 0 <= a < b < front.len() implies (
                #[trigger] front[a]).key != (#[trigger] front[b]).key by {
                    assert(table[a].key != table[b].key);
                }
            }
            assert forall|a: int, b: int| 0 <= a < b < chosen.len() implies (
            #[trigger] chosen[a]).key != (#[trigger] chosen[b]).key by {
                if b == select(front, distributions).len() {
                    let x = select(front, distributions)[a];
                    assert(front.contains(x));
                    let j = choose|j: int| 0 <= j < front.len() && front[j] == x;
                    assert(table[j].key != table[table.len() - 1].key);
                }
            }
        }
    }
}

/// A point never disturbs another identity: after it has arrived, every slot
/// that the table held is still in its place under its identity, the slots of
/// other identities are unchanged, and the slot of its own identity has only
/// grown at the end.
pub proof fn lemma_add_keeps_others(
    table: Seq<SeriesView>,
    key: Key,
    point: MetricPoint,
    capacity: int,
    slot: int,
)
    requires
        0 <= slot < table.len(),
    ensures
        added(table, key, point, capacity).len() >= table.len(),
        added(table, key, point, capacity)[slot].key == table[slot].key,
        table[slot].key != key ==> added(table, key, point, capacity)[slot] == table[slot],
        table[slot].points.is_prefix_of(added(table, key, point, capacity)[slot].points),
{
    if has_key(table, key) {
        let i = slot_of(table, key);
        assert(table[i].key == key);
        if slot == i {
            assert(table[i].points.push(point).take(table[i].points.len() as int)
                =~= table[i].points);
        }
    }
}

/// A full table drops the point of an identity that holds no slot, and
/// stays as it was.
pub proof fn lemma_full_table_drops_new_identity(
    table: Seq<SeriesView>,
    key: Key,
    point: MetricPoint,
    capacity: int,
)
    requires
        table.len() >= capacity,
        !has_key(table, key),
    ensures
        added(table, key, point, capacity) == table,
{
}

/// Nothing of one sort is left in what a selection of the other sort kept.
pub proof fn lemma_select_other_is_empty(table: Seq<SeriesView>, distributions: bool)
    ensures
        select(select(table, !distributions), distributions).len() == 0,
    decreases table.len(),
{
    if table.len() > 0 {
        lemma_select_other_is_empty(table.drop_last(), distributions);
        let kept = select(table.drop_last(), !distributions);
        if (table.last().key.kind == MetricKind::Distribution) == !distributions {
            assert(kept.push(table.last()).drop_last() =~= kept);
        }
    }
}

/// Consuming twice in a row finds nothing the second time: what the first
/// call left in the table makes no batch of the sort that it took.
pub proof fn lemma_consume_twice_is_empty(table: Seq<SeriesView>, distributions: bool, size: int)
    ensures
        chunks(select(select(table, !distributions), distributions), size).len() == 0,
{
    lemma_select_other_is_empty(table, distributions);
}

/// Batching loses nothing: the batches laid end to end are the items, and
/// every batch holds at least one item and at most `size`.
pub proof fn lemma_chunks_flatten(items: Seq<SeriesView>, size: int)
    requires
        size >= 1,
    ensures
        flattened(chunks(items, size)) == items,
        forall|i: int|
            0 <= i < chunks(items, size).len() ==> 1 <= (#[trigger] chunks(items, size)[i]).len()
                <= size,
    decreases items.len(),
{
    let parts = chunks(items, size);
    if items.len() == 0 {
        assert(flattened(parts) =~= items);
    } else if items.len() <= size {
        assert(parts.skip(1) =~= Seq::<Seq<SeriesView>>::empty());
        assert(flattened(parts.skip(1)) =~= Seq::<SeriesView>::empty());
        assert(flattened(parts) =~= items);
    } else {
        let rest = items.skip(size);
        lemma_chunks_flatten(rest, size);
        assert(parts.skip(1) =~= chunks(rest, size));
        assert(items.take(size) + rest =~= items);
        assert forall|i: int| 0 <= i < parts.len() implies 1 <= (#[trigger] parts[i]).len()
            <= size by {
            if i > 0 {
                assert(parts[i] == chunks(rest, size)[i - 1]);
            }
        }
    }
}

/// Selecting twice is selecting once.
pub proof fn lemma_select_idempotent(table: Seq<SeriesView>, distributions: bool)
    ensures
        select(select(table, distributions), distributions) == select(table, distributions),
    decreases table.len(),
{
    if table.len() > 0 {
        lemma_select_idempotent(table.drop_last(), distributions);
        let kept = select(table.drop_last(), distributions);
        if (table.last().key.kind == MetricKind::Distribution) == distributions {
            assert(kept.push(table.last()).drop_last() =~= kept);
        }
    }
}

} // verus!
