//! A FIFO buffer of pre-serialized log records that hands them out as JSON
//! arrays no longer than a fixed payload limit.

use crate::vecs::{joined, lemma_joined_push, reversed, COMMA};
use std::collections::VecDeque;
use vstd::prelude::*;

verus! {

/// The byte `[` that opens a batch.
pub const OPEN: u8 = 0x5b;

/// The byte `]` that closes a batch.
pub const CLOSE: u8 = 0x5d;

/// The payload of a batch: a JSON array of the records, in order.
pub open spec fn encode(records: Seq<Seq<u8>>) -> Seq<u8> {
    seq![OPEN] + joined(records) + seq![CLOSE]
}

/// The payload of a batch without records, `[]`.
pub open spec fn empty_encoding() -> Seq<u8> {
    seq![OPEN, CLOSE]
}

/// A record can be buffered when it is not empty and a batch that holds it
/// alone stays within the limit.
pub open spec fn admissible(record: Seq<u8>, limit: int) -> bool {
    1 <= record.len() && record.len() + 2 <= limit
}

/// Every record of the sequence can be buffered.
pub open spec fn all_admissible(records: Seq<Seq<u8>>, limit: int) -> bool {
    forall|i: int| 0 <= i < records.len() ==> admissible(#[trigger] records[i], limit)
}

/// The records of `records` that can be buffered, in order.
pub open spec fn admitted(records: Seq<Seq<u8>>, limit: int) -> Seq<Seq<u8>>
    decreases records.len(),
{
    if records.len() == 0 {
        Seq::empty()
    } else if admissible(records.last(), limit) {
        admitted(records.drop_last(), limit).push(records.last())
    } else {
        admitted(records.drop_last(), limit)
    }
}

/// Greedy count: starting with the first `k` records taken, how many
/// records the next batch takes before the payload would pass the limit.
pub open spec fn batch_len_from(records: Seq<Seq<u8>>, limit: int, k: int) -> int
    decreases records.len() - k,
{
    if 0 <= k < records.len() && encode(records.take(k + 1)).len() <= limit {
        batch_len_from(records, limit, k + 1)
    } else {
        k
    }
}

/// The number of records that the next batch takes from `records`.
pub open spec fn next_batch_len(records: Seq<Seq<u8>>, limit: int) -> int {
    batch_len_from(records, limit, 0)
}

/// The groups of records that repeated extraction makes of `records`.
pub open spec fn groups(records: Seq<Seq<u8>>, limit: int) -> Seq<Seq<Seq<u8>>>
    decreases records.len(),
{
    let k = next_batch_len(records, limit);
    if records.len() == 0 || k <= 0 || k > records.len() {
        Seq::empty()
    } else {
        seq![records.take(k)] + groups(records.skip(k), limit)
    }
}

/// The groups laid end to end.
pub open spec fn concat_all(parts: Seq<Seq<Seq<u8>>>) -> Seq<Seq<u8>>
    decreases parts.len(),
{
    if parts.len() == 0 {
        Seq::empty()
    } else {
        concat_all(parts.drop_last()) + parts.last()
    }
}

/// The payload of each group.
pub open spec fn encode_all(parts: Seq<Seq<Seq<u8>>>) -> Seq<Seq<u8>> {
    Seq::new(parts.len(), |i: int| encode(parts[i]))
}

/// The payloads of a sequence of byte vectors.
pub open spec fn payloads(items: Seq<Vec<u8>>) -> Seq<Seq<u8>> {
    Seq::new(items.len(), |i: int| items[i]@)
}

/// A batch is the empty encoding exactly when it holds no record, provided
/// that no record is empty.
pub proof fn lemma_encode_len(records: Seq<Seq<u8>>, limit: int)
    requires
        all_admissible(records, limit),
    ensures
        records.len() == 0 ==> encode(records) == empty_encoding(),
        records.len() > 0 ==> encode(records).len() > 2,
        joined(records).len() >= records.len(),
    decreases records.len(),
{
    if records.len() == 0 {
        assert(encode(records) =~= empty_encoding());
    } else if records.len() == 1 {
        assert(admissible(records[0], limit));
    } else {
        assert(all_admissible(records.drop_last(), limit));
        lemma_encode_len(records.drop_last(), limit);
        assert(admissible(records[records.len() - 1], limit));
    }
}

/// The greedy count stays within the records and never moves backwards.
pub proof fn lemma_batch_len_bounds(records: Seq<Seq<u8>>, limit: int, k: int)
    requires
        0 <= k <= records.len(),
    ensures
        k <= batch_len_from(records, limit, k) <= records.len(),
    decreases records.len() - k,
{
    if k < records.len() && encode(records.take(k + 1)).len() <= limit {
        lemma_batch_len_bounds(records, limit, k + 1);
    }
}

/// The next batch takes at least one record when the first one is
/// admissible.
pub proof fn lemma_next_batch_len_positive(records: Seq<Seq<u8>>, limit: int)
    requires
        records.len() > 0,
        admissible(records[0], limit),
    ensures
        1 <= next_batch_len(records, limit) <= records.len(),
{
    assert(records.take(1) =~= seq![records[0]]);
    assert(joined(seq![records[0]]) == records[0]);
    lemma_batch_len_bounds(records, limit, 1);
}

/// A log aggregator: the buffered records, oldest first, and the payload
/// limit that every batch keeps.
pub struct Aggregator {
    messages: VecDeque<Vec<u8>>,
    max_content_size_bytes: usize,
}

impl Aggregator {
    /// The buffered records, oldest first.
    pub closed spec fn view(&self) -> Seq<Seq<u8>> {
        Seq::new(self.messages@.len(), |i: int| self.messages@[i]@)
    }

    /// The payload limit of a batch, in bytes.
    pub closed spec fn limit(&self) -> int {
        self.max_content_size_bytes as int
    }

    /// Every buffered record fits into a batch of its own.
    pub open spec fn wf(&self) -> bool {
        all_admissible(self@, self.limit())
    }

    /// An empty aggregator whose batches hold at most
    /// `max_content_size_bytes` bytes.
    pub fn new(max_content_size_bytes: usize) -> (aggregator: Aggregator)
        ensures
            aggregator.wf(),
            aggregator@ == Seq::<Seq<u8>>::empty(),
            aggregator.limit() == max_content_size_bytes,
    {
        let aggregator = Aggregator { messages: VecDeque::new(), max_content_size_bytes };
        assert(aggregator@ =~= Seq::<Seq<u8>>::empty());
        aggregator
    }

    /// The payload limit of a batch, in bytes.
    pub fn max_content_size_bytes(&self) -> (limit: usize)
        ensures
            limit == self.limit(),
    {
        self.max_content_size_bytes
    }

    /// The number of buffered records.
    pub fn len(&self) -> (n: usize)
        ensures
            n == self@.len(),
    {
        self.messages.len()
    }

    /// Adds a record at the tail. An empty record, or one that no batch
    /// could hold, is dropped; the result says whether the record was kept.
    pub fn append(&mut self, record: Vec<u8>) -> (kept: bool)
        requires
            old(self).wf(),
        ensures
            final(self).wf(),
            final(self).limit() == old(self).limit(),
            kept == admissible(record@, old(self).limit()),
            final(self)@ == if kept {
                old(self)@.push(record@)
            } else {
                old(self)@
            },
    {
        let n = record.len();
        if n >= 1 && self.max_content_size_bytes >= 2 && n <= self.max_content_size_bytes - 2 {
            self.messages.push_back(record);
            assert(self@ =~= old(self)@.push(record@));
            true
        } else {
            false
        }
    }

    /// Adds the records at the tail, in order, dropping those that `append`
    /// would drop.
    pub fn add_batch(&mut self, logs: Vec<Vec<u8>>)
        requires
            old(self).wf(),
        ensures
            final(self).wf(),
            final(self).limit() == old(self).limit(),
            final(self)@ == old(self)@ + admitted(payloads(logs@), old(self).limit()),
    {
        let ghost all = payloads(logs@);
        let ghost limit = self.limit();
        let ghost before = self@;
        let ghost mut done: int = 0;
        let mut stack = reversed(logs);
        proof {
            assert(all.take(0) =~= Seq::<Seq<u8>>::empty());
            assert(before + admitted(all.take(0), limit) =~= before);
        }
        while stack.len() > 0
            invariant
                self.wf(),
                self.limit() == limit,
                0 <= done <= all.len(),
                stack@.len() + done == all.len(),
                forall|i: int| 0 <= i < stack@.len() ==> stack@[i]@ == all[all.len() - 1 - i],
                self@ == before + admitted(all.take(done), limit),
            decreases stack@.len(),
        {
            let record = stack.pop().unwrap();
            proof {
                assert(record@ == all[done]);
                assert(all.take(done + 1).drop_last() =~= all.take(done));
                assert(all.take(done + 1).last() == all[done]);
            }
            let ghost held = self@;
            let kept = self.append(record);
            proof {
                if kept {
                    assert(held.push(record@) =~= before + admitted(all.take(done + 1), limit));
                }
                done = done + 1;
            }
        }
        assert(all.take(done) =~= all);
    }

    /// Takes the next batch: as many of the oldest records as fit under the
    /// payload limit, as a JSON array. On an empty aggregator, and only
    /// there, the result is the empty array `[]`.
    pub fn get_batch(&mut self) -> (batch: Vec<u8>)
        requires
            old(self).wf(),
        ensures
            final(self).wf(),
            final(self).limit() == old(self).limit(),
            batch@ == encode(
                old(self)@.take(next_batch_len(old(self)@, old(self).limit())),
            ),
            final(self)@ == old(self)@.skip(next_batch_len(old(self)@, old(self).limit())),
            old(self)@.len() == 0 <==> batch@ == empty_encoding(),
            old(self)@.len() > 0 ==> 2 < batch@.len() <= old(self).limit(),
            old(self)@.len() > 0 ==> 1 <= next_batch_len(old(self)@, old(self).limit())
                <= old(self)@.len(),
    {
        let ghost all = self@;
        let ghost limit = self.limit();
        let max = self.max_content_size_bytes;
        let total = self.messages.len();
        let mut buffer: Vec<u8> = Vec::new();
        buffer.push(OPEN);
        let mut taken: usize = 0;
        let mut more = true;
        proof {
            assert(all.take(0) =~= Seq::<Seq<u8>>::empty());
            assert(buffer@ =~= seq![OPEN] + joined(all.take(0)));
            assert(self@ =~= all.skip(0));
        }
        while more
            invariant
                self.wf(),
                self.limit() == limit,
                max == limit,
                all_admissible(all, limit),
                all.len() == total,
                0 <= taken <= all.len(),
                self.messages@.len() + taken == all.len(),
                self@ =~= all.skip(taken as int),
                buffer@ == seq![OPEN] + joined(all.take(taken as int)),
                next_batch_len(all, limit) == batch_len_from(all, limit, taken as int),
                taken == 0 ==> buffer@.len() == 1,
                taken > 0 ==> 2 <= buffer@.len() && buffer@.len() + 1 <= limit,
                !more ==> batch_len_from(all, limit, taken as int) == taken,
            decreases self.messages@.len() + (if more { 1int } else { 0int }),
        {
            if self.messages.len() == 0 {
                more = false;
            } else {
                let need = self.messages[0].len();
                let sep: usize = if taken > 0 { 1 } else { 0 };
                let ghost record = all[taken as int];
                proof {
                    assert(self@[0] == all.skip(taken as int)[0]);
                    assert(self.messages@[0]@ == record);
                    assert(admissible(record, limit));
                    assert(all.take(taken + 1) =~= all.take(taken as int).push(record));
                    lemma_joined_push(all.take(taken as int), record);
                }
                let room = max - buffer.len() - 1;
                if room >= sep && need <= room - sep {
                    let ghost held = self.messages@;
                    let ghost before = self@;
                    let popped = self.messages.pop_front();
                    let mut bytes = popped.unwrap();
                    if taken > 0 {
                        buffer.push(COMMA);
                    }
                    buffer.append(&mut bytes);
                    taken = taken + 1;
                    proof {
                        assert(buffer@ =~= seq![OPEN] + joined(all.take(taken as int)));
                        assert forall|i: int| 0 <= i < self@.len() implies self@[i] == all.skip(
                            taken as int,
                        )[i] by {
                            assert(self.messages@[i] == held[i + 1]);
                            assert(before[i + 1] == all.skip(taken - 1)[i + 1]);
                        }
                        assert(self@ =~= all.skip(taken as int));
                    }
                } else {
                    more = false;
                }
            }
        }
        buffer.push(CLOSE);
        proof {
            let k = next_batch_len(all, limit);
            assert(k == taken);
            assert(buffer@ =~= encode(all.take(k)));
            if all.len() == 0 {
                assert(buffer@ =~= empty_encoding());
            } else {
                lemma_next_batch_len_positive(all, limit);
            }
        }
        buffer
    }

    /// Takes batches until none is left and returns them in the order in
    /// which they were taken. The aggregator is empty afterwards.
    pub fn drain(&mut self) -> (batches: Vec<Vec<u8>>)
        requires
            old(self).wf(),
        ensures
            final(self).wf(),
            final(self).limit() == old(self).limit(),
            final(self)@.len() == 0,
            payloads(batches@) == encode_all(groups(old(self)@, old(self).limit())),
            forall|i: int|
                0 <= i < batches@.len() ==> 2 < (#[trigger] batches@[i])@.len() <= old(
                    self,
                ).limit(),
    {
        let ghost all = self@;
        let ghost limit = self.limit();
        let mut batches: Vec<Vec<u8>> = Vec::new();
        let ghost mut rest = self@;
        let mut batch = self.get_batch();
        proof {
            assert(payloads(batches@) + encode_all(groups(rest, limit)) =~= encode_all(
                groups(all, limit),
            ));
        }
        while batch.len() > 2
            invariant
                self.wf(),
                self.limit() == limit,
                all_admissible(rest, limit),
                batch@ == encode(rest.take(next_batch_len(rest, limit))),
                self@ == rest.skip(next_batch_len(rest, limit)),
                rest.len() == 0 <==> batch@ == empty_encoding(),
                rest.len() > 0 ==> 1 <= next_batch_len(rest, limit) <= rest.len(),
                rest.len() > 0 ==> 2 < batch@.len() <= limit,
                payloads(batches@) + encode_all(groups(rest, limit)) =~= encode_all(
                    groups(all, limit),
                ),
                forall|i: int|
                    0 <= i < batches@.len() ==> 2 < (#[trigger] batches@[i])@.len() <= limit,
            decreases rest.len(),
        {
            proof {
                assert(rest.len() > 0);
                let k = next_batch_len(rest, limit);
                assert(groups(rest, limit) == seq![rest.take(k)] + groups(rest.skip(k), limit));
                assert(payloads(batches@.push(batch)) + encode_all(groups(rest.skip(k), limit))
                    =~= payloads(batches@) + encode_all(groups(rest, limit)));
                rest = self@;
            }
            batches.push(batch);
            batch = self.get_batch();
        }
        proof {
            assert(rest.len() == 0);
            assert(self@ =~= Seq::<Seq<u8>>::empty());
            assert(payloads(batches@) =~= encode_all(groups(all, limit)));
        }
        batches
    }
}

/// The first group comes before the groups of what is left.
pub proof fn lemma_concat_all_prepend(first: Seq<Seq<u8>>, parts: Seq<Seq<Seq<u8>>>)
    ensures
        concat_all(seq![first] + parts) == first + concat_all(parts),
    decreases parts.len(),
{
    let whole = seq![first] + parts;
    if parts.len() == 0 {
        assert(whole.drop_last() =~= Seq::<Seq<Seq<u8>>>::empty());
        assert(whole.last() == first);
        assert(concat_all(whole.drop_last()) =~= Seq::<Seq<u8>>::empty());
        assert(concat_all(parts) =~= Seq::<Seq<u8>>::empty());
        assert(concat_all(whole) =~= first + concat_all(parts));
    } else {
        assert(whole.drop_last() =~= seq![first] + parts.drop_last());
        assert(whole.last() == parts.last());
        lemma_concat_all_prepend(first, parts.drop_last());
        assert(concat_all(whole) =~= first + concat_all(parts));
    }
}

/// Nothing is lost, repeated or reordered: the groups that repeated
/// extraction makes of admissible records, laid end to end, are the
/// records.
pub proof fn lemma_groups_preserve_records(records: Seq<Seq<u8>>, limit: int)
    requires
        all_admissible(records, limit),
    ensures
        concat_all(groups(records, limit)) == records,
    decreases records.len(),
{
    if records.len() == 0 {
        assert(concat_all(groups(records, limit)) =~= records);
    } else {
        lemma_next_batch_len_positive(records, limit);
        let k = next_batch_len(records, limit);
        let rest = records.skip(k);
        assert(all_admissible(rest, limit)) by {
            assert forall|i: int| 0 <= i < rest.len() implies admissible(
                #[trigger] rest[i],
                limit,
            ) by {
                assert(rest[i] == records[i + k]);
            }
        }
        lemma_groups_preserve_records(rest, limit);
        lemma_concat_all_prepend(records.take(k), groups(rest, limit));
        assert(records.take(k) + rest =~= records);
    }
}

/// What was kept is what is shipped: whatever records are added to an empty
/// buffer and then drained, the batches hold, laid end to end, exactly the
/// records that were kept, in the order of their arrival. Where every
/// record is admissible, those are all the records.
pub proof fn lemma_append_then_drain(records: Seq<Seq<u8>>, limit: int)
    ensures
        concat_all(groups(admitted(records, limit), limit)) == admitted(records, limit),
        all_admissible(records, limit) ==> concat_all(groups(admitted(records, limit), limit))
            == records,
{
    lemma_admitted_admissible(records, limit);
    lemma_groups_preserve_records(admitted(records, limit), limit);
    if all_admissible(records, limit) {
        lemma_admitted_all(records, limit);
    }
}

/// Admission keeps admissible records only.
pub proof fn lemma_admitted_admissible(records: Seq<Seq<u8>>, limit: int)
    ensures
        all_admissible(admitted(records, limit), limit),
    decreases records.len(),
{
    if records.len() > 0 {
        lemma_admitted_admissible(records.drop_last(), limit);
    }
}

/// Admission keeps every admissible record.
pub proof fn lemma_admitted_all(records: Seq<Seq<u8>>, limit: int)
    requires
        all_admissible(records, limit),
    ensures
        admitted(records, limit) == records,
    decreases records.len(),
{
    if records.len() > 0 {
        assert(all_admissible(records.drop_last(), limit));
        lemma_admitted_all(records.drop_last(), limit);
        assert(admissible(records[records.len() - 1], limit));
        assert(records.drop_last().push(records.last()) =~= records);
    }
}

/// A greedy count that starts within the limit ends within the limit.
pub proof fn lemma_batch_fits(records: Seq<Seq<u8>>, limit: int, k: int)
    requires
        0 <= k <= records.len(),
        encode(records.take(k)).len() <= limit,
    ensures
        encode(records.take(batch_len_from(records, limit, k))).len() <= limit,
    decreases records.len() - k,
{
    if k < records.len() && encode(records.take(k + 1)).len() <= limit {
        lemma_batch_fits(records, limit, k + 1);
    }
}

/// The greedy count stops only where the next record would pass the limit.
pub proof fn lemma_batch_maximal(records: Seq<Seq<u8>>, limit: int, k: int)
    requires
        0 <= k <= records.len(),
    ensures
        batch_len_from(records, limit, k) < records.len() ==> encode(
            records.take(batch_len_from(records, limit, k) + 1),
        ).len() > limit,
    decreases records.len() - k,
{
    if k < records.len() && encode(records.take(k + 1)).len() <= limit {
        lemma_batch_maximal(records, limit, k + 1);
    }
}

/// No batch passes the payload limit, and none is the empty array: every
/// group that repeated extraction makes of admissible records holds a
/// record, and its payload is longer than two bytes and within the limit.
pub proof fn lemma_groups_within_limit(records: Seq<Seq<u8>>, limit: int, i: int)
    requires
        all_admissible(records, limit),
        0 <= i < groups(records, limit).len(),
    ensures
        groups(records, limit)[i].len() > 0,
        2 < encode(groups(records, limit)[i]).len() <= limit,
    decreases records.len(),
{
    lemma_next_batch_len_positive(records, limit);
    let k = next_batch_len(records, limit);
    let rest = records.skip(k);
    let first = records.take(k);
    if i == 0 {
        assert(records.take(1) =~= seq![records[0]]);
        assert(joined(seq![records[0]]) == records[0]);
        assert(batch_len_from(records, limit, 0) == batch_len_from(records, limit, 1));
        lemma_batch_fits(records, limit, 1);
        assert(all_admissible(first, limit));
        lemma_encode_len(first, limit);
    } else {
        assert(all_admissible(rest, limit)) by {
            assert forall|j: int| 0 <= j < rest.len() implies admissible(
                #[trigger] rest[j],
                limit,
            ) by {
                assert(rest[j] == records[j + k]);
            }
        }
        assert(groups(records, limit)[i] == groups(rest, limit)[i - 1]);
        lemma_groups_within_limit(rest, limit, i - 1);
    }
}

} // verus!
