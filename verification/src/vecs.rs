//! Small helpers on vectors and byte strings: taking the items of a vector
//! out in their order without copying them, appending bytes, and joining
//! byte strings with commas.

use vstd::prelude::*;

verus! {

/// The byte `,` that separates the items of a list.
pub const COMMA: u8 = 0x2c;

/// The byte strings laid end to end with a comma between each two.
pub open spec fn joined(records: Seq<Seq<u8>>) -> Seq<u8>
    decreases records.len(),
{
    if records.len() == 0 {
        Seq::empty()
    } else if records.len() == 1 {
        records[0]
    } else {
        joined(records.drop_last()) + seq![COMMA] + records.last()
    }
}

/// One more byte string lengthens the joined ones by itself and, unless it
/// is the first, by one comma.
pub proof fn lemma_joined_push(records: Seq<Seq<u8>>, record: Seq<u8>)
    ensures
        joined(records.push(record)) == if records.len() == 0 {
            record
        } else {
            joined(records) + seq![COMMA] + record
        },
{
    assert(records.push(record).drop_last() =~= records);
    assert(records.push(record).last() == record);
}

/// The vector in reverse order, so that `pop` hands its items out first to
/// last.
pub fn reversed<T>(items: Vec<T>) -> (back: Vec<T>)
    ensures
        back@.len() == items@.len(),
        forall|i: int| 0 <= i < back@.len() ==> back@[i] == items@[items@.len() - 1 - i],
{
    let mut items = items;
    let ghost all = items@;
    let mut back: Vec<T> = Vec::new();
    while items.len() > 0
        invariant
            items@.len() + back@.len() == all.len(),
            items@ =~= all.take(items@.len() as int),
            forall|i: int| 0 <= i < back@.len() ==> back@[i] == all[all.len() - 1 - i],
        decreases items@.len(),
    {
        let item = items.pop().unwrap();
        back.push(item);
    }
    back
}

/// Appends the bytes of `src` to `dst`.
pub fn push_all(dst: &mut Vec<u8>, src: &[u8])
    ensures
        final(dst)@ == old(dst)@ + src@,
{
    let mut i: usize = 0;
    assert(dst@ =~= old(dst)@ + src@.take(0));
    while i < src.len()
        invariant
            0 <= i <= src@.len(),
            dst@ == old(dst)@ + src@.take(i as int),
        decreases src@.len() - i,
    {
        dst.push(src[i]);
        i = i + 1;
        assert(dst@ =~= old(dst)@ + src@.take(i as int));
    }
    assert(src@.take(i as int) =~= src@);
}

} // verus!
