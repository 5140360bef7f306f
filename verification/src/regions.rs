//! Listing the regions of the cloud provider: which names are listed, and
//! how the list is written out.

use crate::vecs::{joined, lemma_joined_push, push_all, COMMA};
use vstd::prelude::*;
use vstd::string::StringSliceAdditionalSpecFns;

verus! {

/// What the caller asks for: the role to assume for the listing, and the
/// external id that goes with it.
#[derive(Debug)]
pub struct ListRegionOptions {
    pub assume_role: Option<String>,
    pub external_id: Option<String>,
}

/// Why no list was made.
#[derive(Clone, Copy, Debug, PartialEq, Eq, Structural)]
pub enum ListRegionError {
    /// The answer of the provider held no regions.
    NoRegions,
}

/// The names among the entries, in order; an entry without a name is
/// passed over.
pub open spec fn named(entries: Seq<Option<String>>) -> Seq<Seq<char>>
    decreases entries.len(),
{
    if entries.len() == 0 {
        Seq::empty()
    } else if entries.last() is Some {
        named(entries.drop_last()).push(entries.last()->0@)
    } else {
        named(entries.drop_last())
    }
}

/// The views of the names.
pub open spec fn name_views(names: Seq<String>) -> Seq<Seq<char>> {
    Seq::new(names.len(), |i: int| names[i]@)
}

/// The bytes of each name.
pub open spec fn name_bytes(names: Seq<Seq<char>>) -> Seq<Seq<u8>> {
    Seq::new(names.len(), |i: int| vstd::utf8::encode_utf8(names[i]))
}

/// The names of the regions in the provider's answer: `None` where the
/// answer held no list of regions, else the names that the entries carry.
pub fn get_list(regions: Option<&Vec<Option<String>>>) -> (names: Result<
    Vec<String>,
    ListRegionError,
>)
    ensures
        regions is None <==> names is Err,
        names is Err ==> names == Err::<Vec<String>, ListRegionError>(ListRegionError::NoRegions),
        names is Ok ==> name_views(names->Ok_0@) == named(regions->0@),
{
    match regions {
        None => Err(ListRegionError::NoRegions),
        Some(entries) => {
            let mut names: Vec<String> = Vec::new();
            let mut i: usize = 0;
            proof {
                assert(entries@.take(0) =~= Seq::<Option<String>>::empty());
                assert(name_views(names@) =~= named(entries@.take(0)));
            }
            while i < entries.len()
                invariant
                    0 <= i <= entries@.len(),
                    name_views(names@) == named(entries@.take(i as int)),
                decreases entries@.len() - i,
            {
                proof {
                    assert(entries@.take(i + 1).drop_last() =~= entries@.take(i as int));
                    assert(entries@.take(i + 1).last() == entries@[i as int]);
                }
                match &entries[i] {
                    Some(name) => {
                        let copy = name.clone();
                        proof {
                            assert(name_views(names@.push(copy)) =~= name_views(names@).push(
                                copy@,
                            ));
                        }
                        names.push(copy);
                    },
                    None => {},
                }
                i = i + 1;
            }
            assert(entries@.take(i as int) =~= entries@);
            Ok(names)
        },
    }
}

/// The names written out: separated by commas, with nothing before the
/// first and nothing after the last.
pub fn output_region(regions: &Vec<String>) -> (out: Vec<u8>)
    ensures
        out@ == joined(name_bytes(name_views(regions@))),
{
    let mut out: Vec<u8> = Vec::new();
    let mut i: usize = 0;
    let ghost all = name_bytes(name_views(regions@));
    assert(all.take(0) =~= Seq::<Seq<u8>>::empty());
    while i < regions.len()
        invariant
            0 <= i <= regions@.len(),
            all == name_bytes(name_views(regions@)),
            out@ == joined(all.take(i as int)),
        decreases regions@.len() - i,
    {
        proof {
            assert(all.take(i + 1) =~= all.take(i as int).push(all[i as int]));
            lemma_joined_push(all.take(i as int), all[i as int]);
        }
        if i > 0 {
            out.push(COMMA);
        }
        push_all(&mut out, regions[i].as_str().as_bytes());
        i = i + 1;
    }
    assert(all.take(i as int) =~= all);
    out
}

/// The listing: the names that the provider's answer carries, written out
/// with commas between them.
pub fn list_region(regions: Option<&Vec<Option<String>>>) -> (out: Result<
    Vec<u8>,
    ListRegionError,
>)
    ensures
        regions is None <==> out is Err,
        out is Err ==> out == Err::<Vec<u8>, ListRegionError>(ListRegionError::NoRegions),
        out is Ok ==> out->Ok_0@ == joined(name_bytes(named(regions->0@))),
{
    match get_list(regions) {
        Ok(names) => Ok(output_region(&names)),
        Err(error) => Err(error),
    }
}

} // verus!
