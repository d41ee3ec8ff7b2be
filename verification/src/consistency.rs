//! What faithful collaborators keep true of the index and the store, whatever
//! operations are run against them.

use vstd::prelude::*;
use crate::ident::crc32;
use crate::model::commit;
use crate::model::delete;
use crate::model::find_by_content;
use crate::model::knows_id;
use crate::model::law_new_content_gets_fresh_id;
use crate::model::lemma_delete;
use crate::model::without_id;
use crate::model::World;
use crate::protocol::RecordView;

verus! {

/// Whether `record` is of content with the given length and checksum.
pub open spec fn has_content(record: RecordView, bytes: i64, crc: u32) -> bool {
    record.bytes == bytes && record.crc == crc
}

/// No two records share an id.
pub open spec fn ids_differ(index: Seq<RecordView>) -> bool {
    forall|i: int, j: int|
        0 <= i < j < index.len() ==> (#[trigger] index[i]).id != (#[trigger] index[j]).id
}

/// No two records are of content with the same length and checksum.
pub open spec fn contents_differ(index: Seq<RecordView>) -> bool {
    forall|i: int, j: int|
        0 <= i < j < index.len() ==> !has_content(
            #[trigger] index[i],
            (#[trigger] index[j]).bytes,
            index[j].crc,
        )
}

/// Whether the store holds under the id of `record` bytes of the recorded
/// length and checksum.
pub open spec fn is_backed(store: Map<Seq<char>, Seq<u8>>, record: RecordView) -> bool {
    &&& store.contains_key(record.id)
    &&& store[record.id].len() as i64 == record.bytes
    &&& crc32(store[record.id]) == record.crc
}

/// Whether index and store fit together: records differ in their ids and in
/// their content, and each is backed by the store.
pub open spec fn consistent(world: World) -> bool {
    &&& ids_differ(world.index)
    &&& contents_differ(world.index)
    &&& forall|i: int|
        0 <= i < world.index.len() ==> is_backed(world.store, #[trigger] world.index[i])
}

/// What the search for content finds: nothing exactly when no record is of
/// that content, and otherwise the id of the first record that is.
pub proof fn lemma_find_by_content(index: Seq<RecordView>, bytes: i64, crc: u32)
    ensures
        match find_by_content(index, bytes, crc) {
            None => forall|i: int|
                0 <= i < index.len() ==> !has_content(#[trigger] index[i], bytes, crc),
            Some(id) => exists|i: int|
                {
                    &&& 0 <= i < index.len()
                    &&& has_content(#[trigger] index[i], bytes, crc)
                    &&& index[i].id == id
                    &&& forall|j: int| 0 <= j < i ==> !has_content(#[trigger] index[j], bytes, crc)
                },
        },
    decreases index.len(),
{
    if index.len() > 0 {
        let earlier = index.drop_last();
        lemma_find_by_content(earlier, bytes, crc);
        match find_by_content(earlier, bytes, crc) {
            Some(id) => {
                let i = choose|i: int|
                    {
                        &&& 0 <= i < earlier.len()
                        &&& has_content(#[trigger] earlier[i], bytes, crc)
                        &&& earlier[i].id == id
                        &&& forall|j: int|
                            0 <= j < i ==> !has_content(#[trigger] earlier[j], bytes, crc)
                    };
                assert(index[i] == earlier[i]);
                assert forall|j: int| 0 <= j < i implies !has_content(
                    #[trigger] index[j],
                    bytes,
                    crc,
                ) by {
                    assert(index[j] == earlier[j]);
                }
            },
            None => {
                assert forall|i: int| 0 <= i < earlier.len() implies !has_content(
                    #[trigger] index[i],
                    bytes,
                    crc,
                ) by {
                    assert(index[i] == earlier[i]);
                }
                if has_content(index.last(), bytes, crc) {
                    assert(has_content(index[index.len() - 1], bytes, crc));
                }
            },
        }
    }
}

/// Dropping the records of one id keeps the other records, each of them one
/// of the index, and keeps records that differed different.
pub proof fn lemma_without_id(index: Seq<RecordView>, id: Seq<char>)
    ensures
        forall|k: int|
            0 <= k < without_id(index, id).len() ==> (#[trigger] without_id(index, id)[k]).id != id
                && index.contains(without_id(index, id)[k]),
        !knows_id(without_id(index, id), id),
        ids_differ(index) ==> ids_differ(without_id(index, id)),
        contents_differ(index) ==> contents_differ(without_id(index, id)),
    decreases index.len(),
{
    let kept = without_id(index, id);
    if index.len() > 0 {
        let earlier = index.drop_last();
        let before = without_id(earlier, id);
        lemma_without_id(earlier, id);
        assert forall|k: int| 0 <= k < before.len() implies index.contains(
            #[trigger] before[k],
        ) by {
            let i = choose|i: int| 0 <= i < earlier.len() && earlier[i] == before[k];
            assert(index[i] == before[k]);
        }
        assert forall|k: int| 0 <= k < kept.len() implies (#[trigger] kept[k]).id != id
            && index.contains(kept[k]) by {
            if k < before.len() {
                assert(kept[k] == before[k]);
            } else {
                assert(kept[k] == index[index.len() - 1]);
            }
        }
        if ids_differ(index) {
            assert(ids_differ(earlier)) by {
                assert forall|i: int, j: int| 0 <= i < j < earlier.len() implies (
                #[trigger] earlier[i]).id != (#[trigger] earlier[j]).id by {
                    assert(earlier[i] == index[i] && earlier[j] == index[j]);
                }
            }
            assert forall|i: int, j: int| 0 <= i < j < kept.len() implies (#[trigger] kept[i]).id
                != (#[trigger] kept[j]).id by {
                if j == before.len() {
                    let at = choose|at: int| 0 <= at < earlier.len() && earlier[at] == before[i];
                    assert(index[at] == kept[i]);
                    assert(index[index.len() - 1] == kept[j]);
                } else {
                    assert(kept[i] == before[i] && kept[j] == before[j]);
                }
            }
        }
        if contents_differ(index) {
            assert(contents_differ(earlier)) by {
                assert forall|i: int, j: int| 0 <= i < j < earlier.len() implies !has_content(
                    #[trigger] earlier[i],
                    (#[trigger] earlier[j]).bytes,
                    earlier[j].crc,
                ) by {
                    assert(earlier[i] == index[i] && earlier[j] == index[j]);
                }
            }
            assert forall|i: int, j: int| 0 <= i < j < kept.len() implies !has_content(
                #[trigger] kept[i],
                (#[trigger] kept[j]).bytes,
                kept[j].crc,
            ) by {
                if j == before.len() {
                    let at = choose|at: int| 0 <= at < earlier.len() && earlier[at] == before[i];
                    assert(index[at] == kept[i]);
                    assert(index[index.len() - 1] == kept[j]);
                } else {
                    assert(kept[i] == before[i] && kept[j] == before[j]);
                }
            }
        }
        assert(!knows_id(kept, id)) by {
            if knows_id(kept, id) {
                let k = choose|k: int| 0 <= k < kept.len() && #[trigger] kept[k].id == id;
                assert(kept[k].id != id);
            }
        }
    } else {
        assert(!knows_id(kept, id));
    }
}

/// A commit keeps index and store consistent, whatever its outcome.
pub proof fn law_commit_keeps_consistency(
    world: World,
    filename: Seq<char>,
    extension: Option<Seq<char>>,
    data: Seq<u8>,
    tokens: spec_fn(int) -> Seq<char>,
)
    requires
        consistent(world),
    ensures
        consistent(commit(world, filename, extension, data, tokens).0),
{
    law_new_content_gets_fresh_id(world, filename, extension, data, tokens);
    let (after, outcome) = commit(world, filename, extension, data, tokens);
    if outcome is Ok {
        let id = outcome->Ok_0;
        let bytes = data.len() as i64;
        let crc = crc32(data);
        lemma_find_by_content(world.index, bytes, crc);
        let last = world.index.len() as int;
        assert forall|i: int| 0 <= i < last implies after.index[i] == world.index[i]
            && world.index[i].id != id by {}
        assert(ids_differ(after.index)) by {
            assert forall|i: int, j: int| 0 <= i < j < after.index.len() implies (
            #[trigger] after.index[i]).id != (#[trigger] after.index[j]).id by {
                assert(after.index[i] == world.index[i]);
                if j < last {
                    assert(after.index[j] == world.index[j]);
                }
            }
        }
        assert(contents_differ(after.index)) by {
            assert forall|i: int, j: int| 0 <= i < j < after.index.len() implies !has_content(
                #[trigger] after.index[i],
                (#[trigger] after.index[j]).bytes,
                after.index[j].crc,
            ) by {
                assert(after.index[i] == world.index[i]);
                if j < last {
                    assert(after.index[j] == world.index[j]);
                }
            }
        }
        assert forall|i: int| 0 <= i < after.index.len() implies is_backed(
            after.store,
            #[trigger] after.index[i],
        ) by {
            if i < last {
                assert(is_backed(world.store, world.index[i]));
            }
        }
    }
}

/// A deletion keeps index and store consistent, whatever its outcome, and
/// after one that succeeded neither the index nor the store knows the id.
pub proof fn law_delete_keeps_consistency(world: World, id: Seq<char>)
    requires
        consistent(world),
    ensures
        consistent(delete(world, id).0),
        delete(world, id).1 is Ok ==> !knows_id(delete(world, id).0.index, id) && !delete(
            world,
            id,
        ).0.store.contains_key(id),
{
    lemma_delete(world, id);
    lemma_without_id(world.index, id);
    let (after, outcome) = delete(world, id);
    if outcome is Ok {
        assert forall|k: int| 0 <= k < after.index.len() implies is_backed(
            after.store,
            #[trigger] after.index[k],
        ) by {
            let i = choose|i: int| 0 <= i < world.index.len() && world.index[i] == after.index[k];
            assert(is_backed(world.store, world.index[i]));
        }
    }
}

} // verus!
