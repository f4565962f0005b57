//! Why every manifest keeps its chunks: facts about the reservation of
//! chunks under the store's operations.

use vstd::prelude::*;
use crate::assets::{fresh_chunks, fresh_ids};
use crate::files::in_ids;
use crate::models::{ChunkView, FileView, Id};
use crate::seqs::{kept, lemma_kept_members};
use crate::store::{holds_chunk, manifests_reserved};

verus! {

/// The ids of `files` grow with the position.
pub open spec fn files_increasing(files: Seq<FileView>) -> bool {
    forall|i: int, j: int|
        0 <= i < j < files.len() ==> (#[trigger] files[i]).id < (#[trigger] files[j]).id
}

/// Files taken from files whose manifests are reserved have their
/// manifests reserved.
pub proof fn lemma_reserved_part(old_files: Seq<FileView>, new_files: Seq<FileView>, chunks: Seq<ChunkView>)
    requires
        manifests_reserved(old_files, chunks),
        files_increasing(new_files),
        forall|a: int|
            0 <= a < new_files.len() ==> exists|j: int|
                0 <= j < old_files.len() && old_files[j] == #[trigger] new_files[a],
    ensures
        manifests_reserved(new_files, chunks),
{
    assert forall|i: int, j: int|
        0 <= i < new_files.len() && 0 <= j < new_files[i].chunks.len() implies holds_chunk(
        chunks,
        #[trigger] new_files[i].chunks[j],
    ) by {
        let o = choose|o: int| 0 <= o < old_files.len() && old_files[o] == new_files[i];
        assert(holds_chunk(chunks, old_files[o].chunks[j]));
    }
    assert forall|i: int, a: int, b: int|
        0 <= i < new_files.len() && 0 <= a < b < new_files[i].chunks.len() implies #[trigger] new_files[i].chunks[a]
        != #[trigger] new_files[i].chunks[b] by {
        let o = choose|o: int| 0 <= o < old_files.len() && old_files[o] == new_files[i];
        assert(old_files[o].chunks[a] != old_files[o].chunks[b]);
    }
    assert forall|i1: int, i2: int, a: int, b: int|
        0 <= i1 < i2 < new_files.len() && 0 <= a < new_files[i1].chunks.len() && 0 <= b
            < new_files[i2].chunks.len() implies #[trigger] new_files[i1].chunks[a]
        != #[trigger] new_files[i2].chunks[b] by {
        let o1 = choose|o: int| 0 <= o < old_files.len() && old_files[o] == new_files[i1];
        let o2 = choose|o: int| 0 <= o < old_files.len() && old_files[o] == new_files[i2];
        assert(new_files[i1].id < new_files[i2].id);
        if o1 < o2 {
            assert(old_files[o1].chunks[a] != old_files[o2].chunks[b]);
        } else {
            assert(o2 < o1);
            assert(old_files[o2].chunks[b] != old_files[o1].chunks[a]);
        }
    }
}

/// Releasing chunks that no manifest names keeps the manifests reserved.
pub proof fn lemma_reserved_release(files: Seq<FileView>, chunks: Seq<ChunkView>, ids: Seq<Id>)
    requires
        manifests_reserved(files, chunks),
        forall|i: int, j: int|
            0 <= i < files.len() && 0 <= j < files[i].chunks.len() ==> !ids.contains(
                #[trigger] files[i].chunks[j],
            ),
    ensures
        manifests_reserved(files, kept(chunks, in_ids(ids), chunks.len())),
{
    let after = kept(chunks, in_ids(ids), chunks.len());
    assert forall|i: int, j: int|
        0 <= i < files.len() && 0 <= j < files[i].chunks.len() implies holds_chunk(
        after,
        #[trigger] files[i].chunks[j],
    ) by {
        let x = files[i].chunks[j];
        assert(holds_chunk(chunks, x));
        let c = choose|c: int| 0 <= c < chunks.len() && chunks[c].id == x;
        lemma_kept_members(chunks, in_ids(ids), chunks.len(), c);
        let k = choose|k: int| 0 <= k < after.len() && after[k] == chunks[c];
        assert(after[k].id == x);
    }
}

/// Replacing the bytes of a chunk keeps the manifests reserved.
pub proof fn lemma_reserved_chunk_update(files: Seq<FileView>, chunks: Seq<ChunkView>, c: int, v: ChunkView)
    requires
        manifests_reserved(files, chunks),
        0 <= c < chunks.len(),
        v.id == chunks[c].id,
    ensures
        manifests_reserved(files, chunks.update(c, v)),
{
    let after = chunks.update(c, v);
    assert forall|i: int, j: int|
        0 <= i < files.len() && 0 <= j < files[i].chunks.len() implies holds_chunk(
        after,
        #[trigger] files[i].chunks[j],
    ) by {
        let x = files[i].chunks[j];
        assert(holds_chunk(chunks, x));
        let k = choose|k: int| 0 <= k < chunks.len() && chunks[k].id == x;
        assert(after[k].id == x);
    }
}

/// Replacing a file by one of the same manifest keeps the manifests reserved.
pub proof fn lemma_reserved_file_update(files: Seq<FileView>, chunks: Seq<ChunkView>, i: int, f: FileView)
    requires
        manifests_reserved(files, chunks),
        0 <= i < files.len(),
        f.chunks == files[i].chunks,
    ensures
        manifests_reserved(files.update(i, f), chunks),
{
    let after = files.update(i, f);
    assert forall|p: int, j: int|
        0 <= p < after.len() && 0 <= j < after[p].chunks.len() implies holds_chunk(
        chunks,
        #[trigger] after[p].chunks[j],
    ) by {
        assert(after[p].chunks == files[p].chunks);
        assert(holds_chunk(chunks, files[p].chunks[j]));
    }
    assert forall|p: int, a: int, b: int|
        0 <= p < after.len() && 0 <= a < b < after[p].chunks.len() implies #[trigger] after[p].chunks[a]
        != #[trigger] after[p].chunks[b] by {
        assert(after[p].chunks == files[p].chunks);
        assert(files[p].chunks[a] != files[p].chunks[b]);
    }
    assert forall|i1: int, i2: int, a: int, b: int|
        0 <= i1 < i2 < after.len() && 0 <= a < after[i1].chunks.len() && 0 <= b
            < after[i2].chunks.len() implies #[trigger] after[i1].chunks[a]
        != #[trigger] after[i2].chunks[b] by {
        assert(after[i1].chunks == files[i1].chunks);
        assert(after[i2].chunks == files[i2].chunks);
        assert(files[i1].chunks[a] != files[i2].chunks[b]);
    }
}

/// A new file with fresh chunks, reserved behind the chunks held, keeps
/// the manifests reserved.
pub proof fn lemma_reserved_new_file(
    files: Seq<FileView>,
    chunks: Seq<ChunkView>,
    f: FileView,
    first: Id,
    count: nat,
)
    requires
        manifests_reserved(files, chunks),
        forall|c: int| 0 <= c < chunks.len() ==> (#[trigger] chunks[c]).id < first,
        first + count <= u64::MAX,
        f.chunks == fresh_ids(first, count),
    ensures
        manifests_reserved(files.push(f), chunks + fresh_chunks(first, count)),
{
    let after = files.push(f);
    let held = chunks + fresh_chunks(first, count);
    assert forall|p: int, j: int|
        0 <= p < after.len() && 0 <= j < after[p].chunks.len() implies holds_chunk(
        held,
        #[trigger] after[p].chunks[j],
    ) by {
        if p < files.len() {
            let x = files[p].chunks[j];
            assert(holds_chunk(chunks, x));
            let k = choose|k: int| 0 <= k < chunks.len() && chunks[k].id == x;
            assert(held[k].id == x);
        } else {
            assert(held[chunks.len() + j].id == f.chunks[j]);
        }
    }
    assert forall|p: int, a: int, b: int|
        0 <= p < after.len() && 0 <= a < b < after[p].chunks.len() implies #[trigger] after[p].chunks[a]
        != #[trigger] after[p].chunks[b] by {
        if p < files.len() {
            assert(files[p].chunks[a] != files[p].chunks[b]);
        }
    }
    assert forall|i1: int, i2: int, a: int, b: int|
        0 <= i1 < i2 < after.len() && 0 <= a < after[i1].chunks.len() && 0 <= b
            < after[i2].chunks.len() implies #[trigger] after[i1].chunks[a]
        != #[trigger] after[i2].chunks[b] by {
        if i2 < files.len() {
            assert(files[i1].chunks[a] != files[i2].chunks[b]);
        } else {
            let x = files[i1].chunks[a];
            assert(holds_chunk(chunks, x));
            let k = choose|k: int| 0 <= k < chunks.len() && chunks[k].id == x;
            assert(chunks[k].id < first);
        }
    }
}

} // verus!
