//! What holds of deliveries: the hash of a file whose chunks have all
//! come is the digest of what was delivered, whatever the order.

use vstd::prelude::*;
use crate::certification::sha256_digest;
use crate::chunks::first_owner;
use crate::models::{FileView, Id};
use crate::store::{holds_chunk, lemma_positions, StoreView};

verus! {

/// The file at position `fi` has its chunks reserved: its manifest names
/// no chunk twice, each chunk of it is held by the store, and no earlier
/// file names one of them.
pub open spec fn reserved(s: StoreView, fi: int) -> bool {
    &&& 0 <= fi < s.files.len()
    &&& forall|a: int, b: int|
        0 <= a < b < s.files[fi].chunks.len() ==> s.files[fi].chunks[a] != s.files[fi].chunks[b]
    &&& forall|j: int|
        0 <= j < s.files[fi].chunks.len() ==> s.has_chunk(#[trigger] s.files[fi].chunks[j])
            && first_owner(s.files, s.files[fi].chunks[j], s.files.len()) == Some(fi)
}

/// The first `n` pieces of `data`, one after the other.
pub open spec fn flatten(data: Seq<Seq<u8>>, n: nat) -> Seq<u8>
    decreases n,
{
    if n == 0 || n > data.len() {
        Seq::empty()
    } else {
        flatten(data, (n - 1) as nat) + data[n - 1]
    }
}

/// Two stores hold the same directories, the same chunk ids at the same
/// places, and files of the same ids and manifests at the same places.
pub open spec fn same_shape(s: StoreView, t: StoreView) -> bool {
    &&& t.directories == s.directories
    &&& t.chunks.len() == s.chunks.len()
    &&& forall|c: int| 0 <= c < s.chunks.len() ==> (#[trigger] t.chunks[c]).id == s.chunks[c].id
    &&& t.files.len() == s.files.len()
    &&& forall|i: int|
        0 <= i < s.files.len() ==> (#[trigger] t.files[i]).id == s.files[i].id && t.files[i].chunks
            == s.files[i].chunks
    &&& t.file_id == s.file_id
    &&& t.chunk_id == s.chunk_id
    &&& t.directory_id == s.directory_id
}

/// Whether one of the first `k` deliveries was for the chunk at `j` of the manifest.
pub open spec fn came(order: Seq<int>, k: nat, j: int) -> bool {
    exists|q: int| 0 <= q < k && q < order.len() && #[trigger] order[q] == j
}

/// The owner of a chunk depends on the manifests alone.
pub proof fn lemma_first_owner_same(f1: Seq<FileView>, f2: Seq<FileView>, id: Id, n: nat)
    requires
        f1.len() == f2.len(),
        n <= f1.len(),
        forall|i: int| 0 <= i < f1.len() ==> (#[trigger] f2[i]).chunks == f1[i].chunks,
    ensures
        first_owner(f2, id, n) == first_owner(f1, id, n),
    decreases n,
{
    if n > 0 {
        lemma_first_owner_same(f1, f2, id, (n - 1) as nat);
        assert(f2[n - 1].chunks == f1[n - 1].chunks);
    }
}

/// In stores of the same shape a chunk id is held by both or by none, at
/// the same place, and a reserved file is reserved in both.
pub proof fn lemma_same_shape(s: StoreView, t: StoreView, fi: int)
    requires
        s.ids_ordered(),
        same_shape(s, t),
    ensures
        t.ids_ordered(),
        forall|id: Id| s.has_chunk(id) == t.has_chunk(id),
        forall|id: Id| s.has_chunk(id) ==> #[trigger] s.chunk_pos(id) == t.chunk_pos(id),
        reserved(s, fi) ==> reserved(t, fi),
{
    assert(t.ids_ordered()) by {
        assert forall|i: int, j: int| 0 <= i < j < t.chunks.len() implies (#[trigger] t.chunks[i]).id
            < (#[trigger] t.chunks[j]).id by {
            assert(s.chunks[i].id < s.chunks[j].id);
        }
        assert forall|i: int| 0 <= i < t.chunks.len() implies (#[trigger] t.chunks[i]).id
            < t.chunk_id by {
            assert(s.chunks[i].id < s.chunk_id);
        }
        assert forall|i: int, j: int| 0 <= i < j < t.files.len() implies (#[trigger] t.files[i]).id
            < (#[trigger] t.files[j]).id by {
            assert(s.files[i].id < s.files[j].id);
        }
        assert forall|i: int| 0 <= i < t.files.len() implies (#[trigger] t.files[i]).id
            < t.file_id by {
            assert(s.files[i].id < s.file_id);
        }
    }
    lemma_positions(s);
    lemma_positions(t);
    assert forall|id: Id| s.has_chunk(id) == t.has_chunk(id) by {
        if s.has_chunk(id) {
            let c = s.chunk_pos(id);
            assert(t.chunks[c].id == id);
        }
        if t.has_chunk(id) {
            let c = t.chunk_pos(id);
            assert(s.chunks[c].id == id);
        }
    }
    assert forall|id: Id| s.has_chunk(id) implies #[trigger] s.chunk_pos(id) == t.chunk_pos(id) by {
        let c = s.chunk_pos(id);
        assert(t.chunks[c].id == id);
    }
    if reserved(s, fi) {
        let m = s.files[fi].chunks;
        assert(t.files[fi].chunks == m);
        assert forall|j: int| 0 <= j < m.len() implies t.has_chunk(#[trigger] t.files[fi].chunks[j])
            && first_owner(t.files, t.files[fi].chunks[j], t.files.len()) == Some(fi) by {
            assert(s.has_chunk(s.files[fi].chunks[j]));
            lemma_first_owner_same(s.files, t.files, m[j], s.files.len());
        }
    }
}

/// One delivery keeps the shape of the store, changes no chunk but the
/// one delivered, and stores the bytes where the delivery is taken.
pub proof fn lemma_delivered_shape(p: StoreView, id: Id, bytes: Seq<u8>)
    requires
        p.ids_ordered(),
    ensures
        same_shape(p, p.delivered(id, bytes)),
        forall|c: int|
            0 <= c < p.chunks.len() && p.chunks[c].id != id ==> (#[trigger] p.delivered(
                id,
                bytes,
            ).chunks[c]) == p.chunks[c],
        p.accepts(id) ==> p.delivered(id, bytes).chunks[p.chunk_pos(id)].bytes == bytes,
        p.delivered(id, bytes).chunks == p.with_chunk(id, bytes).chunks || !p.accepts(id),
{
    lemma_positions(p);
    if p.accepts(id) {
        let w = p.with_chunk(id, bytes);
        assert(same_shape(p, w));
        lemma_same_shape(p, w, 0);
        lemma_positions(w);
        lemma_first_owner_range(p.files, id, p.files.len());
        let fi = first_owner(p.files, id, p.files.len()).unwrap();
        assert(w.files[fi] == p.files[fi]);
        assert(w.file_pos(p.files[fi].id) == fi);
    }
}

/// The owner of a chunk is one of the files looked at.
pub proof fn lemma_first_owner_range(files: Seq<FileView>, id: Id, n: nat)
    requires
        n <= files.len(),
    ensures
        match first_owner(files, id, n) {
            Some(i) => 0 <= i < n && files[i].chunks.contains(id),
            None => true,
        },
    decreases n,
{
    if n > 0 {
        lemma_first_owner_range(files, id, (n - 1) as nat);
    }
}

/// Where every chunk of the manifest holds its piece of `data`, the
/// content of the first `n` chunks is the first `n` pieces.
pub proof fn lemma_content_is_data(t: StoreView, m: Seq<Id>, data: Seq<Seq<u8>>, n: nat)
    requires
        n <= m.len(),
        data.len() == m.len(),
        forall|j: int| 0 <= j < m.len() ==> t.has_chunk(#[trigger] m[j]) && t.chunk(m[j]) == data[j],
    ensures
        t.content(m, n) == flatten(data, n),
    decreases n,
{
    if n > 0 {
        lemma_content_is_data(t, m, data, (n - 1) as nat);
        assert(t.has_chunk(m[n - 1]));
    }
}

/// After the first `k` deliveries, each for a chunk of the file at `fi`
/// with its piece of `data`: the store has kept its shape, each chunk that
/// has come holds its piece, and once every chunk has come the file's hash
/// is the digest of the pieces in the manifest's order.
pub proof fn lemma_deliveries(
    s: StoreView,
    fi: int,
    items: Seq<(Id, Seq<u8>)>,
    data: Seq<Seq<u8>>,
    order: Seq<int>,
    k: nat,
)
    requires
        s.ids_ordered(),
        reserved(s, fi),
        data.len() == s.files[fi].chunks.len(),
        forall|j: int| 0 <= j < data.len() ==> (#[trigger] data[j]).len() > 0,
        order.len() == items.len(),
        forall|q: int|
            0 <= q < items.len() ==> 0 <= #[trigger] order[q] < data.len() && items[q] == (
                s.files[fi].chunks[order[q]],
                data[order[q]],
            ),
        k <= items.len(),
    ensures
        same_shape(s, s.delivered_all(items, k)),
        s.delivered_all(items, k).ids_ordered(),
        reserved(s.delivered_all(items, k), fi),
        forall|j: int|
            0 <= j < data.len() && came(order, k, j) ==> s.delivered_all(items, k).chunk(
                #[trigger] s.files[fi].chunks[j],
            ) == data[j],
        k > 0 && (forall|j: int| 0 <= j < data.len() ==> came(order, k, j)) ==> s.delivered_all(
            items,
            k,
        ).files[fi].hash == sha256_digest(flatten(data, data.len())),
    decreases k,
{
    let m = s.files[fi].chunks;
    if k == 0 {
        lemma_same_shape(s, s, fi);
    } else {
        lemma_deliveries(s, fi, items, data, order, (k - 1) as nat);
        let p = s.delivered_all(items, (k - 1) as nat);
        let jk = order[k - 1];
        let id = m[jk];
        let bytes = data[jk];
        assert(items[k - 1] == (id, bytes));
        let t = p.delivered(id, bytes);
        assert(t == s.delivered_all(items, k));
        lemma_delivered_shape(p, id, bytes);
        lemma_same_shape(p, t, fi);
        lemma_same_shape(s, p, fi);
        lemma_positions(p);
        lemma_positions(t);
        assert(same_shape(s, t));
        assert(p.files[fi].chunks == m);
        assert(p.has_chunk(p.files[fi].chunks[jk]));
        assert(p.accepts(id));
        assert forall|j: int| 0 <= j < data.len() && came(order, k, j) implies t.chunk(
            #[trigger] m[j],
        ) == data[j] by {
            assert(p.has_chunk(p.files[fi].chunks[j]));
            let c = p.chunk_pos(m[j]);
            assert(t.chunk_pos(m[j]) == c);
            if j == jk {
            } else {
                assert(m[j] != m[jk]);
                assert(p.chunks[c].id != id);
                assert(t.chunks[c] == p.chunks[c]);
                let q = choose|q: int| 0 <= q < k && q < order.len() && order[q] == j;
                assert(q != k - 1);
                assert(came(order, (k - 1) as nat, j));
            }
        }
        if forall|j: int| 0 <= j < data.len() ==> came(order, k, j) {
            let w = p.with_chunk(id, bytes);
            assert(same_shape(p, w));
            lemma_same_shape(p, w, fi);
            assert(t.chunks == w.chunks);
            assert forall|j: int| 0 <= j < m.len() implies w.has_chunk(#[trigger] m[j]) && w.chunk(
                m[j],
            ) == data[j] by {
                assert(p.has_chunk(p.files[fi].chunks[j]));
                assert(came(order, k, j));
                assert(t.chunk(m[j]) == data[j]);
                assert(t.chunk_pos(m[j]) == w.chunk_pos(m[j]));
            }
            assert(p.owner_of(id) == p.files[fi]);
            assert(w.complete(m));
            lemma_content_is_data(w, m, data, m.len());
            assert(p.finalizes(id, bytes));
            assert(w.file_pos(p.files[fi].id) == fi) by {
                lemma_positions(w);
                assert(w.files[fi].id == p.files[fi].id);
            }
        }
    }
}

/// A file that names a chunk which no earlier file names is its owner.
pub proof fn lemma_first_owner_is(files: Seq<FileView>, id: Id, fi: int, n: nat)
    requires
        0 <= fi < n <= files.len(),
        files[fi].chunks.contains(id),
        forall|p: int| 0 <= p < fi ==> !(#[trigger] files[p]).chunks.contains(id),
    ensures
        first_owner(files, id, n) == Some(fi),
    decreases n,
{
    if n - 1 > fi {
        lemma_first_owner_is(files, id, fi, (n - 1) as nat);
    } else {
        lemma_no_owner(files, id, fi as nat);
    }
}

/// Where none of the first `n` files names a chunk, it has no owner among them.
pub proof fn lemma_no_owner(files: Seq<FileView>, id: Id, n: nat)
    requires
        n <= files.len(),
        forall|p: int| 0 <= p < n ==> !(#[trigger] files[p]).chunks.contains(id),
    ensures
        first_owner(files, id, n).is_none(),
    decreases n,
{
    if n > 0 {
        lemma_no_owner(files, id, (n - 1) as nat);
    }
}

/// In a well-formed store every file has its chunks reserved.
pub proof fn lemma_files_reserved(s: StoreView, fi: int)
    requires
        s.wf(),
        0 <= fi < s.files.len(),
    ensures
        reserved(s, fi),
{
    let m = s.files[fi].chunks;
    assert forall|j: int| 0 <= j < m.len() implies s.has_chunk(#[trigger] s.files[fi].chunks[j])
        && first_owner(s.files, s.files[fi].chunks[j], s.files.len()) == Some(fi) by {
        let x = m[j];
        assert forall|p: int| 0 <= p < fi implies !(#[trigger] s.files[p]).chunks.contains(x) by {
            if s.files[p].chunks.contains(x) {
                let b = choose|b: int| 0 <= b < s.files[p].chunks.len() && s.files[p].chunks[b] == x;
                assert(s.files[p].chunks[b] != s.files[fi].chunks[j]);
            }
        }
        lemma_first_owner_is(s.files, x, fi, s.files.len());
    }
}

/// A store of the shape of a well-formed store is well formed.
pub proof fn lemma_same_shape_wf(s: StoreView, t: StoreView)
    requires
        s.wf(),
        same_shape(s, t),
    ensures
        t.wf(),
{
    lemma_same_shape(s, t, 0);
    assert forall|i: int, j: int|
        0 <= i < t.files.len() && 0 <= j < t.files[i].chunks.len() implies holds_chunk(
        t.chunks,
        #[trigger] t.files[i].chunks[j],
    ) by {
        let x = s.files[i].chunks[j];
        assert(holds_chunk(s.chunks, x));
        let c = choose|c: int| 0 <= c < s.chunks.len() && s.chunks[c].id == x;
        assert(t.chunks[c].id == x);
    }
    assert forall|i: int, a: int, b: int|
        0 <= i < t.files.len() && 0 <= a < b < t.files[i].chunks.len() implies #[trigger] t.files[i].chunks[a]
        != #[trigger] t.files[i].chunks[b] by {
        assert(s.files[i].chunks[a] != s.files[i].chunks[b]);
    }
    assert forall|i1: int, i2: int, a: int, b: int|
        0 <= i1 < i2 < t.files.len() && 0 <= a < t.files[i1].chunks.len() && 0 <= b
            < t.files[i2].chunks.len() implies #[trigger] t.files[i1].chunks[a]
        != #[trigger] t.files[i2].chunks[b] by {
        assert(s.files[i1].chunks[a] != s.files[i2].chunks[b]);
    }
}

/// Delivering the chunks of a file, each with its piece of content, leaves
/// the file with the digest of the pieces in the manifest's order: in
/// whatever order the chunks come, how often each comes, and whatever the
/// file held before. `order` says which chunk each delivery is for, and
/// `place` names for each chunk a delivery that brings it.
pub proof fn law_delivery_order(
    s: StoreView,
    fi: int,
    items: Seq<(Id, Seq<u8>)>,
    data: Seq<Seq<u8>>,
    order: Seq<int>,
    place: Seq<int>,
)
    requires
        s.wf(),
        0 <= fi < s.files.len(),
        data.len() == s.files[fi].chunks.len(),
        data.len() > 0,
        forall|j: int| 0 <= j < data.len() ==> (#[trigger] data[j]).len() > 0,
        order.len() == items.len(),
        forall|q: int|
            0 <= q < items.len() ==> 0 <= #[trigger] order[q] < data.len() && items[q] == (
                s.files[fi].chunks[order[q]],
                data[order[q]],
            ),
        place.len() == data.len(),
        forall|j: int|
            0 <= j < data.len() ==> 0 <= #[trigger] place[j] < items.len() && order[place[j]] == j,
    ensures
        s.delivered_all(items, items.len()).files[fi].hash == sha256_digest(
            flatten(data, data.len()),
        ),
        s.delivered_all(items, items.len()).wf(),
        s.delivered_all(items, items.len()).files.len() == s.files.len(),
        s.delivered_all(items, items.len()).files[fi].chunks == s.files[fi].chunks,
{
    lemma_files_reserved(s, fi);
    lemma_deliveries(s, fi, items, data, order, items.len());
    lemma_same_shape_wf(s, s.delivered_all(items, items.len()));
    assert forall|j: int| 0 <= j < data.len() implies came(order, items.len(), j) by {
        assert(order[place[j]] == j);
    }
    assert(0 <= place[0] < items.len());
}

/// Delivering the chunks of a complete file again with the same bytes
/// leaves its hash as it was; delivering them with other bytes makes its
/// hash the digest of the new content.
pub proof fn law_redelivery(
    s: StoreView,
    fi: int,
    first: Seq<(Id, Seq<u8>)>,
    data: Seq<Seq<u8>>,
    order: Seq<int>,
    place: Seq<int>,
    again: Seq<(Id, Seq<u8>)>,
    new_data: Seq<Seq<u8>>,
    new_order: Seq<int>,
    new_place: Seq<int>,
)
    requires
        s.wf(),
        0 <= fi < s.files.len(),
        data.len() == s.files[fi].chunks.len(),
        data.len() > 0,
        forall|j: int| 0 <= j < data.len() ==> (#[trigger] data[j]).len() > 0,
        order.len() == first.len(),
        forall|q: int|
            0 <= q < first.len() ==> 0 <= #[trigger] order[q] < data.len() && first[q] == (
                s.files[fi].chunks[order[q]],
                data[order[q]],
            ),
        place.len() == data.len(),
        forall|j: int|
            0 <= j < data.len() ==> 0 <= #[trigger] place[j] < first.len() && order[place[j]] == j,
        new_data.len() == data.len(),
        forall|j: int| 0 <= j < new_data.len() ==> (#[trigger] new_data[j]).len() > 0,
        new_order.len() == again.len(),
        forall|q: int|
            0 <= q < again.len() ==> 0 <= #[trigger] new_order[q] < data.len() && again[q] == (
                s.files[fi].chunks[new_order[q]],
                new_data[new_order[q]],
            ),
        new_place.len() == data.len(),
        forall|j: int|
            0 <= j < data.len() ==> 0 <= #[trigger] new_place[j] < again.len()
                && new_order[new_place[j]] == j,
    ensures
        ({
            let once = s.delivered_all(first, first.len());
            let twice = once.delivered_all(again, again.len());
            &&& twice.files[fi].hash == sha256_digest(flatten(new_data, new_data.len()))
            &&& new_data == data ==> twice.files[fi].hash == once.files[fi].hash
        }),
{
    law_delivery_order(s, fi, first, data, order, place);
    let once = s.delivered_all(first, first.len());
    law_delivery_order(once, fi, again, new_data, new_order, new_place);
}

} // verus!
