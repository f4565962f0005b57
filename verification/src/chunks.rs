//! The chunk pipeline: chunks come in any order, and a file whose chunks
//! have all come gets its content hash and its entry in the index.

use vstd::prelude::*;
use crate::certification::{sha256, sha256_digest, AssetHashes};
use crate::models::{clone_bytes, clone_ids, Chunk, ChunkView, FileView, Id};
use crate::paths::certified_key;
use crate::manifests::lemma_reserved_chunk_update;
use crate::seqs::contains_id;
use crate::store::{lemma_positions, Store, StoreView};

verus! {

/// What is delivered: chunk ids with their bytes.
pub open spec fn deliveries(items: Seq<(Id, Vec<u8>)>) -> Seq<(Id, Seq<u8>)> {
    items.map_values(|p: (Id, Vec<u8>)| (p.0, p.1@))
}

/// The first among the first `n` files whose manifest holds `chunk_id`, by position.
pub open spec fn first_owner(files: Seq<FileView>, chunk_id: Id, n: nat) -> Option<int>
    decreases n,
{
    if n == 0 || n > files.len() {
        None
    } else {
        match first_owner(files, chunk_id, (n - 1) as nat) {
            Some(i) => Some(i),
            None => if files[n - 1].chunks.contains(chunk_id) {
                Some(n - 1)
            } else {
                None
            },
        }
    }
}

/// An owner found among the first `n` files is the owner among more.
pub proof fn lemma_first_owner_stays(files: Seq<FileView>, chunk_id: Id, n: nat, m: nat)
    requires
        n <= m <= files.len(),
        first_owner(files, chunk_id, n).is_some(),
    ensures
        first_owner(files, chunk_id, m) == first_owner(files, chunk_id, n),
    decreases m,
{
    if m > n {
        lemma_first_owner_stays(files, chunk_id, n, (m - 1) as nat);
    }
}

impl StoreView {
    /// Whether bytes have come for every chunk of the manifest.
    pub open spec fn complete(self, manifest: Seq<Id>) -> bool {
        forall|i: int|
            0 <= i < manifest.len() ==> self.has_chunk(#[trigger] manifest[i]) && self.chunk(
                manifest[i],
            ).len() > 0
    }

    /// The bytes held for the first `n` chunks of the manifest, in its order.
    pub open spec fn content(self, manifest: Seq<Id>, n: nat) -> Seq<u8>
        decreases n,
    {
        if n == 0 || n > manifest.len() {
            Seq::empty()
        } else if self.has_chunk(manifest[n - 1]) {
            self.content(manifest, (n - 1) as nat) + self.chunk(manifest[n - 1])
        } else {
            self.content(manifest, (n - 1) as nat)
        }
    }

    /// The store with `bytes` held for chunk `id`.
    pub open spec fn with_chunk(self, id: Id, bytes: Seq<u8>) -> StoreView {
        StoreView {
            chunks: self.chunks.update(self.chunk_pos(id), ChunkView { id: id, bytes: bytes }),
            ..self
        }
    }

    /// Whether a delivery for `chunk_id` is taken: a file's manifest holds
    /// the id, and the chunk is reserved.
    pub open spec fn accepts(self, chunk_id: Id) -> bool {
        first_owner(self.files, chunk_id, self.files.len()).is_some() && self.has_chunk(chunk_id)
    }

    /// The file that owns `chunk_id`; meaningful where `accepts` holds.
    pub open spec fn owner_of(self, chunk_id: Id) -> FileView {
        self.files[first_owner(self.files, chunk_id, self.files.len()).unwrap()]
    }

    /// Whether the delivery of `bytes` for `chunk_id` completes the owning file.
    pub open spec fn finalizes(self, chunk_id: Id, bytes: Seq<u8>) -> bool {
        self.accepts(chunk_id) && self.with_chunk(chunk_id, bytes).complete(
            self.owner_of(chunk_id).chunks,
        )
    }

    /// The owning file as it is once the delivery has completed it: with
    /// the digest of its content.
    pub open spec fn finalized_file(self, chunk_id: Id, bytes: Seq<u8>) -> FileView {
        let f = self.owner_of(chunk_id);
        FileView {
            hash: sha256_digest(
                self.with_chunk(chunk_id, bytes).content(f.chunks, f.chunks.len()),
            ),
            ..f
        }
    }

    /// The store after the delivery of `bytes` for `chunk_id`: unchanged
    /// where the delivery is not taken; else with the bytes stored, and,
    /// where that completes the owning file, with the file's new hash.
    pub open spec fn delivered(self, chunk_id: Id, bytes: Seq<u8>) -> StoreView {
        if !self.accepts(chunk_id) {
            self
        } else if self.finalizes(chunk_id, bytes) {
            self.with_chunk(chunk_id, bytes).with_file(
                self.owner_of(chunk_id).id,
                self.finalized_file(chunk_id, bytes),
            )
        } else {
            self.with_chunk(chunk_id, bytes)
        }
    }

    /// The index entries after that delivery.
    pub open spec fn entries_delivered(
        self,
        entries: Map<Seq<char>, Seq<u8>>,
        chunk_id: Id,
        bytes: Seq<u8>,
    ) -> Map<Seq<char>, Seq<u8>> {
        if self.finalizes(chunk_id, bytes) {
            entries.insert(
                certified_key(self.directories, self.finalized_file(chunk_id, bytes)),
                self.finalized_file(chunk_id, bytes).hash,
            )
        } else {
            entries
        }
    }

    /// The store after the first `n` of `items` have been delivered in order.
    pub open spec fn delivered_all(self, items: Seq<(Id, Seq<u8>)>, n: nat) -> StoreView
        decreases n,
    {
        if n == 0 || n > items.len() {
            self
        } else {
            self.delivered_all(items, (n - 1) as nat).delivered(items[n - 1].0, items[n - 1].1)
        }
    }

    /// The index entries after the first `n` of `items` have been delivered.
    pub open spec fn entries_delivered_all(
        self,
        entries: Map<Seq<char>, Seq<u8>>,
        items: Seq<(Id, Seq<u8>)>,
        n: nat,
    ) -> Map<Seq<char>, Seq<u8>>
        decreases n,
    {
        if n == 0 || n > items.len() {
            entries
        } else {
            self.delivered_all(items, (n - 1) as nat).entries_delivered(
                self.entries_delivered_all(entries, items, (n - 1) as nat),
                items[n - 1].0,
                items[n - 1].1,
            )
        }
    }

    /// Whether one of the first `n` deliveries completes a file.
    pub open spec fn any_finalized(self, items: Seq<(Id, Seq<u8>)>, n: nat) -> bool
        decreases n,
    {
        if n == 0 || n > items.len() {
            false
        } else {
            self.any_finalized(items, (n - 1) as nat) || self.delivered_all(
                items,
                (n - 1) as nat,
            ).finalizes(items[n - 1].0, items[n - 1].1)
        }
    }
}

impl Store {
    /// Where the first file stands whose manifest holds `chunk_id`.
    pub fn owner_index(&self, chunk_id: Id) -> (r: Option<usize>)
        ensures
            match r {
                Some(i) => first_owner(self@.files, chunk_id, self@.files.len()) == Some(
                    i as int,
                ) && i < self@.files.len(),
                None => first_owner(self@.files, chunk_id, self@.files.len()).is_none(),
            },
    {
        let mut i: usize = 0;
        while i < self.files.len()
            invariant
                i <= self@.files.len(),
                first_owner(self@.files, chunk_id, i as nat).is_none(),
            decreases self@.files.len() - i,
        {
            if contains_id(&self.files[i].chunks, chunk_id) {
                proof {
                    lemma_first_owner_stays(
                        self@.files,
                        chunk_id,
                        (i + 1) as nat,
                        self@.files.len(),
                    );
                }
                return Some(i);
            }
            i += 1;
        }
        None
    }

    /// Whether bytes have come for every chunk of the manifest.
    pub fn is_complete(&self, manifest: &Vec<Id>) -> (r: bool)
        requires
            self@.ids_ordered(),
        ensures
            r == self@.complete(manifest@),
    {
        let mut i: usize = 0;
        proof {
            lemma_positions(self@);
        }
        while i < manifest.len()
            invariant
                i <= manifest@.len(),
                self@.ids_ordered(),
                forall|j: int|
                    0 <= j < i ==> self@.has_chunk(#[trigger] manifest@[j]) && self@.chunk(
                        manifest@[j],
                    ).len() > 0,
            decreases manifest@.len() - i,
        {
            proof {
                lemma_positions(self@);
            }
            match self.chunk_index(manifest[i]) {
                None => {
                    return false;
                },
                Some(c) => {
                    if self.chunks[c].bytes.len() == 0 {
                        return false;
                    }
                },
            }
            i += 1;
        }
        true
    }

    /// The bytes held for the chunks of the manifest, in its order.
    pub fn gather(&self, manifest: &Vec<Id>) -> (r: Vec<u8>)
        requires
            self@.ids_ordered(),
        ensures
            r@ == self@.content(manifest@, manifest@.len()),
    {
        let mut out: Vec<u8> = Vec::new();
        let mut i: usize = 0;
        while i < manifest.len()
            invariant
                i <= manifest@.len(),
                self@.ids_ordered(),
                out@ == self@.content(manifest@, i as nat),
            decreases manifest@.len() - i,
        {
            proof {
                lemma_positions(self@);
            }
            match self.chunk_index(manifest[i]) {
                None => {},
                Some(c) => {
                    let ghost start = out@;
                    let ghost piece = self@.chunks[c as int].bytes;
                    let mut b: usize = 0;
                    while b < self.chunks[c].bytes.len()
                        invariant
                            c < self.chunks@.len(),
                            piece == self.chunks@[c as int].bytes@,
                            b <= piece.len(),
                            out@ == start + piece.subrange(0, b as int),
                        decreases piece.len() - b,
                    {
                        out.push(self.chunks[c].bytes[b]);
                        assert(out@ =~= start + piece.subrange(0, b + 1));
                        b += 1;
                    }
                    assert(out@ =~= start + piece);
                },
            }
            i += 1;
        }
        out
    }

    /// Takes the delivery of `bytes` for `chunk_id`. A chunk that no file
    /// owns is dropped. Where the delivery completes the owning file, the
    /// file gets the digest of its content, the index gets the file's entry,
    /// and the result is `true`.
    pub fn add_chunk(&mut self, hashes: &mut AssetHashes, chunk_id: Id, bytes: Vec<u8>) -> (r: bool)
        requires
            old(self)@.wf(),
        ensures
            final(self)@.wf(),
            final(self)@ == old(self)@.delivered(chunk_id, bytes@),
            r == old(self)@.finalizes(chunk_id, bytes@),
            final(hashes).entries() == old(self)@.entries_delivered(
                old(hashes).entries(),
                chunk_id,
                bytes@,
            ),
    {
        let ghost before = self@;
        proof {
            lemma_positions(before);
        }
        let fi = match self.owner_index(chunk_id) {
            None => {
                return false;
            },
            Some(fi) => fi,
        };
        let ci = match self.chunk_index(chunk_id) {
            None => {
                return false;
            },
            Some(ci) => ci,
        };
        self.chunks.set(ci, Chunk { id: chunk_id, bytes });
        assert(self@.chunks =~= before.chunks.update(
            ci as int,
            ChunkView { id: chunk_id, bytes: bytes@ },
        ));
        assert(self@.files == before.files);
        assert(self@.directories == before.directories);
        assert(self@ == before.with_chunk(chunk_id, bytes@));
        proof {
            lemma_reserved_chunk_update(
                before.files,
                before.chunks,
                ci as int,
                ChunkView { id: chunk_id, bytes: bytes@ },
            );
        }
        let manifest = clone_ids(&self.files[fi].chunks);
        if !self.is_complete(&manifest) {
            return false;
        }
        let content = self.gather(&manifest);
        let mut file = self.files[fi].clone();
        file.hash = sha256(&content);
        hashes.insert(&file, self);
        self.put_file(fi, file);
        true
    }

    /// Takes the deliveries in order. Returns the value to publish as
    /// certified data where one of them completed a file.
    pub fn add_chunks(&mut self, hashes: &mut AssetHashes, chunks: Vec<(Id, Vec<u8>)>) -> (r: Option<
        [u8; 32],
    >)
        requires
            old(self)@.wf(),
        ensures
            final(self)@.wf(),
            final(self)@ == old(self)@.delivered_all(deliveries(chunks@), chunks@.len()),
            final(hashes).entries() == old(self)@.entries_delivered_all(
                old(hashes).entries(),
                deliveries(chunks@),
                chunks@.len(),
            ),
            r.is_some() == old(self)@.any_finalized(deliveries(chunks@), chunks@.len()),
            r.is_some() ==> r.unwrap()@ == crate::certification::label_hash(
                crate::certification::assets_label(),
                final(hashes).root(),
            ),
    {
        let ghost before = self@;
        let ghost entries = hashes.entries();
        let ghost items = deliveries(chunks@);
        let mut any = false;
        let mut i: usize = 0;
        while i < chunks.len()
            invariant
                i <= chunks@.len(),
                items == deliveries(chunks@),
                self@.wf(),
                self@ == before.delivered_all(items, i as nat),
                hashes.entries() == before.entries_delivered_all(entries, items, i as nat),
                any == before.any_finalized(items, i as nat),
            decreases chunks@.len() - i,
        {
            let bytes = clone_bytes(&chunks[i].1);
            let done = self.add_chunk(hashes, chunks[i].0, bytes);
            any = any || done;
            i += 1;
        }
        if any {
            Some(Store::update_certified_data(hashes))
        } else {
            None
        }
    }
}

} // verus!
