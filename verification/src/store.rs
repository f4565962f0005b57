//! The aggregate store: every file, directory and chunk, the three id
//! counters, and what it means for the store to be well formed.

use vstd::prelude::*;
use vstd::string::*;
use crate::models::{
    Chunk, ChunkView, DirectoryEntity, DirectoryView, FileEntity, FileView, Id, Metadata,
    Principal,
};

verus! {

/// Why the store refused a request.
#[derive(Clone, Copy, Debug, PartialEq, Eq, Structural)]
pub enum AssetError {
    /// No entity has the id.
    NotFound,
    /// The entity is protected: nobody may change it.
    Protected,
    /// The entity has an owner, and it is not the caller.
    NotOwned,
    /// The name holds a forbidden character.
    InvalidName,
    /// Another entity of the same kind already has the name there.
    DuplicateName,
    /// The directory named as parent does not exist.
    ParentNotFound,
    /// The new parent is the directory itself or lies below it.
    CyclicParent,
    /// Existing assets stand in the way and could not be removed.
    Blocked,
}

/// The single mutable root. Entities are kept in the order of their ids,
/// which is the order in which they were made.
#[derive(Debug)]
pub struct Store {
    pub file_id: Id,
    pub files: Vec<FileEntity>,
    pub directory_id: Id,
    pub directories: Vec<DirectoryEntity>,
    pub chunk_id: Id,
    pub chunks: Vec<Chunk>,
    pub whitelist: Vec<Principal>,
    pub version: String,
}

/// The store, its collections as sequences of views.
pub struct StoreView {
    pub file_id: Id,
    pub files: Seq<FileView>,
    pub directory_id: Id,
    pub directories: Seq<DirectoryView>,
    pub chunk_id: Id,
    pub chunks: Seq<ChunkView>,
    pub whitelist: Seq<Principal>,
    pub version: Seq<char>,
}

impl View for Store {
    type V = StoreView;

    open spec fn view(&self) -> StoreView {
        StoreView {
            file_id: self.file_id,
            files: self.files@.map_values(|f: FileEntity| f@),
            directory_id: self.directory_id,
            directories: self.directories@.map_values(|d: DirectoryEntity| d@),
            chunk_id: self.chunk_id,
            chunks: self.chunks@.map_values(|c: Chunk| c@),
            whitelist: self.whitelist@,
            version: self.version@,
        }
    }
}

/// What stands in the way of `caller` changing an entity, if anything does:
/// protection blocks everybody; an owner blocks everybody else; an entity
/// without an owner is open to all.
pub open spec fn guard(is_protected: bool, owner: Option<Principal>, caller: Principal) -> Option<
    AssetError,
> {
    if is_protected {
        Some(AssetError::Protected)
    } else if owner.is_some() && owner != Some(caller) {
        Some(AssetError::NotOwned)
    } else {
        None
    }
}

/// The guard on an entity's two fields.
pub fn check_guard(is_protected: bool, owner: &Option<Principal>, caller: &Principal) -> (r:
    Option<AssetError>)
    ensures
        r == guard(is_protected, *owner, *caller),
{
    if is_protected {
        return Some(AssetError::Protected);
    }
    match owner {
        Some(p) => {
            if p.same(caller) {
                None
            } else {
                Some(AssetError::NotOwned)
            }
        },
        None => None,
    }
}

/// Whether one of `dirs` has the id.
pub open spec fn has_dir(dirs: Seq<DirectoryView>, id: Id) -> bool {
    exists|i: int| 0 <= i < dirs.len() && #[trigger] dirs[i].id == id
}

/// Where among `dirs` the directory with the id stands; meaningful where `has_dir` holds.
pub open spec fn dir_pos(dirs: Seq<DirectoryView>, id: Id) -> int {
    choose|i: int| 0 <= i < dirs.len() && #[trigger] dirs[i].id == id
}

/// Every directory named as a parent has an id that was given out already.
pub open spec fn parents_known(dirs: Seq<DirectoryView>, next_id: Id) -> bool {
    forall|i: int|
        0 <= i < dirs.len() ==> match (#[trigger] dirs[i]).parent_id {
            Some(p) => p < next_id,
            None => true,
        }
}

/// Whether following parents from directory `id` comes to an end within
/// `steps` steps: at a directory without a parent, or at an id that no
/// directory has.
pub open spec fn ends_within(dirs: Seq<DirectoryView>, id: Id, steps: nat) -> bool
    decreases steps,
{
    if !has_dir(dirs, id) {
        true
    } else if steps == 0 {
        false
    } else {
        match dirs[dir_pos(dirs, id)].parent_id {
            None => true,
            Some(p) => ends_within(dirs, p, (steps - 1) as nat),
        }
    }
}

/// From every directory the walk to its parents comes to an end: none lies
/// below itself.
pub open spec fn acyclic(dirs: Seq<DirectoryView>) -> bool {
    forall|i: int| 0 <= i < dirs.len() ==> exists|k: nat| ends_within(dirs, (#[trigger] dirs[i]).id, k)
}

/// Whether one of `chunks` has the id.
pub open spec fn holds_chunk(chunks: Seq<ChunkView>, id: Id) -> bool {
    exists|c: int| 0 <= c < chunks.len() && #[trigger] chunks[c].id == id
}

/// Every chunk that a manifest names is held, no manifest names a chunk
/// twice, and no two manifests name the same chunk.
pub open spec fn manifests_reserved(files: Seq<FileView>, chunks: Seq<ChunkView>) -> bool {
    &&& forall|i: int, j: int|
        0 <= i < files.len() && 0 <= j < files[i].chunks.len() ==> holds_chunk(
            chunks,
            #[trigger] files[i].chunks[j],
        )
    &&& forall|i: int, a: int, b: int|
        0 <= i < files.len() && 0 <= a < b < files[i].chunks.len() ==> #[trigger] files[i].chunks[a]
            != #[trigger] files[i].chunks[b]
    &&& forall|i1: int, i2: int, a: int, b: int|
        0 <= i1 < i2 < files.len() && 0 <= a < files[i1].chunks.len() && 0 <= b
            < files[i2].chunks.len() ==> #[trigger] files[i1].chunks[a]
            != #[trigger] files[i2].chunks[b]
}

impl StoreView {
    /// Whether a directory has the id.
    pub open spec fn has_directory(self, id: Id) -> bool {
        has_dir(self.directories, id)
    }

    /// The directory with the id; meaningful where `has_directory` holds.
    pub open spec fn directory(self, id: Id) -> DirectoryView {
        self.directories[self.directory_pos(id)]
    }

    /// Where the directory with the id stands; meaningful where `has_directory` holds.
    pub open spec fn directory_pos(self, id: Id) -> int {
        dir_pos(self.directories, id)
    }

    /// Whether a file has the id.
    pub open spec fn has_file(self, id: Id) -> bool {
        exists|i: int| 0 <= i < self.files.len() && #[trigger] self.files[i].id == id
    }

    /// The file with the id; meaningful where `has_file` holds.
    pub open spec fn file(self, id: Id) -> FileView {
        self.files[self.file_pos(id)]
    }

    /// Where the file with the id stands; meaningful where `has_file` holds.
    pub open spec fn file_pos(self, id: Id) -> int {
        choose|i: int| 0 <= i < self.files.len() && #[trigger] self.files[i].id == id
    }

    /// Whether a chunk has the id.
    pub open spec fn has_chunk(self, id: Id) -> bool {
        holds_chunk(self.chunks, id)
    }

    /// The bytes held for the chunk id; meaningful where `has_chunk` holds.
    pub open spec fn chunk(self, id: Id) -> Seq<u8> {
        self.chunks[self.chunk_pos(id)].bytes
    }

    /// Where the chunk with the id stands; meaningful where `has_chunk` holds.
    pub open spec fn chunk_pos(self, id: Id) -> int {
        choose|i: int| 0 <= i < self.chunks.len() && #[trigger] self.chunks[i].id == id
    }

    /// Ids grow along each collection and lie below the collection's counter,
    /// so no id occurs twice and none is ever given again.
    pub open spec fn ids_ordered(self) -> bool {
        &&& forall|i: int, j: int|
            0 <= i < j < self.directories.len() ==> (#[trigger] self.directories[i]).id < (
            #[trigger] self.directories[j]).id
        &&& forall|i: int|
            0 <= i < self.directories.len() ==> (#[trigger] self.directories[i]).id
                < self.directory_id
        &&& forall|i: int, j: int|
            0 <= i < j < self.files.len() ==> (#[trigger] self.files[i]).id < (
            #[trigger] self.files[j]).id
        &&& forall|i: int| 0 <= i < self.files.len() ==> (#[trigger] self.files[i]).id < self.file_id
        &&& forall|i: int, j: int|
            0 <= i < j < self.chunks.len() ==> (#[trigger] self.chunks[i]).id < (
            #[trigger] self.chunks[j]).id
        &&& forall|i: int|
            0 <= i < self.chunks.len() ==> (#[trigger] self.chunks[i]).id < self.chunk_id
    }

    /// The store's invariant.
    pub open spec fn wf(self) -> bool {
        &&& self.ids_ordered()
        &&& parents_known(self.directories, self.directory_id)
        &&& acyclic(self.directories)
        &&& manifests_reserved(self.files, self.chunks)
    }
}

/// In a store with ordered ids the entity at a position is the one its id names.
pub proof fn lemma_positions(s: StoreView)
    requires
        s.ids_ordered(),
    ensures
        forall|i: int|
            0 <= i < s.directories.len() ==> s.has_directory((#[trigger] s.directories[i]).id)
                && s.directory_pos(s.directories[i].id) == i,
        forall|i: int|
            0 <= i < s.files.len() ==> s.has_file((#[trigger] s.files[i]).id) && s.file_pos(
                s.files[i].id,
            ) == i,
        forall|i: int|
            0 <= i < s.chunks.len() ==> s.has_chunk((#[trigger] s.chunks[i]).id) && s.chunk_pos(
                s.chunks[i].id,
            ) == i,
{
    assert forall|i: int| 0 <= i < s.directories.len() implies s.has_directory(
        (#[trigger] s.directories[i]).id,
    ) && s.directory_pos(s.directories[i].id) == i by {
        let j = s.directory_pos(s.directories[i].id);
        if j < i {
            assert(s.directories[j].id < s.directories[i].id);
        } else if i < j {
            assert(s.directories[i].id < s.directories[j].id);
        }
    }
    assert forall|i: int| 0 <= i < s.files.len() implies s.has_file((#[trigger] s.files[i]).id)
        && s.file_pos(s.files[i].id) == i by {
        let j = s.file_pos(s.files[i].id);
        if j < i {
            assert(s.files[j].id < s.files[i].id);
        } else if i < j {
            assert(s.files[i].id < s.files[j].id);
        }
    }
    assert forall|i: int| 0 <= i < s.chunks.len() implies s.has_chunk((#[trigger] s.chunks[i]).id)
        && s.chunk_pos(s.chunks[i].id) == i by {
        let j = s.chunk_pos(s.chunks[i].id);
        if j < i {
            assert(s.chunks[j].id < s.chunks[i].id);
        } else if i < j {
            assert(s.chunks[i].id < s.chunks[j].id);
        }
    }
}

impl Store {
    /// The empty store, at version 0.0.1.
    pub fn new() -> (r: Store)
        ensures
            r@.wf(),
            r@.files.len() == 0,
            r@.directories.len() == 0,
            r@.chunks.len() == 0,
            r@.whitelist.len() == 0,
            r@.file_id == 0 && r@.directory_id == 0 && r@.chunk_id == 0,
            r@.version == seq!['0', '.', '0', '.', '1'],
    {
        proof {
            reveal_strlit("0.0.1");
        }
        let r = Store {
            file_id: 0,
            files: Vec::new(),
            directory_id: 0,
            directories: Vec::new(),
            chunk_id: 0,
            chunks: Vec::new(),
            whitelist: Vec::new(),
            version: String::from_str("0.0.1"),
        };
        assert(r@.version =~= seq!['0', '.', '0', '.', '1']);
        r
    }

    /// Where the directory with the id stands, if there is one.
    pub fn directory_index(&self, id: Id) -> (r: Option<usize>)
        ensures
            match r {
                Some(i) => i < self@.directories.len() && self@.directories[i as int].id == id,
                None => !self@.has_directory(id),
            },
    {
        let mut i: usize = 0;
        while i < self.directories.len()
            invariant
                i <= self.directories@.len(),
                forall|j: int| 0 <= j < i ==> (#[trigger] self@.directories[j]).id != id,
            decreases self.directories@.len() - i,
        {
            if self.directories[i].id == id {
                return Some(i);
            }
            i += 1;
        }
        None
    }

    /// Where the file with the id stands, if there is one.
    pub fn file_index(&self, id: Id) -> (r: Option<usize>)
        ensures
            match r {
                Some(i) => i < self@.files.len() && self@.files[i as int].id == id,
                None => !self@.has_file(id),
            },
    {
        let mut i: usize = 0;
        while i < self.files.len()
            invariant
                i <= self.files@.len(),
                forall|j: int| 0 <= j < i ==> (#[trigger] self@.files[j]).id != id,
            decreases self.files@.len() - i,
        {
            if self.files[i].id == id {
                return Some(i);
            }
            i += 1;
        }
        None
    }

    /// Where the chunk with the id stands, if there is one.
    pub fn chunk_index(&self, id: Id) -> (r: Option<usize>)
        ensures
            match r {
                Some(i) => i < self@.chunks.len() && self@.chunks[i as int].id == id,
                None => !self@.has_chunk(id),
            },
    {
        let mut i: usize = 0;
        while i < self.chunks.len()
            invariant
                i <= self.chunks@.len(),
                forall|j: int| 0 <= j < i ==> (#[trigger] self@.chunks[j]).id != id,
            decreases self.chunks@.len() - i,
        {
            if self.chunks[i].id == id {
                return Some(i);
            }
            i += 1;
        }
        None
    }
}

/// The declared sizes of the first `n` files, added up.
pub open spec fn total_size(files: Seq<FileView>, n: nat) -> nat
    decreases n,
{
    if n == 0 || n > files.len() {
        0
    } else {
        total_size(files, (n - 1) as nat) + files[n - 1].size as nat
    }
}

/// The sizes of more files add up to no less.
pub proof fn lemma_total_size_grows(files: Seq<FileView>, n: nat, m: nat)
    requires
        n <= m <= files.len(),
    ensures
        total_size(files, n) <= total_size(files, m),
    decreases m,
{
    if m > n {
        lemma_total_size_grows(files, n, (m - 1) as nat);
    }
}

impl Store {
    /// What the store reports of itself, with the host's three counters.
    pub fn get_metadata(&self, cycles: u64, heap_memory: u64, stable_memory: u64) -> (r: Metadata)
        requires
            total_size(self@.files, self@.files.len()) <= u64::MAX,
        ensures
            r.cycles == cycles,
            r.heap_memory == heap_memory,
            r.stable_memory == stable_memory,
            r.file_count == self@.files.len(),
            r.directory_count == self@.directories.len(),
            r.files_combined_bytes == total_size(self@.files, self@.files.len()),
            r.version@ == self@.version,
    {
        let mut sum: u64 = 0;
        let mut i: usize = 0;
        while i < self.files.len()
            invariant
                i <= self@.files.len(),
                sum == total_size(self@.files, i as nat),
                total_size(self@.files, self@.files.len()) <= u64::MAX,
            decreases self@.files.len() - i,
        {
            proof {
                lemma_total_size_grows(self@.files, (i + 1) as nat, self@.files.len());
            }
            sum = sum + self.files[i].size;
            i += 1;
        }
        Metadata {
            cycles,
            stable_memory,
            heap_memory,
            file_count: self.files.len() as u64,
            directory_count: self.directories.len() as u64,
            files_combined_bytes: sum,
            version: self.version.clone(),
        }
    }
}

impl Default for Store {
    /// The empty store, at version 0.0.1.
    fn default() -> (r: Store)
        ensures
            r@.wf(),
            r@.files.len() == 0,
            r@.directories.len() == 0,
            r@.chunks.len() == 0,
            r@.whitelist.len() == 0,
            r@.file_id == 0 && r@.directory_id == 0 && r@.chunk_id == 0,
            r@.version == seq!['0', '.', '0', '.', '1'],
    {
        Store::new()
    }
}

} // verus!
