//! Tests that a caller outside the verifier's sight makes before it calls:
//! whether a store read from elsewhere is well formed, and whether the
//! counters have room for an insertion.

use vstd::prelude::*;
use crate::assets::{demand, has_room, lemma_demand_grows};
use crate::forest::lemma_forest_depth;
use crate::models::{ChunkView, FileView, Id, NestedAssets, PostAsset};
use crate::seqs::contains_id;
use crate::store::{
    ends_within, holds_chunk, lemma_positions, lemma_total_size_grows, manifests_reserved,
    parents_known, total_size, Store,
};

verus! {

/// Three counts that fit the counters.
#[derive(Clone, Copy, Debug)]
pub struct Counts {
    pub files: u64,
    pub directories: u64,
    pub chunks: u64,
}

/// `a + b`, or `None` where that is more than a counter holds.
pub fn sum(a: u64, b: u64) -> (r: Option<u64>)
    ensures
        match r {
            Some(c) => c == a + b,
            None => a + b > u64::MAX,
        },
{
    if a > u64::MAX - b {
        None
    } else {
        Some(a + b)
    }
}

/// What `assets` take from the counters, or `None` where one of the three
/// counts is more than a counter holds.
pub fn count_demand(assets: &Vec<NestedAssets>) -> (r: Option<Counts>)
    ensures
        match r {
            Some(c) => {
                &&& c.files == demand(assets@, assets@.len()).files
                &&& c.directories == demand(assets@, assets@.len()).directories
                &&& c.chunks == demand(assets@, assets@.len()).chunks
            },
            None => {
                ||| demand(assets@, assets@.len()).files > u64::MAX
                ||| demand(assets@, assets@.len()).directories > u64::MAX
                ||| demand(assets@, assets@.len()).chunks > u64::MAX
            },
        },
    decreases assets@,
{
    let mut total = Counts { files: 0, directories: 0, chunks: 0 };
    let mut i: usize = 0;
    while i < assets.len()
        invariant
            i <= assets@.len(),
            total.files == demand(assets@, i as nat).files,
            total.directories == demand(assets@, i as nat).directories,
            total.chunks == demand(assets@, i as nat).chunks,
        decreases assets@.len() - i,
    {
        proof {
            lemma_demand_grows(assets@, (i + 1) as nat, assets@.len());
        }
        let step = match &assets[i].asset {
            PostAsset::File(pf) => Some(Counts { files: 1, directories: 0, chunks: pf.chunk_count }),
            PostAsset::Directory(_) => match count_demand(&assets[i].children) {
                Some(sub) => match sum(sub.directories, 1) {
                    Some(d) => Some(Counts { files: sub.files, directories: d, chunks: sub.chunks }),
                    None => None,
                },
                None => None,
            },
            PostAsset::Empty => Some(Counts { files: 0, directories: 0, chunks: 0 }),
        };
        let next = match step {
            Some(s) => match (
                sum(total.files, s.files),
                sum(total.directories, s.directories),
                sum(total.chunks, s.chunks),
            ) {
                (Some(f), Some(d), Some(c)) => Some(Counts { files: f, directories: d, chunks: c }),
                _ => None,
            },
            None => None,
        };
        match next {
            Some(n) => {
                total = n;
            },
            None => {
                return None;
            },
        }
        i += 1;
    }
    Some(total)
}

/// Whether chunk `a` of the manifest of the file at `i` is reserved: it is
/// held, the manifest does not name it again, and no later manifest names it.
pub open spec fn reserved_at(files: Seq<FileView>, chunks: Seq<ChunkView>, i: int, a: int) -> bool {
    &&& holds_chunk(chunks, files[i].chunks[a])
    &&& forall|q: int| a < q < files[i].chunks.len() ==> files[i].chunks[q] != files[i].chunks[a]
    &&& forall|p: int|
        i < p < files.len() ==> !(#[trigger] files[p]).chunks.contains(files[i].chunks[a])
}

/// The manifests are reserved exactly where each chunk of each is.
pub proof fn lemma_reserved_at(files: Seq<FileView>, chunks: Seq<ChunkView>)
    ensures
        manifests_reserved(files, chunks) <==> forall|p: int, q: int|
            0 <= p < files.len() && 0 <= q < files[p].chunks.len() ==> #[trigger] reserved_at(
                files,
                chunks,
                p,
                q,
            ),
{
    if manifests_reserved(files, chunks) {
        assert forall|p: int, q: int|
            0 <= p < files.len() && 0 <= q < files[p].chunks.len() implies #[trigger] reserved_at(
            files,
            chunks,
            p,
            q,
        ) by {
            assert(holds_chunk(chunks, files[p].chunks[q]));
            assert forall|b: int| q < b < files[p].chunks.len() implies files[p].chunks[b]
                != files[p].chunks[q] by {
                assert(files[p].chunks[q] != files[p].chunks[b]);
            }
            assert forall|p2: int| p < p2 < files.len() implies !(#[trigger] files[p2]).chunks.contains(
                files[p].chunks[q],
            ) by {
                if files[p2].chunks.contains(files[p].chunks[q]) {
                    let b = choose|b: int|
                        0 <= b < files[p2].chunks.len() && files[p2].chunks[b] == files[p].chunks[q];
                    assert(files[p].chunks[q] != files[p2].chunks[b]);
                }
            }
        }
    }
    if forall|p: int, q: int|
        0 <= p < files.len() && 0 <= q < files[p].chunks.len() ==> #[trigger] reserved_at(
            files,
            chunks,
            p,
            q,
        ) {
        assert forall|i: int, j: int|
            0 <= i < files.len() && 0 <= j < files[i].chunks.len() implies holds_chunk(
            chunks,
            #[trigger] files[i].chunks[j],
        ) by {
            assert(reserved_at(files, chunks, i, j));
        }
        assert forall|i: int, a: int, b: int|
            0 <= i < files.len() && 0 <= a < b < files[i].chunks.len() implies #[trigger] files[i].chunks[a]
            != #[trigger] files[i].chunks[b] by {
            assert(reserved_at(files, chunks, i, a));
        }
        assert forall|i1: int, i2: int, a: int, b: int|
            0 <= i1 < i2 < files.len() && 0 <= a < files[i1].chunks.len() && 0 <= b
                < files[i2].chunks.len() implies #[trigger] files[i1].chunks[a]
            != #[trigger] files[i2].chunks[b] by {
            assert(reserved_at(files, chunks, i1, a));
            assert(!files[i2].chunks.contains(files[i1].chunks[a]));
        }
    }
}

impl Store {
    /// Whether the counters have room for the ids that `assets` take.
    pub fn has_room_for(&self, assets: &Vec<NestedAssets>) -> (r: bool)
        ensures
            r == has_room(self@, demand(assets@, assets@.len())),
    {
        match count_demand(assets) {
            None => false,
            Some(c) => {
                c.files <= u64::MAX - self.file_id && c.directories <= u64::MAX
                    - self.directory_id && c.chunks <= u64::MAX - self.chunk_id
            },
        }
    }

    /// The declared sizes of all files added up, or `None` where the sum is
    /// more than a `u64` holds.
    pub fn combined_bytes(&self) -> (r: Option<u64>)
        ensures
            match r {
                Some(t) => t == total_size(self@.files, self@.files.len()),
                None => total_size(self@.files, self@.files.len()) > u64::MAX,
            },
    {
        let mut total: u64 = 0;
        let mut i: usize = 0;
        while i < self.files.len()
            invariant
                i <= self@.files.len(),
                total == total_size(self@.files, i as nat),
            decreases self@.files.len() - i,
        {
            proof {
                lemma_total_size_grows(self@.files, (i + 1) as nat, self@.files.len());
            }
            match sum(total, self.files[i].size) {
                Some(t) => {
                    total = t;
                },
                None => {
                    return None;
                },
            }
            i += 1;
        }
        Some(total)
    }

    /// Whether the walk from directory `id` to its parents ends within as
    /// many steps as there are directories.
    pub fn walk_ends(&self, id: Id) -> (r: bool)
        requires
            self@.ids_ordered(),
        ensures
            r == ends_within(self@.directories, id, self@.directories.len()),
    {
        let ghost dirs = self@.directories;
        let mut cur = id;
        let mut fuel: usize = self.directories.len();
        loop
            invariant
                dirs == self@.directories,
                self@.ids_ordered(),
                ends_within(dirs, id, dirs.len()) == ends_within(dirs, cur, fuel as nat),
            decreases fuel,
        {
            proof {
                lemma_positions(self@);
            }
            match self.directory_index(cur) {
                None => {
                    return true;
                },
                Some(i) => {
                    if fuel == 0 {
                        return false;
                    }
                    match self.directories[i].parent_id {
                        None => {
                            return true;
                        },
                        Some(p) => {
                            cur = p;
                            fuel -= 1;
                        },
                    }
                },
            }
        }
    }

    /// Whether the ids of each collection grow and lie below its counter.
    pub fn ids_in_order(&self) -> (r: bool)
        ensures
            r == self@.ids_ordered(),
    {
        let mut i: usize = 0;
        while i < self.directories.len()
            invariant
                i <= self@.directories.len(),
                forall|a: int, b: int|
                    0 <= a < b < i ==> (#[trigger] self@.directories[a]).id < (
                    #[trigger] self@.directories[b]).id,
                forall|a: int| 0 <= a < i ==> (#[trigger] self@.directories[a]).id < self@.directory_id,
            decreases self@.directories.len() - i,
        {
            if self.directories[i].id >= self.directory_id {
                assert(!(self@.directories[i as int].id < self@.directory_id));
                return false;
            }
            if i > 0 && self.directories[i - 1].id >= self.directories[i].id {
                assert(!(self@.directories[i - 1].id < self@.directories[i as int].id));
                return false;
            }
            i += 1;
        }
        let mut j: usize = 0;
        while j < self.files.len()
            invariant
                j <= self@.files.len(),
                forall|a: int, b: int|
                    0 <= a < b < j ==> (#[trigger] self@.files[a]).id < (#[trigger] self@.files[b]).id,
                forall|a: int| 0 <= a < j ==> (#[trigger] self@.files[a]).id < self@.file_id,
            decreases self@.files.len() - j,
        {
            if self.files[j].id >= self.file_id {
                assert(!(self@.files[j as int].id < self@.file_id));
                return false;
            }
            if j > 0 && self.files[j - 1].id >= self.files[j].id {
                assert(!(self@.files[j - 1].id < self@.files[j as int].id));
                return false;
            }
            j += 1;
        }
        let mut k: usize = 0;
        while k < self.chunks.len()
            invariant
                k <= self@.chunks.len(),
                forall|a: int, b: int|
                    0 <= a < b < k ==> (#[trigger] self@.chunks[a]).id < (#[trigger] self@.chunks[b]).id,
                forall|a: int| 0 <= a < k ==> (#[trigger] self@.chunks[a]).id < self@.chunk_id,
            decreases self@.chunks.len() - k,
        {
            if self.chunks[k].id >= self.chunk_id {
                assert(!(self@.chunks[k as int].id < self@.chunk_id));
                return false;
            }
            if k > 0 && self.chunks[k - 1].id >= self.chunks[k].id {
                assert(!(self@.chunks[k - 1].id < self@.chunks[k as int].id));
                return false;
            }
            k += 1;
        }
        true
    }

    /// Whether chunk `a` of the manifest of the file at `i` is reserved.
    pub fn chunk_is_reserved(&self, i: usize, a: usize) -> (r: bool)
        requires
            i < self@.files.len(),
            a < self@.files[i as int].chunks.len(),
        ensures
            r == reserved_at(self@.files, self@.chunks, i as int, a as int),
    {
        let x = self.files[i].chunks[a];
        let n = self.files[i].chunks.len();
        let total = self.files.len();
        if self.chunk_index(x).is_none() {
            assert(!holds_chunk(self@.chunks, x));
            return false;
        }
        assert(holds_chunk(self@.chunks, x));
        let mut b: usize = a + 1;
        while b < n
            invariant
                i < self@.files.len(),
                n == self@.files[i as int].chunks.len(),
                a < b <= n,
                x == self@.files[i as int].chunks[a as int],
                forall|q: int| a < q < b ==> self@.files[i as int].chunks[q] != x,
            decreases n - b,
        {
            if self.files[i].chunks[b] == x {
                assert(self@.files[i as int].chunks[b as int] == x);
                return false;
            }
            b += 1;
        }
        let mut i2: usize = i + 1;
        while i2 < total
            invariant
                total == self@.files.len(),
                i < i2 <= total,
                x == self@.files[i as int].chunks[a as int],
                forall|p: int| i < p < i2 ==> !(#[trigger] self@.files[p]).chunks.contains(x),
            decreases total - i2,
        {
            if contains_id(&self.files[i2].chunks, x) {
                assert(self@.files[i2 as int].chunks.contains(x));
                return false;
            }
            i2 += 1;
        }
        true
    }

    /// Whether every manifest has its chunks reserved.
    pub fn manifests_are_reserved(&self) -> (r: bool)
        ensures
            r == manifests_reserved(self@.files, self@.chunks),
    {
        let mut i: usize = 0;
        while i < self.files.len()
            invariant
                i <= self@.files.len(),
                forall|p: int, q: int|
                    0 <= p < i && 0 <= q < self@.files[p].chunks.len() ==> #[trigger] reserved_at(
                        self@.files,
                        self@.chunks,
                        p,
                        q,
                    ),
            decreases self@.files.len() - i,
        {
            let mut a: usize = 0;
            while a < self.files[i].chunks.len()
                invariant
                    i < self@.files.len(),
                    a <= self@.files[i as int].chunks.len(),
                    forall|p: int, q: int|
                        0 <= p < i && 0 <= q < self@.files[p].chunks.len()
                            ==> #[trigger] reserved_at(self@.files, self@.chunks, p, q),
                    forall|q: int|
                        0 <= q < a ==> #[trigger] reserved_at(
                            self@.files,
                            self@.chunks,
                            i as int,
                            q,
                        ),
                decreases self@.files[i as int].chunks.len() - a,
            {
                if !self.chunk_is_reserved(i, a) {
                    proof {
                        lemma_reserved_at(self@.files, self@.chunks);
                    }
                    return false;
                }
                a += 1;
            }
            i += 1;
        }
        proof {
            lemma_reserved_at(self@.files, self@.chunks);
        }
        true
    }

    /// Whether the store is well formed: its ids are in order, every parent
    /// named has an id that was given out, from every directory the walk to
    /// its parents comes to an end, and every manifest has its chunks
    /// reserved.
    pub fn is_well_formed(&self) -> (r: bool)
        ensures
            r == self@.wf(),
    {
        if !self.ids_in_order() {
            return false;
        }
        if !self.manifests_are_reserved() {
            return false;
        }
        let mut i: usize = 0;
        while i < self.directories.len()
            invariant
                i <= self@.directories.len(),
                self@.ids_ordered(),
                forall|a: int|
                    0 <= a < i ==> match (#[trigger] self@.directories[a]).parent_id {
                        Some(p) => p < self@.directory_id,
                        None => true,
                    },
                forall|a: int|
                    0 <= a < i ==> ends_within(
                        self@.directories,
                        (#[trigger] self@.directories[a]).id,
                        self@.directories.len(),
                    ),
            decreases self@.directories.len() - i,
        {
            match self.directories[i].parent_id {
                Some(p) => {
                    if p >= self.directory_id {
                        assert(self@.directories[i as int].parent_id == Some(p));
                        assert(!parents_known(self@.directories, self@.directory_id));
                        return false;
                    }
                },
                None => {},
            }
            if !self.walk_ends(self.directories[i].id) {
                proof {
                    if self@.wf() {
                        lemma_forest_depth(self@.directories, self@.directories[i as int].id);
                    }
                }
                return false;
            }
            i += 1;
        }
        proof {
            assert forall|a: int| 0 <= a < self@.directories.len() implies exists|k: nat|
                ends_within(self@.directories, (#[trigger] self@.directories[a]).id, k) by {
                assert(ends_within(
                    self@.directories,
                    self@.directories[a].id,
                    self@.directories.len(),
                ));
            }
        }
        true
    }
}

} // verus!
