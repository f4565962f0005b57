//! Inserting a tree of assets: what stands in the way is found first, then
//! removed, then the tree is made depth first.

use vstd::prelude::*;
use crate::directories::placement_verdict;
use crate::files::{file_response, same_id};
use crate::models::{
    assets_view, clone_opt_string, opt_string_view, Asset, AssetView, Chunk,
    ChunkView, DirectoryEntity, DirectoryView, FileEntity, FileResponse, FileResponseView,
    FileView, Id, NestedAssets, PostAsset, PostDirectory, PostFile, Principal,
};
use crate::manifests::lemma_reserved_new_file;
use crate::store::{guard, lemma_positions, AssetError, Store, StoreView};
use crate::tree::{directory_response, lemma_assets_view_push};

verus! {

/// How many ids an insertion takes from each counter.
pub struct Demand {
    pub files: nat,
    pub directories: nat,
    pub chunks: nat,
}

/// What the first `n` of `assets` take, with all that lies below them.
pub open spec fn demand(assets: Seq<NestedAssets>, n: nat) -> Demand
    decreases assets, n,
{
    if n == 0 || n > assets.len() {
        Demand { files: 0, directories: 0, chunks: 0 }
    } else {
        let prev = demand(assets, (n - 1) as nat);
        match assets[n - 1].asset {
            PostAsset::File(pf) => Demand {
                files: prev.files + 1,
                chunks: prev.chunks + pf.chunk_count as nat,
                ..prev
            },
            PostAsset::Directory(_) => {
                let sub = demand(assets[n - 1].children@, assets[n - 1].children@.len());
                Demand {
                    files: prev.files + sub.files,
                    directories: prev.directories + 1 + sub.directories,
                    chunks: prev.chunks + sub.chunks,
                }
            },
            PostAsset::Empty => prev,
        }
    }
}

/// More assets take no less.
pub proof fn lemma_demand_grows(assets: Seq<NestedAssets>, n: nat, m: nat)
    requires
        n <= m <= assets.len(),
    ensures
        demand(assets, n).files <= demand(assets, m).files,
        demand(assets, n).directories <= demand(assets, m).directories,
        demand(assets, n).chunks <= demand(assets, m).chunks,
    decreases m,
{
    if m > n {
        lemma_demand_grows(assets, n, (m - 1) as nat);
    }
}

/// The counters of `s` have room for `d`.
pub open spec fn has_room(s: StoreView, d: Demand) -> bool {
    &&& s.file_id + d.files <= u64::MAX
    &&& s.directory_id + d.directories <= u64::MAX
    &&& s.chunk_id + d.chunks <= u64::MAX
}

/// `count` chunk ids from `first` on.
pub open spec fn fresh_ids(first: Id, count: nat) -> Seq<Id> {
    Seq::new(count, |i: int| (first + i) as Id)
}

/// `count` empty chunks with the ids from `first` on.
pub open spec fn fresh_chunks(first: Id, count: nat) -> Seq<ChunkView> {
    Seq::new(count, |i: int| ChunkView { id: (first + i) as Id, bytes: Seq::empty() })
}

/// The file that `pf` asks for, made in `s` under `parent` for `caller`.
pub open spec fn new_file(s: StoreView, parent: Option<Id>, pf: PostFile, caller: Principal, now: u64) -> FileView {
    FileView {
        id: s.file_id,
        name: pf.name@,
        size: pf.size,
        mime_type: pf.mime_type@,
        extension: pf.extension@,
        permission: pf.permission@,
        parent_id: parent,
        chunks: fresh_ids(s.chunk_id, pf.chunk_count as nat),
        metadata: opt_string_view(pf.metadata),
        is_protected: false,
        owner: Some(caller),
        created_at: now,
        updated_at: now,
        hash: Seq::new(32, |i: int| 0u8),
    }
}

/// The directory that `pd` asks for, made in `s` under `parent` for `caller`.
pub open spec fn new_directory(
    s: StoreView,
    parent: Option<Id>,
    pd: PostDirectory,
    caller: Principal,
    now: u64,
) -> DirectoryView {
    DirectoryView {
        id: s.directory_id,
        name: pd.name@,
        parent_id: parent,
        permission: pd.permission@,
        is_protected: false,
        owner: Some(caller),
        created_at: now,
        updated_at: now,
    }
}

/// `s` with the file that `pf` asks for and its reserved chunks.
pub open spec fn with_new_file(s: StoreView, parent: Option<Id>, pf: PostFile, caller: Principal, now: u64) -> StoreView {
    StoreView {
        files: s.files.push(new_file(s, parent, pf, caller, now)),
        file_id: (s.file_id + 1) as Id,
        chunks: s.chunks + fresh_chunks(s.chunk_id, pf.chunk_count as nat),
        chunk_id: (s.chunk_id + pf.chunk_count) as Id,
        ..s
    }
}

/// `s` with the directory that `pd` asks for.
pub open spec fn with_new_directory(
    s: StoreView,
    parent: Option<Id>,
    pd: PostDirectory,
    caller: Principal,
    now: u64,
) -> StoreView {
    StoreView {
        directories: s.directories.push(new_directory(s, parent, pd, caller, now)),
        directory_id: (s.directory_id + 1) as Id,
        ..s
    }
}

/// A store and the files made on the way to it, each with the label that
/// the client gave it.
pub struct Insertion {
    pub store: StoreView,
    pub made: Seq<(FileResponseView, Seq<char>)>,
}

/// The first `n` of `assets` made under `parent`, depth first: a directory
/// before what lies in it, and what lies in it before the next asset.
pub open spec fn inserted(
    s: StoreView,
    parent: Option<Id>,
    assets: Seq<NestedAssets>,
    caller: Principal,
    now: u64,
    n: nat,
) -> Insertion
    decreases assets, n,
{
    if n == 0 || n > assets.len() {
        Insertion { store: s, made: Seq::empty() }
    } else {
        let prev = inserted(s, parent, assets, caller, now, (n - 1) as nat);
        match assets[n - 1].asset {
            PostAsset::File(pf) => {
                let f = new_file(prev.store, parent, pf, caller, now);
                Insertion {
                    store: with_new_file(prev.store, parent, pf, caller, now),
                    made: prev.made.push(
                        (file_response(prev.store.directories, f), pf.origin_path@),
                    ),
                }
            },
            PostAsset::Directory(pd) => {
                let sub = inserted(
                    with_new_directory(prev.store, parent, pd, caller, now),
                    Some(prev.store.directory_id),
                    assets[n - 1].children@,
                    caller,
                    now,
                    assets[n - 1].children@.len(),
                );
                Insertion { store: sub.store, made: prev.made + sub.made }
            },
            PostAsset::Empty => prev,
        }
    }
}

/// The views of the files made.
pub open spec fn made_view(v: Seq<(FileResponse, String)>) -> Seq<(FileResponseView, Seq<char>)> {
    v.map_values(|p: (FileResponse, String)| (p.0@, p.1@))
}

/// The first among the first `n` files that lies under `parent` and has the name.
pub open spec fn first_file_named(files: Seq<FileView>, parent: Option<Id>, name: Seq<char>, n: nat) -> Option<
    int,
>
    decreases n,
{
    if n == 0 || n > files.len() {
        None
    } else {
        match first_file_named(files, parent, name, (n - 1) as nat) {
            Some(i) => Some(i),
            None => if files[n - 1].parent_id == parent && files[n - 1].name == name {
                Some(n - 1)
            } else {
                None
            },
        }
    }
}

/// The first among the first `n` directories that lies under `parent` and has the name.
pub open spec fn first_directory_named(
    dirs: Seq<DirectoryView>,
    parent: Option<Id>,
    name: Seq<char>,
    n: nat,
) -> Option<int>
    decreases n,
{
    if n == 0 || n > dirs.len() {
        None
    } else {
        match first_directory_named(dirs, parent, name, (n - 1) as nat) {
            Some(i) => Some(i),
            None => if dirs[n - 1].parent_id == parent && dirs[n - 1].name == name {
                Some(n - 1)
            } else {
                None
            },
        }
    }
}

/// A file found among the first `n` is the one found among more.
pub proof fn lemma_first_file_named_stays(
    files: Seq<FileView>,
    parent: Option<Id>,
    name: Seq<char>,
    n: nat,
    m: nat,
)
    requires
        n <= m <= files.len(),
        first_file_named(files, parent, name, n).is_some(),
    ensures
        first_file_named(files, parent, name, m) == first_file_named(files, parent, name, n),
    decreases m,
{
    if m > n {
        lemma_first_file_named_stays(files, parent, name, n, (m - 1) as nat);
    }
}

/// A directory found among the first `n` is the one found among more.
pub proof fn lemma_first_directory_named_stays(
    dirs: Seq<DirectoryView>,
    parent: Option<Id>,
    name: Seq<char>,
    n: nat,
    m: nat,
)
    requires
        n <= m <= dirs.len(),
        first_directory_named(dirs, parent, name, n).is_some(),
    ensures
        first_directory_named(dirs, parent, name, m) == first_directory_named(
            dirs,
            parent,
            name,
            n,
        ),
    decreases m,
{
    if m > n {
        lemma_first_directory_named_stays(dirs, parent, name, n, (m - 1) as nat);
    }
}

/// The asset already under `parent` that stands in the way of `wanted` and
/// that `caller` may not remove, if there is one: the first file of the
/// same name for a file, the first directory of the same name for a directory.
pub open spec fn blocker(s: StoreView, parent: Option<Id>, wanted: PostAsset, caller: Principal) -> Option<
    AssetView,
> {
    match wanted {
        PostAsset::File(pf) => match first_file_named(s.files, parent, pf.name@, s.files.len()) {
            Some(i) => if guard(s.files[i].is_protected, s.files[i].owner, caller).is_some() {
                Some(AssetView::File(file_response(s.directories, s.files[i])))
            } else {
                None
            },
            None => None,
        },
        PostAsset::Directory(pd) => match first_directory_named(
            s.directories,
            parent,
            pd.name@,
            s.directories.len(),
        ) {
            Some(i) => if guard(
                s.directories[i].is_protected,
                s.directories[i].owner,
                caller,
            ).is_some() {
                Some(
                    AssetView::Directory(
                        directory_response(
                            s.directories,
                            s.files,
                            s.directories[i],
                            s.directories.len(),
                        ),
                    ),
                )
            } else {
                None
            },
            None => None,
        },
        PostAsset::Empty => None,
    }
}

/// The blockers of the first `n` of `assets`, in their order.
pub open spec fn blockers(
    s: StoreView,
    parent: Option<Id>,
    assets: Seq<NestedAssets>,
    caller: Principal,
    n: nat,
) -> Seq<AssetView>
    decreases n,
{
    if n == 0 || n > assets.len() {
        Seq::empty()
    } else {
        let prev = blockers(s, parent, assets, caller, (n - 1) as nat);
        match blocker(s, parent, assets[n - 1].asset, caller) {
            Some(a) => prev.push(a),
            None => prev,
        }
    }
}

/// `s` without the asset that stands in the way of `wanted`, where there
/// is one and `caller` may remove it.
pub open spec fn cleared_of(s: StoreView, parent: Option<Id>, wanted: PostAsset, caller: Principal) -> StoreView {
    match wanted {
        PostAsset::File(pf) => match first_file_named(s.files, parent, pf.name@, s.files.len()) {
            Some(i) => if s.file_verdict(s.files[i].id, caller).is_none() {
                s.without_file(s.files[i].id)
            } else {
                s
            },
            None => s,
        },
        PostAsset::Directory(pd) => match first_directory_named(
            s.directories,
            parent,
            pd.name@,
            s.directories.len(),
        ) {
            Some(i) => if s.directory_verdict(s.directories[i].id, caller).is_none() {
                s.without_directory(s.directories[i].id, caller)
            } else {
                s
            },
            None => s,
        },
        PostAsset::Empty => s,
    }
}

/// `s` cleared for the first `n` of `assets`, one after the other.
pub open spec fn cleared(
    s: StoreView,
    parent: Option<Id>,
    assets: Seq<NestedAssets>,
    caller: Principal,
    n: nat,
) -> StoreView
    decreases n,
{
    if n == 0 || n > assets.len() {
        s
    } else {
        cleared_of(cleared(s, parent, assets, caller, (n - 1) as nat), parent, assets[n - 1].asset, caller)
    }
}

impl Store {
    /// Where the first file stands that lies under `parent` and has the name.
    pub fn file_named_index(&self, parent: Option<Id>, name: &String) -> (r: Option<usize>)
        ensures
            match r {
                Some(i) => first_file_named(self@.files, parent, name@, self@.files.len())
                    == Some(i as int) && i < self@.files.len(),
                None => first_file_named(self@.files, parent, name@, self@.files.len()).is_none(),
            },
    {
        let mut i: usize = 0;
        while i < self.files.len()
            invariant
                i <= self@.files.len(),
                first_file_named(self@.files, parent, name@, i as nat).is_none(),
            decreases self@.files.len() - i,
        {
            if same_id(&self.files[i].parent_id, &parent) && self.files[i].name == *name {
                proof {
                    lemma_first_file_named_stays(
                        self@.files,
                        parent,
                        name@,
                        (i + 1) as nat,
                        self@.files.len(),
                    );
                }
                return Some(i);
            }
            i += 1;
        }
        None
    }

    /// Where the first directory stands that lies under `parent` and has the name.
    pub fn directory_named_index(&self, parent: Option<Id>, name: &String) -> (r: Option<usize>)
        ensures
            match r {
                Some(i) => first_directory_named(
                    self@.directories,
                    parent,
                    name@,
                    self@.directories.len(),
                ) == Some(i as int) && i < self@.directories.len(),
                None => first_directory_named(
                    self@.directories,
                    parent,
                    name@,
                    self@.directories.len(),
                ).is_none(),
            },
    {
        let mut i: usize = 0;
        while i < self.directories.len()
            invariant
                i <= self@.directories.len(),
                first_directory_named(self@.directories, parent, name@, i as nat).is_none(),
            decreases self@.directories.len() - i,
        {
            if same_id(&self.directories[i].parent_id, &parent) && self.directories[i].name
                == *name {
                proof {
                    lemma_first_directory_named_stays(
                        self@.directories,
                        parent,
                        name@,
                        (i + 1) as nat,
                        self@.directories.len(),
                    );
                }
                return Some(i);
            }
            i += 1;
        }
        None
    }

    /// The asset that stands in the way of `wanted` and that `caller` may
    /// not remove, if there is one.
    pub fn find_blocker(&self, parent: Option<Id>, wanted: &PostAsset, caller: &Principal) -> (r: Option<
        Asset,
    >)
        requires
            self@.ids_ordered(),
        ensures
            match r {
                Some(a) => blocker(self@, parent, *wanted, *caller) == Some(a@),
                None => blocker(self@, parent, *wanted, *caller).is_none(),
            },
    {
        match wanted {
            PostAsset::File(pf) => match self.file_named_index(parent, &pf.name) {
                Some(i) => {
                    if crate::store::check_guard(
                        self.files[i].is_protected,
                        &self.files[i].owner,
                        caller,
                    ).is_some() {
                        Some(Asset::File(self.map_file_entity_to_file_response(&self.files[i])))
                    } else {
                        None
                    }
                },
                None => None,
            },
            PostAsset::Directory(pd) => match self.directory_named_index(parent, &pd.name) {
                Some(i) => {
                    if crate::store::check_guard(
                        self.directories[i].is_protected,
                        &self.directories[i].owner,
                        caller,
                    ).is_some() {
                        Some(
                            Asset::Directory(
                                self.map_directory_entity_to_directory_response(
                                    &self.directories[i],
                                ),
                            ),
                        )
                    } else {
                        None
                    }
                },
                None => None,
            },
            PostAsset::Empty => None,
        }
    }

    /// Removes the asset that stands in the way of `wanted`, where there is
    /// one and `caller` may remove it.
    pub fn clear_for(&mut self, parent: Option<Id>, wanted: &PostAsset, caller: &Principal)
        requires
            old(self)@.wf(),
        ensures
            final(self)@.wf(),
            final(self)@ == cleared_of(old(self)@, parent, *wanted, *caller),
            final(self)@.file_id == old(self)@.file_id,
            final(self)@.directory_id == old(self)@.directory_id,
            final(self)@.chunk_id == old(self)@.chunk_id,
    {
        proof {
            lemma_positions(self@);
        }
        match wanted {
            PostAsset::File(pf) => match self.file_named_index(parent, &pf.name) {
                Some(i) => {
                    let id = self.files[i].id;
                    let _ = self.delete_file(id, caller);
                },
                None => {},
            },
            PostAsset::Directory(pd) => match self.directory_named_index(parent, &pd.name) {
                Some(i) => {
                    let id = self.directories[i].id;
                    let _ = self.delete_directory(id, caller);
                },
                None => {},
            },
            PostAsset::Empty => {},
        }
    }

    /// Makes the file that `pf` asks for under `parent`, owned by `caller`,
    /// with `pf.chunk_count` empty chunks reserved for it.
    pub fn insert_file(&mut self, parent: Option<Id>, pf: &PostFile, caller: &Principal, now: u64) -> (r:
        FileResponse)
        requires
            old(self)@.wf(),
            old(self)@.file_id < u64::MAX,
            old(self)@.chunk_id + pf.chunk_count <= u64::MAX,
        ensures
            final(self)@.wf(),
            final(self)@ == with_new_file(old(self)@, parent, *pf, *caller, now),
            r@ == file_response(
                old(self)@.directories,
                new_file(old(self)@, parent, *pf, *caller, now),
            ),
    {
        let ghost before = self@;
        let mut manifest: Vec<Id> = Vec::new();
        let mut c: u64 = 0;
        assert(self@.chunks =~= before.chunks + fresh_chunks(before.chunk_id, 0));
        assert(manifest@ =~= fresh_ids(before.chunk_id, 0));
        while c < pf.chunk_count
            invariant
                c <= pf.chunk_count,
                before.chunk_id + pf.chunk_count <= u64::MAX,
                self.chunk_id == before.chunk_id + c,
                self@.chunks == before.chunks + fresh_chunks(before.chunk_id, c as nat),
                manifest@ == fresh_ids(before.chunk_id, c as nat),
                self@.files == before.files,
                self@.directories == before.directories,
                self@.whitelist == before.whitelist,
                self@.version == before.version,
                self.file_id == before.file_id,
                self.directory_id == before.directory_id,
            decreases pf.chunk_count - c,
        {
            let id = self.chunk_id;
            let ghost prev = self@.chunks;
            let chunk = Chunk { id, bytes: Vec::new() };
            assert(chunk@ == ChunkView { id: id, bytes: Seq::empty() });
            self.chunks.push(chunk);
            assert(self@.chunks =~= prev.push(chunk@));
            manifest.push(id);
            self.chunk_id = self.chunk_id + 1;
            c = c + 1;
            assert(fresh_chunks(before.chunk_id, c as nat)[c - 1] == chunk@);
            assert(self@.chunks =~= before.chunks + fresh_chunks(before.chunk_id, c as nat));
            assert(manifest@ =~= fresh_ids(before.chunk_id, c as nat));
        }
        let hash: [u8; 32] = [0u8; 32];
        assert(hash@ =~= Seq::new(32, |i: int| 0u8));
        let file = FileEntity {
            id: self.file_id,
            name: pf.name.clone(),
            size: pf.size,
            mime_type: pf.mime_type.clone(),
            extension: pf.extension.clone(),
            permission: pf.permission.clone(),
            parent_id: parent,
            chunks: manifest,
            metadata: clone_opt_string(&pf.metadata),
            is_protected: false,
            owner: Some(*caller),
            created_at: now,
            updated_at: now,
            hash,
        };
        assert(file@ == new_file(before, parent, *pf, *caller, now));
        proof {
            lemma_reserved_new_file(
                before.files,
                before.chunks,
                file@,
                before.chunk_id,
                pf.chunk_count as nat,
            );
        }
        let response = self.map_file_entity_to_file_response(&file);
        let ghost mid = self@;
        self.files.push(file);
        self.file_id = self.file_id + 1;
        assert(self@.files =~= before.files.push(file@));
        assert(self@.chunks == mid.chunks);
        assert(self@.directories == before.directories);
        response
    }

    /// Makes `assets` under `parent`, depth first, and returns each file
    /// made with the label that the client gave it.
    pub fn insert_assets(
        &mut self,
        parent: Option<Id>,
        assets: &Vec<NestedAssets>,
        caller: &Principal,
        now: u64,
    ) -> (r: Vec<(FileResponse, String)>)
        requires
            old(self)@.wf(),
            has_room(old(self)@, demand(assets@, assets@.len())),
            match parent {
                Some(p) => p < old(self)@.directory_id,
                None => true,
            },
        ensures
            final(self)@.wf(),
            final(self)@ == inserted(old(self)@, parent, assets@, *caller, now, assets@.len()).store,
            made_view(r@) == inserted(old(self)@, parent, assets@, *caller, now, assets@.len()).made,
            final(self)@.file_id == old(self)@.file_id + demand(assets@, assets@.len()).files,
            final(self)@.directory_id == old(self)@.directory_id + demand(
                assets@,
                assets@.len(),
            ).directories,
            final(self)@.chunk_id == old(self)@.chunk_id + demand(assets@, assets@.len()).chunks,
        decreases assets@,
    {
        let ghost before = self@;
        let mut out: Vec<(FileResponse, String)> = Vec::new();
        let mut i: usize = 0;
        assert(made_view(out@) =~= Seq::empty());
        while i < assets.len()
            invariant
                i <= assets@.len(),
                before.wf(),
                has_room(before, demand(assets@, assets@.len())),
                match parent {
                    Some(p) => p < before.directory_id,
                    None => true,
                },
                self@.wf(),
                self@ == inserted(before, parent, assets@, *caller, now, i as nat).store,
                made_view(out@) == inserted(before, parent, assets@, *caller, now, i as nat).made,
                self@.file_id == before.file_id + demand(assets@, i as nat).files,
                self@.directory_id == before.directory_id + demand(assets@, i as nat).directories,
                self@.chunk_id == before.chunk_id + demand(assets@, i as nat).chunks,
            decreases assets@.len() - i,
        {
            proof {
                lemma_demand_grows(assets@, (i + 1) as nat, assets@.len());
            }
            match &assets[i].asset {
                PostAsset::File(pf) => {
                    let response = self.insert_file(parent, pf, caller, now);
                    let ghost prev = out@;
                    out.push((response, pf.origin_path.clone()));
                    assert(made_view(out@) =~= made_view(prev).push((response@, pf.origin_path@)));
                },
                PostAsset::Directory(pd) => {
                    let id = self.directory_id;
                    let directory = DirectoryEntity {
                        id,
                        name: pd.name.clone(),
                        parent_id: parent,
                        permission: pd.permission.clone(),
                        is_protected: false,
                        owner: Some(*caller),
                        created_at: now,
                        updated_at: now,
                    };
                    self.push_directory(directory);
                    let mut sub = self.insert_assets(Some(id), &assets[i].children, caller, now);
                    let ghost prev = out@;
                    let ghost tail = sub@;
                    out.append(&mut sub);
                    assert(made_view(out@) =~= made_view(prev) + made_view(tail));
                },
                PostAsset::Empty => {},
            }
            i += 1;
        }
        out
    }

    /// Inserts the tree `assets` under `parent_id`, or at the root, for
    /// `caller`. Nothing is made or removed where the parent refuses the
    /// caller, or where an asset that stands in the way cannot be removed;
    /// else what stands in the way is removed, and the tree is made.
    pub fn add_assets(
        &mut self,
        parent_id: Option<Id>,
        assets: Vec<NestedAssets>,
        caller: &Principal,
        now: u64,
    ) -> (r: Result<Vec<(FileResponse, String)>, (Vec<Asset>, AssetError)>)
        requires
            old(self)@.wf(),
            has_room(old(self)@, demand(assets@, assets@.len())),
        ensures
            final(self)@.wf(),
            match placement_verdict(old(self)@.directories, parent_id, *caller) {
                Some(e) => {
                    &&& final(self)@ == old(self)@
                    &&& r.is_err()
                    &&& r.unwrap_err().0@.len() == 0
                    &&& r.unwrap_err().1 == e
                },
                None => if blockers(old(self)@, parent_id, assets@, *caller, assets@.len()).len()
                    > 0 {
                    &&& final(self)@ == old(self)@
                    &&& r.is_err()
                    &&& assets_view(r.unwrap_err().0@) == blockers(
                        old(self)@,
                        parent_id,
                        assets@,
                        *caller,
                        assets@.len(),
                    )
                    &&& r.unwrap_err().1 == AssetError::Blocked
                } else {
                    let made = inserted(
                        cleared(old(self)@, parent_id, assets@, *caller, assets@.len()),
                        parent_id,
                        assets@,
                        *caller,
                        now,
                        assets@.len(),
                    );
                    &&& final(self)@ == made.store
                    &&& r.is_ok()
                    &&& made_view(r.unwrap()@) == made.made
                },
            },
    {
        let ghost before = self@;
        match self.check_placement(parent_id, caller) {
            Some(e) => {
                return Err((Vec::new(), e));
            },
            None => {},
        }
        proof {
            lemma_positions(before);
        }
        let mut blocking: Vec<Asset> = Vec::new();
        let mut i: usize = 0;
        assert(assets_view(blocking@) =~= Seq::empty());
        while i < assets.len()
            invariant
                i <= assets@.len(),
                self@ == before,
                before.wf(),
                assets_view(blocking@) == blockers(before, parent_id, assets@, *caller, i as nat),
            decreases assets@.len() - i,
        {
            match self.find_blocker(parent_id, &assets[i].asset, caller) {
                Some(a) => {
                    proof {
                        lemma_assets_view_push(blocking@, a);
                    }
                    blocking.push(a);
                },
                None => {},
            }
            i += 1;
        }
        if blocking.len() > 0 {
            return Err((blocking, AssetError::Blocked));
        }
        let mut j: usize = 0;
        while j < assets.len()
            invariant
                j <= assets@.len(),
                before.wf(),
                self@.wf(),
                self@ == cleared(before, parent_id, assets@, *caller, j as nat),
                self@.file_id == before.file_id,
                self@.directory_id == before.directory_id,
                self@.chunk_id == before.chunk_id,
            decreases assets@.len() - j,
        {
            self.clear_for(parent_id, &assets[j].asset, caller);
            j += 1;
        }
        Ok(self.insert_assets(parent_id, &assets, caller, now))
    }
}

} // verus!
