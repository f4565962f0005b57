//! Directories: making, finding, renaming, moving and deleting them.

use vstd::prelude::*;
use crate::files::{in_ids, parent_verdict, same_id};
use crate::forest::{
    dirs_increasing, lemma_forest_after_move, lemma_forest_grows, lemma_part_of_forest,
    lies_under, meets,
};
use crate::models::{
    DirectoryEntity, DirectoryResponse, DirectoryView, FileView, Id, Permission, Principal,
};
use crate::manifests::{files_increasing, lemma_reserved_part};
use crate::seqs::{kept, lemma_kept_increasing};
use crate::store::{
    check_guard, dir_pos, guard, has_dir, lemma_positions, AssetError, Store, StoreView,
};
use crate::text::{escape_spaces, escaped, is_valid_name, valid_name};
use crate::tree::directory_response;

verus! {

/// Whether a directory lies under `parent` and answers to the path segment `section`.
pub open spec fn directory_answers(d: DirectoryView, parent: Option<Id>, section: Seq<char>) -> bool {
    d.parent_id == parent && escaped(d.name) == section
}

/// The first among the first `n` directories that answers, by position.
pub open spec fn first_directory(
    dirs: Seq<DirectoryView>,
    parent: Option<Id>,
    section: Seq<char>,
    n: nat,
) -> Option<int>
    decreases n,
{
    if n == 0 || n > dirs.len() {
        None
    } else {
        match first_directory(dirs, parent, section, (n - 1) as nat) {
            Some(i) => Some(i),
            None => if directory_answers(dirs[n - 1], parent, section) {
                Some(n - 1)
            } else {
                None
            },
        }
    }
}

/// A first answering directory found among the first `n` is the first among more.
pub proof fn lemma_first_directory_stays(
    dirs: Seq<DirectoryView>,
    parent: Option<Id>,
    section: Seq<char>,
    n: nat,
    m: nat,
)
    requires
        n <= m <= dirs.len(),
        first_directory(dirs, parent, section, n).is_some(),
    ensures
        first_directory(dirs, parent, section, m) == first_directory(dirs, parent, section, n),
    decreases m,
{
    if m > n {
        lemma_first_directory_stays(dirs, parent, section, n, (m - 1) as nat);
    }
}

/// Why `caller` may not make something under `parent`, if they may not: a
/// parent that is named must exist and pass the guard.
pub open spec fn placement_verdict(dirs: Seq<DirectoryView>, parent: Option<Id>, caller: Principal) -> Option<
    AssetError,
> {
    match parent {
        None => None,
        Some(p) => if !has_dir(dirs, p) {
            Some(AssetError::ParentNotFound)
        } else {
            guard(dirs[dir_pos(dirs, p)].is_protected, dirs[dir_pos(dirs, p)].owner, caller)
        },
    }
}

/// Whether deleting `root` takes directory `id` with it: `id` is `root`, or
/// it passes the guard and its parent is taken. `fuel` bounds the walk.
pub open spec fn doomed(dirs: Seq<DirectoryView>, root: Id, caller: Principal, id: Id, fuel: nat) -> bool
    decreases fuel,
{
    id == root || (fuel > 0 && has_dir(dirs, id) && {
        let d = dirs[dir_pos(dirs, id)];
        guard(d.is_protected, d.owner, caller).is_none() && match d.parent_id {
            Some(p) => doomed(dirs, root, caller, p, (fuel - 1) as nat),
            None => false,
        }
    })
}

/// The directories that deleting `root` takes.
pub open spec fn doomed_directories(dirs: Seq<DirectoryView>, root: Id, caller: Principal) -> spec_fn(
    DirectoryView,
) -> bool {
    |d: DirectoryView| doomed(dirs, root, caller, d.id, dirs.len())
}

/// Whether deleting `root` takes file `f`: it passes the guard and lies
/// directly under a directory that is taken.
pub open spec fn doomed_file(dirs: Seq<DirectoryView>, root: Id, caller: Principal, f: FileView) -> bool {
    guard(f.is_protected, f.owner, caller).is_none() && match f.parent_id {
        Some(p) => doomed(dirs, root, caller, p, dirs.len()),
        None => false,
    }
}

/// The files that deleting `root` takes.
pub open spec fn doomed_files(dirs: Seq<DirectoryView>, root: Id, caller: Principal) -> spec_fn(
    FileView,
) -> bool {
    |f: FileView| doomed_file(dirs, root, caller, f)
}

/// The chunk ids in the manifests of those of the first `n` files that
/// deleting `root` takes.
pub open spec fn doomed_chunk_ids(
    dirs: Seq<DirectoryView>,
    files: Seq<FileView>,
    root: Id,
    caller: Principal,
    n: nat,
) -> Seq<Id>
    decreases n,
{
    if n == 0 || n > files.len() {
        Seq::empty()
    } else if doomed_file(dirs, root, caller, files[n - 1]) {
        doomed_chunk_ids(dirs, files, root, caller, (n - 1) as nat) + files[n - 1].chunks
    } else {
        doomed_chunk_ids(dirs, files, root, caller, (n - 1) as nat)
    }
}

/// A chunk id is released by the deletion of `root` exactly where it
/// stands in the manifest of a file that the deletion takes.
pub proof fn lemma_released_ids(
    dirs: Seq<DirectoryView>,
    files: Seq<FileView>,
    root: Id,
    caller: Principal,
    n: nat,
    id: Id,
)
    requires
        n <= files.len(),
    ensures
        doomed_chunk_ids(dirs, files, root, caller, n).contains(id) <==> exists|i: int|
            0 <= i < n && doomed_file(dirs, root, caller, #[trigger] files[i])
                && files[i].chunks.contains(id),
    decreases n,
{
    if n > 0 {
        lemma_released_ids(dirs, files, root, caller, (n - 1) as nat, id);
        let prev = doomed_chunk_ids(dirs, files, root, caller, (n - 1) as nat);
        let cur = doomed_chunk_ids(dirs, files, root, caller, n);
        let f = files[n - 1];
        if doomed_file(dirs, root, caller, f) {
            assert(cur == prev + f.chunks);
            if cur.contains(id) {
                let k = choose|k: int| 0 <= k < cur.len() && cur[k] == id;
                if k < prev.len() {
                    assert(prev[k] == id);
                } else {
                    assert(f.chunks[k - prev.len()] == id);
                }
            }
            if prev.contains(id) {
                let k = choose|k: int| 0 <= k < prev.len() && prev[k] == id;
                assert(cur[k] == id);
            }
            if f.chunks.contains(id) {
                let k = choose|k: int| 0 <= k < f.chunks.len() && f.chunks[k] == id;
                assert(cur[prev.len() + k] == id);
            }
        }
    }
}

/// The id of a directory.
pub open spec fn directory_key() -> spec_fn(DirectoryView) -> Id {
    |d: DirectoryView| d.id
}

/// The id of a file.
pub open spec fn file_key() -> spec_fn(FileView) -> Id {
    |f: FileView| f.id
}

impl StoreView {
    /// What stands in the way of `caller` changing directory `id`.
    pub open spec fn directory_verdict(self, id: Id, caller: Principal) -> Option<AssetError> {
        if !self.has_directory(id) {
            Some(AssetError::NotFound)
        } else {
            guard(self.directory(id).is_protected, self.directory(id).owner, caller)
        }
    }

    /// The store with directory `id` replaced by `d`.
    pub open spec fn with_directory(self, id: Id, d: DirectoryView) -> StoreView {
        StoreView { directories: self.directories.update(self.directory_pos(id), d), ..self }
    }

    /// Whether a directory lies directly under `id` and has the name.
    pub open spec fn directory_named_under(self, id: Id, name: Seq<char>) -> bool {
        exists|i: int|
            0 <= i < self.directories.len() && (#[trigger] self.directories[i]).parent_id == Some(
                id,
            ) && self.directories[i].name == name
    }

    /// Why directory `id` cannot take the name, if it cannot.
    pub open spec fn rename_directory_verdict(self, id: Id, name: Seq<char>, caller: Principal) -> Option<
        AssetError,
    > {
        if !valid_name(name) {
            Some(AssetError::InvalidName)
        } else if self.directory_named_under(id, name) {
            Some(AssetError::DuplicateName)
        } else {
            self.directory_verdict(id, caller)
        }
    }

    /// Why directory `id` cannot move under `parent`, if it cannot: the
    /// guard on the directory, then the parent's existence and owner, then
    /// that the parent is neither the directory nor below it.
    pub open spec fn move_directory_verdict(self, id: Id, parent: Option<Id>, caller: Principal) -> Option<
        AssetError,
    > {
        if self.directory_verdict(id, caller).is_some() {
            self.directory_verdict(id, caller)
        } else if parent_verdict(self.directories, parent, caller).is_some() {
            parent_verdict(self.directories, parent, caller)
        } else if parent.is_some() && lies_under(self.directories, parent.unwrap(), id) {
            Some(AssetError::CyclicParent)
        } else {
            None
        }
    }

    /// Why `caller` cannot make a directory of that name under `parent`.
    pub open spec fn create_directory_verdict(self, name: Seq<char>, parent: Option<Id>, caller: Principal) -> Option<
        AssetError,
    > {
        if !valid_name(name) {
            Some(AssetError::InvalidName)
        } else {
            placement_verdict(self.directories, parent, caller)
        }
    }

    /// The store after deleting directory `root` for `caller`: without the
    /// directories and files that the deletion takes, and without the chunks
    /// of those files.
    pub open spec fn without_directory(self, root: Id, caller: Principal) -> StoreView {
        StoreView {
            directories: kept(
                self.directories,
                doomed_directories(self.directories, root, caller),
                self.directories.len(),
            ),
            files: kept(
                self.files,
                doomed_files(self.directories, root, caller),
                self.files.len(),
            ),
            chunks: kept(
                self.chunks,
                in_ids(
                    doomed_chunk_ids(self.directories, self.files, root, caller, self.files.len()),
                ),
                self.chunks.len(),
            ),
            ..self
        }
    }
}

impl Store {
    /// Finds directory `directory_id` and holds it to the guard: its
    /// position, or why `caller` may not change it.
    pub fn check_directory_state(&self, directory_id: Id, caller: &Principal) -> (r: Result<
        usize,
        AssetError,
    >)
        requires
            self@.ids_ordered(),
        ensures
            match r {
                Ok(i) => self@.directory_verdict(directory_id, *caller).is_none() && i
                    == self@.directory_pos(directory_id) && i < self@.directories.len(),
                Err(e) => self@.directory_verdict(directory_id, *caller) == Some(e),
            },
    {
        proof {
            lemma_positions(self@);
        }
        match self.directory_index(directory_id) {
            None => Err(AssetError::NotFound),
            Some(i) => {
                match check_guard(
                    self.directories[i].is_protected,
                    &self.directories[i].owner,
                    caller,
                ) {
                    Some(e) => Err(e),
                    None => Ok(i),
                }
            },
        }
    }

    /// Why `caller` may not make something under `parent_id`, if they may not.
    pub fn check_placement(&self, parent_id: Option<Id>, caller: &Principal) -> (r: Option<AssetError>)
        requires
            self@.ids_ordered(),
        ensures
            r == placement_verdict(self@.directories, parent_id, *caller),
    {
        proof {
            lemma_positions(self@);
        }
        match parent_id {
            None => None,
            Some(p) => match self.directory_index(p) {
                None => Some(AssetError::ParentNotFound),
                Some(i) => check_guard(
                    self.directories[i].is_protected,
                    &self.directories[i].owner,
                    caller,
                ),
            },
        }
    }

    /// The first directory, by id, that lies under `parent_id` and whose
    /// escaped name is `child_name`.
    pub fn find_directory(&self, parent_id: Option<Id>, child_name: &String) -> (r: Option<
        DirectoryEntity,
    >)
        ensures
            match first_directory(
                self@.directories,
                parent_id,
                child_name@,
                self@.directories.len(),
            ) {
                Some(i) => r.is_some() && r.unwrap()@ == self@.directories[i] && 0 <= i
                    < self@.directories.len(),
                None => r.is_none(),
            },
    {
        let mut i: usize = 0;
        while i < self.directories.len()
            invariant
                i <= self.directories@.len(),
                first_directory(self@.directories, parent_id, child_name@, i as nat).is_none(),
            decreases self.directories@.len() - i,
        {
            if same_id(&self.directories[i].parent_id, &parent_id) {
                let esc = escape_spaces(&self.directories[i].name);
                if esc == *child_name {
                    proof {
                        lemma_first_directory_stays(
                            self@.directories,
                            parent_id,
                            child_name@,
                            (i + 1) as nat,
                            self@.directories.len(),
                        );
                    }
                    return Some(self.directories[i].clone());
                }
            }
            i += 1;
        }
        None
    }

    /// Makes a directory named `name` under `parent_id`, or at the root,
    /// owned by `caller` and not protected.
    pub fn create_directory(
        &mut self,
        name: String,
        permission: Permission,
        parent_id: Option<Id>,
        caller: &Principal,
        now: u64,
    ) -> (r: Result<DirectoryEntity, AssetError>)
        requires
            old(self)@.wf(),
            old(self)@.directory_id < u64::MAX,
        ensures
            final(self)@.wf(),
            match old(self)@.create_directory_verdict(name@, parent_id, *caller) {
                Some(e) => r == Err::<DirectoryEntity, AssetError>(e) && final(self)@ == old(
                    self,
                )@,
                None => {
                    let d = DirectoryView {
                        id: old(self)@.directory_id,
                        name: name@,
                        parent_id: parent_id,
                        permission: permission@,
                        is_protected: false,
                        owner: Some(*caller),
                        created_at: now,
                        updated_at: now,
                    };
                    &&& r.is_ok()
                    &&& r.unwrap()@ == d
                    &&& final(self)@ == (StoreView {
                        directories: old(self)@.directories.push(d),
                        directory_id: (old(self)@.directory_id + 1) as u64,
                        ..old(self)@
                    })
                },
            },
    {
        if !is_valid_name(&name) {
            return Err(AssetError::InvalidName);
        }
        match self.check_placement(parent_id, caller) {
            Some(e) => Err(e),
            None => {
                let directory = DirectoryEntity {
                    id: self.directory_id,
                    name,
                    parent_id,
                    permission,
                    is_protected: false,
                    owner: Some(*caller),
                    created_at: now,
                    updated_at: now,
                };
                let copy = directory.clone();
                self.push_directory(directory);
                Ok(copy)
            },
        }
    }

    /// Appends a directory with the next id, whose parent exists or is none.
    pub fn push_directory(&mut self, directory: DirectoryEntity)
        requires
            old(self)@.wf(),
            old(self)@.directory_id < u64::MAX,
            directory.id == old(self)@.directory_id,
            match directory.parent_id {
                Some(p) => p < directory.id,
                None => true,
            },
        ensures
            final(self)@.wf(),
            final(self)@ == (StoreView {
                directories: old(self)@.directories.push(directory@),
                directory_id: (old(self)@.directory_id + 1) as u64,
                ..old(self)@
            }),
    {
        let ghost before = self@;
        proof {
            lemma_forest_grows(before.directories, directory@);
        }
        self.directories.push(directory);
        self.directory_id = self.directory_id + 1;
        assert(self@.directories =~= before.directories.push(directory@));
        assert(self@.files == before.files);
        assert(self@.chunks == before.chunks);
    }

    /// Whether a directory lies directly under `id` and has the name.
    pub fn has_directory_named_under(&self, id: Id, name: &String) -> (r: bool)
        ensures
            r == self@.directory_named_under(id, name@),
    {
        let mut i: usize = 0;
        let want = Some(id);
        while i < self.directories.len()
            invariant
                i <= self.directories@.len(),
                want == Some(id),
                forall|j: int|
                    0 <= j < i ==> !((#[trigger] self@.directories[j]).parent_id == Some(id)
                        && self@.directories[j].name == name@),
            decreases self.directories@.len() - i,
        {
            if same_id(&self.directories[i].parent_id, &want) && self.directories[i].name == *name {
                assert(self@.directories[i as int].parent_id == Some(id)
                    && self@.directories[i as int].name == name@);
                return true;
            }
            i += 1;
        }
        false
    }

    /// Replaces the directory at position `i` by `d`, which has the same id
    /// and a parent that keeps the directories a forest.
    pub fn put_directory(&mut self, i: usize, d: DirectoryEntity)
        requires
            old(self)@.wf(),
            i < old(self)@.directories.len(),
            old(self)@.directories[i as int].id == d.id,
            d.parent_id == old(self)@.directories[i as int].parent_id || match d.parent_id {
                Some(p) => p < old(self)@.directory_id && !lies_under(
                    old(self)@.directories,
                    p,
                    d.id,
                ),
                None => true,
            },
        ensures
            final(self)@.wf(),
            final(self)@ == old(self)@.with_directory(d.id, d@),
    {
        let ghost before = self@;
        proof {
            lemma_positions(before);
            lemma_forest_after_move(before.directories, i as int, d@);
        }
        self.directories.set(i, d);
        assert(self@.directories =~= before.directories.update(i as int, d@));
        assert(self@.files == before.files);
        assert(self@.chunks == before.chunks);
    }

    /// Gives directory `directory_id` the name `name`.
    pub fn change_directory_name(&mut self, directory_id: Id, name: String, caller: &Principal, now: u64) -> (r:
        Result<DirectoryResponse, AssetError>)
        requires
            old(self)@.wf(),
        ensures
            final(self)@.wf(),
            match old(self)@.rename_directory_verdict(directory_id, name@, *caller) {
                Some(e) => r == Err::<DirectoryResponse, AssetError>(e) && final(self)@ == old(
                    self,
                )@,
                None => {
                    let d = DirectoryView {
                        name: name@,
                        updated_at: now,
                        ..old(self)@.directory(directory_id)
                    };
                    &&& final(self)@ == old(self)@.with_directory(directory_id, d)
                    &&& r.is_ok()
                    &&& r.unwrap()@ == directory_response(
                        final(self)@.directories,
                        final(self)@.files,
                        d,
                        final(self)@.directories.len(),
                    )
                },
            },
    {
        if !is_valid_name(&name) {
            return Err(AssetError::InvalidName);
        }
        if self.has_directory_named_under(directory_id, &name) {
            return Err(AssetError::DuplicateName);
        }
        match self.check_directory_state(directory_id, caller) {
            Err(e) => Err(e),
            Ok(i) => {
                let mut d = self.directories[i].clone();
                d.name = name;
                d.updated_at = now;
                let copy = d.clone();
                self.put_directory(i, d);
                Ok(self.map_directory_entity_to_directory_response(&copy))
            },
        }
    }

    /// Gives directory `directory_id` the permission `permission`.
    pub fn change_directory_permission(
        &mut self,
        directory_id: Id,
        permission: Permission,
        caller: &Principal,
        now: u64,
    ) -> (r: Result<DirectoryResponse, AssetError>)
        requires
            old(self)@.wf(),
        ensures
            final(self)@.wf(),
            match old(self)@.directory_verdict(directory_id, *caller) {
                Some(e) => r == Err::<DirectoryResponse, AssetError>(e) && final(self)@ == old(
                    self,
                )@,
                None => {
                    let d = DirectoryView {
                        permission: permission@,
                        updated_at: now,
                        ..old(self)@.directory(directory_id)
                    };
                    &&& final(self)@ == old(self)@.with_directory(directory_id, d)
                    &&& r.is_ok()
                    &&& r.unwrap()@ == directory_response(
                        final(self)@.directories,
                        final(self)@.files,
                        d,
                        final(self)@.directories.len(),
                    )
                },
            },
    {
        match self.check_directory_state(directory_id, caller) {
            Err(e) => Err(e),
            Ok(i) => {
                let mut d = self.directories[i].clone();
                d.permission = permission;
                d.updated_at = now;
                let copy = d.clone();
                self.put_directory(i, d);
                Ok(self.map_directory_entity_to_directory_response(&copy))
            },
        }
    }

    /// Makes `owner` the owner of directory `directory_id`.
    pub fn change_directory_owner(
        &mut self,
        directory_id: Id,
        owner: Principal,
        caller: &Principal,
        now: u64,
    ) -> (r: Result<(), AssetError>)
        requires
            old(self)@.wf(),
        ensures
            final(self)@.wf(),
            match old(self)@.directory_verdict(directory_id, *caller) {
                Some(e) => r == Err::<(), AssetError>(e) && final(self)@ == old(self)@,
                None => {
                    let d = DirectoryView {
                        owner: Some(owner),
                        updated_at: now,
                        ..old(self)@.directory(directory_id)
                    };
                    final(self)@ == old(self)@.with_directory(directory_id, d) && r.is_ok()
                },
            },
    {
        match self.check_directory_state(directory_id, caller) {
            Err(e) => Err(e),
            Ok(i) => {
                let mut d = self.directories[i].clone();
                d.owner = Some(owner);
                d.updated_at = now;
                self.put_directory(i, d);
                Ok(())
            },
        }
    }

    /// Whether directory `start` is `target` or lies below it.
    pub fn is_under(&self, start: Id, target: Id) -> (r: bool)
        requires
            self@.wf(),
        ensures
            r == lies_under(self@.directories, start, target),
    {
        let ghost dirs = self@.directories;
        let mut cur = start;
        let ghost mut fuel: nat = 0;
        proof {
            lemma_positions(self@);
            if has_dir(dirs, start) {
                let i = dir_pos(dirs, start);
                fuel = choose|k: nat| crate::store::ends_within(dirs, dirs[i].id, k);
            }
        }
        loop
            invariant
                dirs == self@.directories,
                self@.wf(),
                crate::store::ends_within(dirs, cur, fuel),
                lies_under(dirs, start, target) == lies_under(dirs, cur, target),
            decreases fuel,
        {
            if cur == target {
                assert(meets(dirs, cur, target, 0));
                return true;
            }
            proof {
                lemma_positions(self@);
            }
            match self.directory_index(cur) {
                None => {
                    assert forall|k: nat| !meets(dirs, cur, target, k) by {}
                    return false;
                },
                Some(i) => match self.directories[i].parent_id {
                    None => {
                        assert forall|k: nat| !meets(dirs, cur, target, k) by {}
                        return false;
                    },
                    Some(p) => {
                        proof {
                            if lies_under(dirs, cur, target) {
                                let k = choose|k: nat| meets(dirs, cur, target, k);
                                assert(meets(dirs, p, target, (k - 1) as nat));
                            }
                            if lies_under(dirs, p, target) {
                                let k = choose|k: nat| meets(dirs, p, target, k);
                                assert(meets(dirs, cur, target, k + 1));
                            }
                            fuel = (fuel - 1) as nat;
                        }
                        cur = p;
                    },
                },
            }
        }
    }

    /// Moves directory `directory_id` under `parent_id`, or to the root.
    pub fn change_directory_parent(
        &mut self,
        directory_id: Id,
        parent_id: Option<Id>,
        caller: &Principal,
        now: u64,
    ) -> (r: Result<DirectoryResponse, AssetError>)
        requires
            old(self)@.wf(),
        ensures
            final(self)@.wf(),
            match old(self)@.move_directory_verdict(directory_id, parent_id, *caller) {
                Some(e) => r == Err::<DirectoryResponse, AssetError>(e) && final(self)@ == old(
                    self,
                )@,
                None => {
                    let d = DirectoryView {
                        parent_id: parent_id,
                        updated_at: now,
                        ..old(self)@.directory(directory_id)
                    };
                    &&& final(self)@ == old(self)@.with_directory(directory_id, d)
                    &&& r.is_ok()
                    &&& r.unwrap()@ == directory_response(
                        final(self)@.directories,
                        final(self)@.files,
                        d,
                        final(self)@.directories.len(),
                    )
                },
            },
    {
        match self.check_directory_state(directory_id, caller) {
            Err(e) => Err(e),
            Ok(i) => {
                match self.check_new_parent(parent_id, caller) {
                    Some(e) => Err(e),
                    None => {
                        match parent_id {
                            Some(p) => {
                                if self.is_under(p, directory_id) {
                                    return Err(AssetError::CyclicParent);
                                }
                                proof {
                                    lemma_positions(self@);
                                    let j = dir_pos(self@.directories, p);
                                    assert(self@.directories[j].id < self@.directory_id);
                                }
                            },
                            None => {},
                        }
                        let mut d = self.directories[i].clone();
                        d.parent_id = parent_id;
                        d.updated_at = now;
                        let copy = d.clone();
                        self.put_directory(i, d);
                        Ok(self.map_directory_entity_to_directory_response(&copy))
                    },
                }
            },
        }
    }

    /// Whether deleting `root` for `caller` takes directory `id` with it.
    pub fn is_doomed(&self, root: Id, caller: &Principal, id: Id) -> (r: bool)
        requires
            self@.ids_ordered(),
        ensures
            r == doomed(self@.directories, root, *caller, id, self@.directories.len()),
    {
        let ghost dirs = self@.directories;
        let mut cur = id;
        let mut fuel: usize = self.directories.len();
        loop
            invariant
                dirs == self@.directories,
                self@.ids_ordered(),
                doomed(dirs, root, *caller, id, dirs.len()) == doomed(
                    dirs,
                    root,
                    *caller,
                    cur,
                    fuel as nat,
                ),
            decreases fuel,
        {
            if cur == root {
                return true;
            }
            if fuel == 0 {
                return false;
            }
            proof {
                lemma_positions(self@);
            }
            match self.directory_index(cur) {
                None => {
                    return false;
                },
                Some(i) => {
                    if check_guard(
                        self.directories[i].is_protected,
                        &self.directories[i].owner,
                        caller,
                    ).is_some() {
                        return false;
                    }
                    match self.directories[i].parent_id {
                        None => {
                            return false;
                        },
                        Some(p) => {
                            cur = p;
                            fuel -= 1;
                        },
                    }
                },
            }
        }
    }

    /// For each directory, in order, whether deleting `root` takes it.
    fn mark_doomed(&self, root: Id, caller: &Principal) -> (marks: Vec<bool>)
        requires
            self@.ids_ordered(),
        ensures
            marks@.len() == self@.directories.len(),
            forall|j: int|
                0 <= j < marks@.len() ==> marks@[j] == doomed(
                    self@.directories,
                    root,
                    *caller,
                    (#[trigger] self@.directories[j]).id,
                    self@.directories.len(),
                ),
    {
        let mut marks: Vec<bool> = Vec::new();
        let mut m: usize = 0;
        while m < self.directories.len()
            invariant
                self@.ids_ordered(),
                m <= self@.directories.len(),
                marks@.len() == m,
                forall|j: int|
                    0 <= j < m ==> marks@[j] == doomed(
                        self@.directories,
                        root,
                        *caller,
                        (#[trigger] self@.directories[j]).id,
                        self@.directories.len(),
                    ),
            decreases self@.directories.len() - m,
        {
            let gone = self.is_doomed(root, caller, self.directories[m].id);
            marks.push(gone);
            m += 1;
        }
        marks
    }

    /// Whether deleting `root` takes the file at position `i`.
    fn is_doomed_file(&self, root: Id, caller: &Principal, i: usize) -> (r: bool)
        requires
            self@.ids_ordered(),
            i < self@.files.len(),
        ensures
            r == doomed_file(self@.directories, root, *caller, self@.files[i as int]),
    {
        if check_guard(self.files[i].is_protected, &self.files[i].owner, caller).is_some() {
            return false;
        }
        match self.files[i].parent_id {
            Some(p) => self.is_doomed(root, caller, p),
            None => false,
        }
    }

    /// Removes the files that deleting `root` takes, and returns the chunk
    /// ids of their manifests.
    fn remove_doomed_files(&mut self, root: Id, caller: &Principal) -> (released: Vec<Id>)
        requires
            old(self)@.ids_ordered(),
        ensures
            final(self)@ == (StoreView {
                files: kept(
                    old(self)@.files,
                    doomed_files(old(self)@.directories, root, *caller),
                    old(self)@.files.len(),
                ),
                ..old(self)@
            }),
            released@ == doomed_chunk_ids(
                old(self)@.directories,
                old(self)@.files,
                root,
                *caller,
                old(self)@.files.len(),
            ),
    {
        let ghost before = self@;
        let ghost dirs = before.directories;
        let ghost files = before.files;
        let ghost drop_f = doomed_files(dirs, root, *caller);
        let mut released: Vec<Id> = Vec::new();
        let ghost mut k: nat = 0;
        let mut i: usize = 0;
        assert(self@.files =~= kept(files, drop_f, 0) + files.subrange(0, files.len() as int));
        while i < self.files.len()
            invariant
                k <= files.len(),
                before.ids_ordered(),
                dirs == before.directories,
                files == before.files,
                drop_f == doomed_files(dirs, root, *caller),
                i == kept(files, drop_f, k).len(),
                self@.files == kept(files, drop_f, k) + files.subrange(
                    k as int,
                    files.len() as int,
                ),
                released@ == doomed_chunk_ids(dirs, files, root, *caller, k),
                self@.directories == dirs,
                self@.chunks == before.chunks,
                self@.whitelist == before.whitelist,
                self@.version == before.version,
                self.file_id == before.file_id,
                self.directory_id == before.directory_id,
                self.chunk_id == before.chunk_id,
            decreases files.len() - k,
        {
            assert(self@.files[i as int] == files[k as int]);
            proof {
                lemma_kept_increasing(files, drop_f, file_key(), k);
                assert(self@.ids_ordered()) by {
                    assert forall|a: int, b: int| 0 <= a < b < self@.files.len() implies (
                    #[trigger] self@.files[a]).id < (#[trigger] self@.files[b]).id by {
                        let ka = kept(files, drop_f, k);
                        if b < ka.len() {
                            assert(self@.files[a] == ka[a] && self@.files[b] == ka[b]);
                        } else if a < ka.len() {
                            let j = choose|j: int| 0 <= j < k && files[j] == ka[a] && !drop_f(files[j]);
                            assert(self@.files[b] == files[b - ka.len() + k]);
                            assert(files[j].id < files[b - ka.len() + k].id);
                        } else {
                            assert(self@.files[a] == files[a - ka.len() + k]);
                            assert(self@.files[b] == files[b - ka.len() + k]);
                        }
                    }
                    assert forall|a: int| 0 <= a < self@.files.len() implies (
                    #[trigger] self@.files[a]).id < self@.file_id by {
                        let ka = kept(files, drop_f, k);
                        if a < ka.len() {
                            let j = choose|j: int| 0 <= j < k && files[j] == ka[a] && !drop_f(files[j]);
                            assert(files[j].id < before.file_id);
                        } else {
                            assert(self@.files[a] == files[a - ka.len() + k]);
                        }
                    }
                }
            }
            if self.is_doomed_file(root, caller, i) {
                let mut c: usize = 0;
                let ghost start = released@;
                let ghost manifest = files[k as int].chunks;
                while c < self.files[i].chunks.len()
                    invariant
                        i < self.files@.len(),
                        self.files@[i as int]@.chunks == manifest,
                        c <= manifest.len(),
                        released@ == start + manifest.subrange(0, c as int),
                    decreases manifest.len() - c,
                {
                    released.push(self.files[i].chunks[c]);
                    assert(released@ =~= start + manifest.subrange(0, c + 1));
                    c += 1;
                }
                assert(released@ =~= start + manifest);
                let ghost prev = self@.files;
                self.files.remove(i);
                assert(self@.files =~= prev.remove(i as int));
                assert(self@.files =~= kept(files, drop_f, k + 1) + files.subrange(
                    (k + 1) as int,
                    files.len() as int,
                ));
            } else {
                assert(self@.files =~= kept(files, drop_f, k + 1) + files.subrange(
                    (k + 1) as int,
                    files.len() as int,
                ));
                i += 1;
            }
            proof {
                k = k + 1;
            }
        }
        assert(self@.files =~= kept(files, drop_f, files.len()));
        released
    }

    /// Removes the directories whose mark is set.
    fn remove_marked_directories(&mut self, marks: &Vec<bool>, Ghost(drop_d): Ghost<
        spec_fn(DirectoryView) -> bool,
    >)
        requires
            marks@.len() == old(self)@.directories.len(),
            forall|j: int|
                0 <= j < marks@.len() ==> marks@[j] == drop_d(#[trigger] old(self)@.directories[j]),
        ensures
            final(self)@ == (StoreView {
                directories: kept(old(self)@.directories, drop_d, old(self)@.directories.len()),
                ..old(self)@
            }),
    {
        let ghost before = self@;
        let ghost dirs = before.directories;
        let mut kd: usize = 0;
        let mut i: usize = 0;
        assert(self@.directories =~= kept(dirs, drop_d, 0) + dirs.subrange(0, dirs.len() as int));
        while kd < marks.len()
            invariant
                marks@.len() == dirs.len(),
                kd <= dirs.len(),
                dirs == before.directories,
                forall|j: int| 0 <= j < dirs.len() ==> marks@[j] == drop_d(#[trigger] dirs[j]),
                i == kept(dirs, drop_d, kd as nat).len(),
                i <= kd,
                self@.directories == kept(dirs, drop_d, kd as nat) + dirs.subrange(
                    kd as int,
                    dirs.len() as int,
                ),
                self@.files == before.files,
                self@.chunks == before.chunks,
                self@.whitelist == before.whitelist,
                self@.version == before.version,
                self.file_id == before.file_id,
                self.directory_id == before.directory_id,
                self.chunk_id == before.chunk_id,
            decreases dirs.len() - kd,
        {
            assert(self@.directories.len() == i + dirs.len() - kd);
            assert(self@.directories[i as int] == dirs[kd as int]);
            if marks[kd] {
                let ghost prev = self@.directories;
                self.directories.remove(i);
                assert(self@.directories =~= prev.remove(i as int));
                assert(self@.directories =~= kept(dirs, drop_d, (kd + 1) as nat) + dirs.subrange(
                    kd + 1,
                    dirs.len() as int,
                ));
            } else {
                assert(self@.directories =~= kept(dirs, drop_d, (kd + 1) as nat) + dirs.subrange(
                    kd + 1,
                    dirs.len() as int,
                ));
                i += 1;
            }
            kd += 1;
        }
        assert(self@.directories =~= kept(dirs, drop_d, dirs.len()));
    }

    /// Deletes directory `directory_id` for `caller` with what lies below
    /// it. Below the directory itself, what the guard protects from the
    /// caller stays, and so does everything under a directory that stays.
    pub fn delete_directory(&mut self, directory_id: Id, caller: &Principal) -> (r: Result<
        (),
        AssetError,
    >)
        requires
            old(self)@.wf(),
        ensures
            final(self)@.wf(),
            match old(self)@.directory_verdict(directory_id, *caller) {
                Some(e) => r == Err::<(), AssetError>(e) && final(self)@ == old(self)@,
                None => r.is_ok() && final(self)@ == old(self)@.without_directory(
                    directory_id,
                    *caller,
                ),
            },
    {
        match self.check_directory_state(directory_id, caller) {
            Err(e) => {
                return Err(e);
            },
            Ok(_) => {},
        }
        let ghost before = self@;
        let ghost dirs = before.directories;
        let ghost files = before.files;
        let ghost drop_d = doomed_directories(dirs, directory_id, *caller);
        let ghost drop_f = doomed_files(dirs, directory_id, *caller);
        let marks = self.mark_doomed(directory_id, caller);
        let released = self.remove_doomed_files(directory_id, caller);
        self.remove_marked_directories(&marks, Ghost(drop_d));
        proof {
            lemma_kept_increasing(dirs, drop_d, directory_key(), dirs.len());
            lemma_kept_increasing(files, drop_f, file_key(), files.len());
            assert(dirs_increasing(self@.directories));
            lemma_part_of_forest(dirs, self@.directories);
            assert(self@.chunks == before.chunks);
            let rest = self@.files;
            assert(files_increasing(rest));
            lemma_reserved_part(files, rest, before.chunks);
            assert(self@.wf());
            lemma_positions(before);
            assert forall|a: int, j: int|
                0 <= a < rest.len() && 0 <= j < rest[a].chunks.len() implies !released@.contains(
                #[trigger] rest[a].chunks[j],
            ) by {
                let x = rest[a].chunks[j];
                let o = choose|o: int| 0 <= o < files.len() && files[o] == rest[a] && !drop_f(files[o]);
                lemma_released_ids(dirs, files, directory_id, *caller, files.len(), x);
                if released@.contains(x) {
                    let i = choose|i: int|
                        0 <= i < files.len() && doomed_file(dirs, directory_id, *caller, files[i])
                            && files[i].chunks.contains(x);
                    let b = choose|b: int| 0 <= b < files[i].chunks.len() && files[i].chunks[b] == x;
                    if i < o {
                        assert(files[i].chunks[b] != files[o].chunks[j]);
                    } else {
                        assert(i > o);
                        assert(files[o].chunks[j] != files[i].chunks[b]);
                    }
                }
            }
        }
        self.release_chunks(&released);
        Ok(())
    }
}

} // verus!
