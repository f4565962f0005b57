//! Files: finding, guarding, renaming, moving and deleting them.

use vstd::prelude::*;
use crate::models::{
    clone_ids, clone_opt_string, ChunkView, DirectoryView, FileEntity, FileResponse,
    FileResponseView, FileView, Id, Permission, Principal,
};
use crate::paths::canonical_path;
use crate::manifests::{
    files_increasing, lemma_reserved_file_update, lemma_reserved_part, lemma_reserved_release,
};
use crate::seqs::{contains_id, kept, lemma_kept_increasing};
use crate::store::{check_guard, guard, has_dir, lemma_positions, AssetError, Store, StoreView};
use crate::text::{escape_spaces, escaped, is_valid_name, valid_name};

verus! {

/// The chunks whose id is one of `ids`.
pub open spec fn in_ids(ids: Seq<Id>) -> spec_fn(ChunkView) -> bool {
    |c: ChunkView| ids.contains(c.id)
}

/// The id of a chunk.
pub open spec fn chunk_key() -> spec_fn(ChunkView) -> Id {
    |c: ChunkView| c.id
}

/// A file as callers see it, among the directories `dirs`.
pub open spec fn file_response(dirs: Seq<DirectoryView>, f: FileView) -> FileResponseView {
    FileResponseView {
        id: f.id,
        name: f.name,
        size: f.size,
        mime_type: f.mime_type,
        extension: f.extension,
        permission: f.permission,
        parent_id: f.parent_id,
        chunks: f.chunks,
        path: canonical_path(dirs, f.name, f.parent_id),
        metadata: f.metadata,
        is_protected: f.is_protected,
        owner: f.owner,
        created_at: f.created_at,
        updated_at: f.updated_at,
    }
}

/// Whether a file lies under `parent` and answers to the path segment `section`.
pub open spec fn file_answers(f: FileView, parent: Option<Id>, section: Seq<char>) -> bool {
    f.parent_id == parent && escaped(f.name) == section
}

/// The first among the first `n` files that answers, by position.
pub open spec fn first_file(files: Seq<FileView>, parent: Option<Id>, section: Seq<char>, n: nat) -> Option<
    int,
>
    decreases n,
{
    if n == 0 || n > files.len() {
        None
    } else {
        match first_file(files, parent, section, (n - 1) as nat) {
            Some(i) => Some(i),
            None => if file_answers(files[n - 1], parent, section) {
                Some(n - 1)
            } else {
                None
            },
        }
    }
}

/// Whether a new parent is acceptable to `caller`: none, or an existing
/// directory that has no other owner.
pub open spec fn parent_verdict(dirs: Seq<DirectoryView>, parent: Option<Id>, caller: Principal) -> Option<
    AssetError,
> {
    match parent {
        None => None,
        Some(p) => if !has_dir(dirs, p) {
            Some(AssetError::ParentNotFound)
        } else {
            let d = dirs[crate::store::dir_pos(dirs, p)];
            if d.owner.is_some() && d.owner != Some(caller) {
                Some(AssetError::NotOwned)
            } else {
                None
            }
        },
    }
}

impl StoreView {
    /// What stands in the way of `caller` changing file `id`.
    pub open spec fn file_verdict(self, id: Id, caller: Principal) -> Option<AssetError> {
        if !self.has_file(id) {
            Some(AssetError::NotFound)
        } else {
            guard(self.file(id).is_protected, self.file(id).owner, caller)
        }
    }

    /// The store without file `id` and without the chunks of its manifest.
    pub open spec fn without_file(self, id: Id) -> StoreView {
        StoreView {
            files: self.files.remove(self.file_pos(id)),
            chunks: kept(self.chunks, in_ids(self.file(id).chunks), self.chunks.len()),
            ..self
        }
    }

    /// The store with file `id` replaced by `f`.
    pub open spec fn with_file(self, id: Id, f: FileView) -> StoreView {
        StoreView { files: self.files.update(self.file_pos(id), f), ..self }
    }

    /// Whether a file lies directly under `id` and has the name.
    pub open spec fn file_named_under(self, id: Id, name: Seq<char>) -> bool {
        exists|i: int|
            0 <= i < self.files.len() && (#[trigger] self.files[i]).parent_id == Some(id)
                && self.files[i].name == name
    }

    /// Why file `id` cannot take the name, if it cannot.
    pub open spec fn rename_file_verdict(self, id: Id, name: Seq<char>, caller: Principal) -> Option<
        AssetError,
    > {
        if !valid_name(name) {
            Some(AssetError::InvalidName)
        } else if self.file_named_under(id, name) {
            Some(AssetError::DuplicateName)
        } else {
            self.file_verdict(id, caller)
        }
    }

    /// Why file `id` cannot move under `parent`, if it cannot.
    pub open spec fn move_file_verdict(self, id: Id, parent: Option<Id>, caller: Principal) -> Option<
        AssetError,
    > {
        if self.file_verdict(id, caller).is_some() {
            self.file_verdict(id, caller)
        } else {
            parent_verdict(self.directories, parent, caller)
        }
    }
}

/// Whether two optional ids are the same.
pub fn same_id(a: &Option<Id>, b: &Option<Id>) -> (r: bool)
    ensures
        r == (*a == *b),
{
    match (a, b) {
        (Some(x), Some(y)) => *x == *y,
        (None, None) => true,
        _ => false,
    }
}

impl Store {
    /// The file as callers see it.
    pub fn map_file_entity_to_file_response(&self, file: &FileEntity) -> (r: FileResponse)
        requires
            self@.ids_ordered(),
        ensures
            r@ == file_response(self@.directories, file@),
    {
        FileResponse {
            id: file.id,
            name: file.name.clone(),
            size: file.size,
            mime_type: file.mime_type.clone(),
            extension: file.extension.clone(),
            permission: file.permission.clone(),
            parent_id: file.parent_id,
            chunks: clone_ids(&file.chunks),
            path: self.get_file_path(file),
            metadata: clone_opt_string(&file.metadata),
            is_protected: file.is_protected,
            owner: file.owner,
            created_at: file.created_at,
            updated_at: file.updated_at,
        }
    }

    /// Finds file `file_id` and holds it to the guard: its position, or why
    /// `caller` may not change it.
    pub fn check_file_state(&self, file_id: Id, caller: &Principal) -> (r: Result<usize, AssetError>)
        requires
            self@.ids_ordered(),
        ensures
            match r {
                Ok(i) => self@.file_verdict(file_id, *caller).is_none() && i == self@.file_pos(
                    file_id,
                ) && i < self@.files.len(),
                Err(e) => self@.file_verdict(file_id, *caller) == Some(e),
            },
    {
        proof {
            lemma_positions(self@);
        }
        match self.file_index(file_id) {
            None => Err(AssetError::NotFound),
            Some(i) => {
                match check_guard(self.files[i].is_protected, &self.files[i].owner, caller) {
                    Some(e) => Err(e),
                    None => Ok(i),
                }
            },
        }
    }

    /// Drops every chunk whose id is one of `ids`, none of which a manifest names.
    pub fn release_chunks(&mut self, ids: &Vec<Id>)
        requires
            old(self)@.wf(),
            forall|i: int, j: int|
                0 <= i < old(self)@.files.len() && 0 <= j < old(self)@.files[i].chunks.len()
                    ==> !ids@.contains(#[trigger] old(self)@.files[i].chunks[j]),
        ensures
            final(self)@.wf(),
            final(self)@ == (StoreView {
                chunks: kept(old(self)@.chunks, in_ids(ids@), old(self)@.chunks.len()),
                ..old(self)@
            }),
    {
        let ghost before = self@.chunks;
        let ghost drop = in_ids(ids@);
        let ghost mut k: nat = 0;
        let mut i: usize = 0;
        assert(self@.chunks =~= kept(before, drop, 0) + before.subrange(0, before.len() as int));
        while i < self.chunks.len()
            invariant
                k <= before.len(),
                i == kept(before, drop, k).len(),
                self@.chunks == kept(before, drop, k) + before.subrange(k as int, before.len() as int),
                drop == in_ids(ids@),
                self.files == old(self).files,
                self.directories == old(self).directories,
                self.whitelist == old(self).whitelist,
                self.version == old(self).version,
                self.file_id == old(self).file_id,
                self.directory_id == old(self).directory_id,
                self.chunk_id == old(self).chunk_id,
            decreases before.len() - k,
        {
            assert(self@.chunks[i as int] == before[k as int]);
            if contains_id(ids, self.chunks[i].id) {
                let ghost prev = self@.chunks;
                self.chunks.remove(i);
                assert(self@.chunks =~= prev.remove(i as int));
                assert(self@.chunks =~= kept(before, drop, k + 1) + before.subrange(
                    (k + 1) as int,
                    before.len() as int,
                ));
            } else {
                assert(self@.chunks =~= kept(before, drop, k + 1) + before.subrange(
                    (k + 1) as int,
                    before.len() as int,
                ));
                i += 1;
            }
            proof {
                k = k + 1;
            }
        }
        proof {
            assert(self@.chunks =~= kept(before, drop, before.len()));
            lemma_kept_increasing(before, drop, chunk_key(), before.len());
            assert(self@.files == old(self)@.files);
            assert(self@.directories == old(self)@.directories);
            lemma_reserved_release(old(self)@.files, before, ids@);
        }
    }

    /// Deletes file `file_id` and releases its chunks, if `caller` may.
    pub fn delete_file(&mut self, file_id: Id, caller: &Principal) -> (r: Result<(), AssetError>)
        requires
            old(self)@.wf(),
        ensures
            final(self)@.wf(),
            match old(self)@.file_verdict(file_id, *caller) {
                Some(e) => r == Err::<(), AssetError>(e) && final(self)@ == old(self)@,
                None => r.is_ok() && final(self)@ == old(self)@.without_file(file_id),
            },
    {
        match self.check_file_state(file_id, caller) {
            Err(e) => Err(e),
            Ok(i) => {
                let ghost before = self@;
                let ids = clone_ids(&self.files[i].chunks);
                self.files.remove(i);
                proof {
                    let rest = before.files.remove(i as int);
                    assert(self@.files =~= rest);
                    assert(self@.chunks == before.chunks);
                    assert(self@.directories == before.directories);
                    assert forall|a: int| 0 <= a < rest.len() implies exists|j: int|
                        0 <= j < before.files.len() && before.files[j] == #[trigger] rest[a] by {
                        if a < i {
                            assert(before.files[a] == rest[a]);
                        } else {
                            assert(before.files[a + 1] == rest[a]);
                        }
                    }
                    assert(files_increasing(rest)) by {
                        assert forall|a: int, b: int| 0 <= a < b < rest.len() implies (
                        #[trigger] rest[a]).id < (#[trigger] rest[b]).id by {
                            let oa = if a < i { a } else { a + 1 };
                            let ob = if b < i { b } else { b + 1 };
                            assert(before.files[oa].id < before.files[ob].id);
                        }
                    }
                    lemma_reserved_part(before.files, rest, before.chunks);
                    assert forall|a: int| 0 <= a < rest.len() implies (#[trigger] rest[a]).id
                        < before.file_id by {
                        let oa = if a < i { a } else { a + 1 };
                        assert(before.files[oa].id < before.file_id);
                    }
                    assert forall|a: int, j: int|
                        0 <= a < rest.len() && 0 <= j < rest[a].chunks.len() implies !ids@.contains(
                        #[trigger] rest[a].chunks[j],
                    ) by {
                        let oa = if a < i { a } else { a + 1 };
                        let x = rest[a].chunks[j];
                        if ids@.contains(x) {
                            let b = choose|b: int| 0 <= b < ids@.len() && ids@[b] == x;
                            if oa < i {
                                assert(before.files[oa].chunks[j] != before.files[i as int].chunks[b]);
                            } else {
                                assert(before.files[i as int].chunks[b] != before.files[oa].chunks[j]);
                            }
                        }
                    }
                }
                self.release_chunks(&ids);
                Ok(())
            },
        }
    }

    /// The first file, by id, that lies under `parent_id` and whose escaped
    /// name is `path_section`.
    pub fn find_file(&self, parent_id: Option<Id>, path_section: &String) -> (r: Option<FileEntity>)
        ensures
            match first_file(self@.files, parent_id, path_section@, self@.files.len()) {
                Some(i) => r.is_some() && r.unwrap()@ == self@.files[i] && 0 <= i
                    < self@.files.len(),
                None => r.is_none(),
            },
    {
        let mut i: usize = 0;
        while i < self.files.len()
            invariant
                i <= self.files@.len(),
                first_file(self@.files, parent_id, path_section@, i as nat).is_none(),
            decreases self.files@.len() - i,
        {
            if same_id(&self.files[i].parent_id, &parent_id) {
                let esc = escape_spaces(&self.files[i].name);
                if esc == *path_section {
                    proof {
                        lemma_first_file_stays(
                            self@.files,
                            parent_id,
                            path_section@,
                            (i + 1) as nat,
                            self@.files.len(),
                        );
                    }
                    return Some(self.files[i].clone());
                }
            }
            i += 1;
        }
        None
    }

    /// Gives file `file_id` the name `name`.
    pub fn change_file_name(&mut self, file_id: Id, name: String, caller: &Principal, now: u64) -> (r:
        Result<FileResponse, AssetError>)
        requires
            old(self)@.wf(),
        ensures
            final(self)@.wf(),
            match old(self)@.rename_file_verdict(file_id, name@, *caller) {
                Some(e) => r == Err::<FileResponse, AssetError>(e) && final(self)@ == old(self)@,
                None => {
                    let f = FileView { name: name@, updated_at: now, ..old(self)@.file(file_id) };
                    &&& final(self)@ == old(self)@.with_file(file_id, f)
                    &&& r.is_ok()
                    &&& r.unwrap()@ == file_response(old(self)@.directories, f)
                },
            },
    {
        if !is_valid_name(&name) {
            return Err(AssetError::InvalidName);
        }
        if self.has_file_named_under(file_id, &name) {
            return Err(AssetError::DuplicateName);
        }
        match self.check_file_state(file_id, caller) {
            Err(e) => Err(e),
            Ok(i) => {
                let mut f = self.files[i].clone();
                f.name = name;
                f.updated_at = now;
                let response = self.map_file_entity_to_file_response(&f);
                self.put_file(i, f);
                Ok(response)
            },
        }
    }

    /// Whether a file lies directly under `id` and has the name.
    pub fn has_file_named_under(&self, id: Id, name: &String) -> (r: bool)
        ensures
            r == self@.file_named_under(id, name@),
    {
        let mut i: usize = 0;
        let want = Some(id);
        while i < self.files.len()
            invariant
                i <= self.files@.len(),
                want == Some(id),
                forall|j: int|
                    0 <= j < i ==> !((#[trigger] self@.files[j]).parent_id == Some(id)
                        && self@.files[j].name == name@),
            decreases self.files@.len() - i,
        {
            if same_id(&self.files[i].parent_id, &want) && self.files[i].name == *name {
                assert(self@.files[i as int].parent_id == Some(id) && self@.files[i as int].name
                    == name@);
                return true;
            }
            i += 1;
        }
        false
    }

    /// Replaces the file at position `i` by `f`, which has the same id and manifest.
    pub fn put_file(&mut self, i: usize, f: FileEntity)
        requires
            old(self)@.wf(),
            i < old(self)@.files.len(),
            old(self)@.files[i as int].id == f.id,
            old(self)@.files[i as int].chunks == f.chunks@,
        ensures
            final(self)@.wf(),
            final(self)@ == old(self)@.with_file(f.id, f@),
    {
        proof {
            lemma_positions(self@);
            lemma_reserved_file_update(self@.files, self@.chunks, i as int, f@);
        }
        let ghost before = self@;
        self.files.set(i, f);
        assert(self@.files =~= before.files.update(i as int, f@));
        assert(self@.directories == before.directories);
        assert(self@.chunks == before.chunks);
    }

    /// Gives file `file_id` the permission `permission`.
    pub fn change_file_permission(
        &mut self,
        file_id: Id,
        permission: Permission,
        caller: &Principal,
        now: u64,
    ) -> (r: Result<FileResponse, AssetError>)
        requires
            old(self)@.wf(),
        ensures
            final(self)@.wf(),
            match old(self)@.file_verdict(file_id, *caller) {
                Some(e) => r == Err::<FileResponse, AssetError>(e) && final(self)@ == old(self)@,
                None => {
                    let f = FileView {
                        permission: permission@,
                        updated_at: now,
                        ..old(self)@.file(file_id)
                    };
                    &&& final(self)@ == old(self)@.with_file(file_id, f)
                    &&& r.is_ok()
                    &&& r.unwrap()@ == file_response(old(self)@.directories, f)
                },
            },
    {
        match self.check_file_state(file_id, caller) {
            Err(e) => Err(e),
            Ok(i) => {
                let mut f = self.files[i].clone();
                f.permission = permission;
                f.updated_at = now;
                let response = self.map_file_entity_to_file_response(&f);
                self.put_file(i, f);
                Ok(response)
            },
        }
    }

    /// Makes `owner` the owner of file `file_id`.
    pub fn change_file_owner(&mut self, file_id: Id, owner: Principal, caller: &Principal, now: u64) -> (r:
        Result<(), AssetError>)
        requires
            old(self)@.wf(),
        ensures
            final(self)@.wf(),
            match old(self)@.file_verdict(file_id, *caller) {
                Some(e) => r == Err::<(), AssetError>(e) && final(self)@ == old(self)@,
                None => {
                    let f = FileView {
                        owner: Some(owner),
                        updated_at: now,
                        ..old(self)@.file(file_id)
                    };
                    final(self)@ == old(self)@.with_file(file_id, f) && r.is_ok()
                },
            },
    {
        match self.check_file_state(file_id, caller) {
            Err(e) => Err(e),
            Ok(i) => {
                let mut f = self.files[i].clone();
                f.owner = Some(owner);
                f.updated_at = now;
                self.put_file(i, f);
                Ok(())
            },
        }
    }

    /// Why `caller` may not put something under `parent_id`, if they may not.
    pub fn check_new_parent(&self, parent_id: Option<Id>, caller: &Principal) -> (r: Option<AssetError>)
        requires
            self@.ids_ordered(),
        ensures
            r == parent_verdict(self@.directories, parent_id, *caller),
    {
        proof {
            lemma_positions(self@);
        }
        match parent_id {
            None => None,
            Some(p) => match self.directory_index(p) {
                None => Some(AssetError::ParentNotFound),
                Some(i) => match &self.directories[i].owner {
                    Some(o) => if o.same(caller) {
                        None
                    } else {
                        Some(AssetError::NotOwned)
                    },
                    None => None,
                },
            },
        }
    }

    /// Moves file `file_id` under `parent_id`, or to the root.
    pub fn change_file_parent(
        &mut self,
        file_id: Id,
        parent_id: Option<Id>,
        caller: &Principal,
        now: u64,
    ) -> (r: Result<FileResponse, AssetError>)
        requires
            old(self)@.wf(),
        ensures
            final(self)@.wf(),
            match old(self)@.move_file_verdict(file_id, parent_id, *caller) {
                Some(e) => r == Err::<FileResponse, AssetError>(e) && final(self)@ == old(self)@,
                None => {
                    let f = FileView {
                        parent_id: parent_id,
                        updated_at: now,
                        ..old(self)@.file(file_id)
                    };
                    &&& final(self)@ == old(self)@.with_file(file_id, f)
                    &&& r.is_ok()
                    &&& r.unwrap()@ == file_response(old(self)@.directories, f)
                },
            },
    {
        match self.check_file_state(file_id, caller) {
            Err(e) => Err(e),
            Ok(i) => {
                match self.check_new_parent(parent_id, caller) {
                    Some(e) => Err(e),
                    None => {
                        let mut f = self.files[i].clone();
                        f.parent_id = parent_id;
                        f.updated_at = now;
                        let response = self.map_file_entity_to_file_response(&f);
                        self.put_file(i, f);
                        Ok(response)
                    },
                }
            },
        }
    }
}

/// A first answering file found among the first `n` is the first among more.
pub proof fn lemma_first_file_stays(
    files: Seq<FileView>,
    parent: Option<Id>,
    section: Seq<char>,
    n: nat,
    m: nat,
)
    requires
        n <= m <= files.len(),
        first_file(files, parent, section, n).is_some(),
    ensures
        first_file(files, parent, section, m) == first_file(files, parent, section, n),
    decreases m,
{
    if m > n {
        lemma_first_file_stays(files, parent, section, n, (m - 1) as nat);
    }
}

} // verus!
