//! What holds of the store whatever is done with it.

use vstd::prelude::*;
use crate::directories::{
    directory_key, doomed, doomed_chunk_ids, doomed_directories, doomed_file, doomed_files,
    file_key, lemma_released_ids,
};
use crate::files::{chunk_key, in_ids};
use crate::forest::{
    dirs_increasing, lemma_dir_at, lemma_ends_later, lemma_forest_depth, lies_under,
};
use crate::paths::ancestor_names;
use crate::models::{ChunkView, DirectoryView, FileView, Id, Principal};
use crate::seqs::{lemma_kept_increasing, lemma_kept_members};
use crate::store::{
    acyclic, dir_pos, ends_within, has_dir, lemma_positions, AssetError, StoreView,
};
use crate::tree::{assets_under, child_dirs, directory_response};
use crate::text::valid_name;

verus! {

/// In a well-formed store the walk from any directory to its parents comes
/// to an end within as many steps as there are directories.
pub proof fn law_parent_walk_ends(s: StoreView, id: Id)
    requires
        s.wf(),
    ensures
        ends_within(s.directories, id, s.directories.len()),
{
    lemma_forest_depth(s.directories, id);
}

/// A walk that ends within `k` steps gives the same names whatever the
/// fuel, from `k` on.
pub proof fn lemma_names_whole(dirs: Seq<DirectoryView>, id: Id, k: nat, f1: nat, f2: nat)
    requires
        dirs_increasing(dirs),
        ends_within(dirs, id, k),
        k <= f1,
        k <= f2,
    ensures
        ancestor_names(dirs, id, f1) == ancestor_names(dirs, id, f2),
    decreases k,
{
    if has_dir(dirs, id) {
        match dirs[dir_pos(dirs, id)].parent_id {
            Some(p) => {
                lemma_names_whole(dirs, p, (k - 1) as nat, (f1 - 1) as nat, (f2 - 1) as nat);
            },
            None => {},
        }
    }
}

/// In a well-formed store the canonical path of a file names every
/// directory above the file: more fuel than the store gives to the walk
/// finds no further name.
pub proof fn law_paths_are_whole(s: StoreView, id: Id, fuel: nat)
    requires
        s.wf(),
        fuel >= s.directories.len(),
    ensures
        ancestor_names(s.directories, id, fuel) == ancestor_names(
            s.directories,
            id,
            s.directories.len(),
        ),
{
    lemma_forest_depth(s.directories, id);
    lemma_names_whole(s.directories, id, s.directories.len(), fuel, s.directories.len());
}

/// A walk that ends within `k` steps is taken by a deletion or not,
/// whatever the fuel, from `k` on.
pub proof fn lemma_doomed_whole(
    dirs: Seq<DirectoryView>,
    root: Id,
    caller: Principal,
    id: Id,
    k: nat,
    f1: nat,
    f2: nat,
)
    requires
        dirs_increasing(dirs),
        ends_within(dirs, id, k),
        k <= f1,
        k <= f2,
    ensures
        doomed(dirs, root, caller, id, f1) == doomed(dirs, root, caller, id, f2),
    decreases k,
{
    if id != root && has_dir(dirs, id) {
        match dirs[dir_pos(dirs, id)].parent_id {
            Some(p) => {
                lemma_doomed_whole(
                    dirs,
                    root,
                    caller,
                    p,
                    (k - 1) as nat,
                    (f1 - 1) as nat,
                    (f2 - 1) as nat,
                );
            },
            None => {},
        }
    }
}

/// In a well-formed store a deletion takes every directory below the
/// deleted one that an unbroken line of directories passing the guard
/// joins to it, however long the line: more fuel than the store gives to
/// the walk takes no further directory.
pub proof fn law_deletion_reaches_all(s: StoreView, root: Id, caller: Principal, id: Id, fuel: nat)
    requires
        s.wf(),
        fuel >= s.directories.len(),
    ensures
        doomed(s.directories, root, caller, id, fuel) == doomed(
            s.directories,
            root,
            caller,
            id,
            s.directories.len(),
        ),
{
    lemma_forest_depth(s.directories, id);
    lemma_doomed_whole(
        s.directories,
        root,
        caller,
        id,
        s.directories.len(),
        fuel,
        s.directories.len(),
    );
}

/// No caller can move a directory under itself or under a directory that
/// lies below it.
pub proof fn law_no_move_below_itself(s: StoreView, id: Id, parent: Id, caller: Principal)
    requires
        s.wf(),
        lies_under(s.directories, parent, id),
    ensures
        s.move_directory_verdict(id, Some(parent), caller).is_some(),
{
}

/// A file that is not protected and has an owner answers every other
/// caller with `NotOwned`: on delete, on a move, and on a rename to a valid
/// name that is free.
pub proof fn law_other_callers_are_refused(
    s: StoreView,
    id: Id,
    caller: Principal,
    name: Seq<char>,
    parent: Option<Id>,
)
    requires
        s.wf(),
        s.has_file(id),
        !s.file(id).is_protected,
        s.file(id).owner.is_some(),
        s.file(id).owner != Some(caller),
    ensures
        s.file_verdict(id, caller) == Some(AssetError::NotOwned),
        s.move_file_verdict(id, parent, caller) == Some(AssetError::NotOwned),
        valid_name(name) && !s.file_named_under(id, name) ==> s.rename_file_verdict(
            id,
            name,
            caller,
        ) == Some(AssetError::NotOwned),
        s.rename_file_verdict(id, name, caller).is_some(),
{
}

/// A protected file refuses every caller, its owner too: on delete, on a
/// move and on a rename.
pub proof fn law_protection_refuses_all(
    s: StoreView,
    id: Id,
    caller: Principal,
    name: Seq<char>,
    parent: Option<Id>,
)
    requires
        s.wf(),
        s.has_file(id),
        s.file(id).is_protected,
    ensures
        s.file_verdict(id, caller) == Some(AssetError::Protected),
        s.move_file_verdict(id, parent, caller) == Some(AssetError::Protected),
        s.rename_file_verdict(id, name, caller).is_some(),
{
}

/// The deletion of directory `root` by a caller whom its guard lets pass
/// removes exactly: the directory itself and every directory that passes
/// the guard and whose parent is removed; every file that passes the guard
/// and lies directly under a removed directory; and the chunks of those
/// files. Every other directory, file and chunk stays as it was.
pub proof fn law_cascading_delete(s: StoreView, root: Id, caller: Principal)
    requires
        s.wf(),
        s.directory_verdict(root, caller).is_none(),
    ensures
        ({
            let after = s.without_directory(root, caller);
            &&& !after.has_directory(root)
            &&& forall|d: DirectoryView|
                after.directories.contains(d) <==> s.directories.contains(d) && !doomed(
                    s.directories,
                    root,
                    caller,
                    d.id,
                    s.directories.len(),
                )
            &&& forall|f: FileView|
                after.files.contains(f) <==> s.files.contains(f) && !doomed_file(
                    s.directories,
                    root,
                    caller,
                    f,
                )
            &&& forall|c: ChunkView|
                after.chunks.contains(c) <==> s.chunks.contains(c) && !(exists|i: int|
                    0 <= i < s.files.len() && doomed_file(
                        s.directories,
                        root,
                        caller,
                        #[trigger] s.files[i],
                    ) && s.files[i].chunks.contains(c.id))
        }),
{
    let after = s.without_directory(root, caller);
    let dirs = s.directories;
    let files = s.files;
    let drop_d = doomed_directories(dirs, root, caller);
    let drop_f = doomed_files(dirs, root, caller);
    let released = doomed_chunk_ids(dirs, files, root, caller, files.len());
    let drop_c = in_ids(released);
    lemma_positions(s);
    lemma_kept_increasing(dirs, drop_d, directory_key(), dirs.len());
    lemma_kept_increasing(files, drop_f, file_key(), files.len());
    lemma_kept_increasing(s.chunks, drop_c, chunk_key(), s.chunks.len());
    assert forall|d: DirectoryView| after.directories.contains(d) <==> dirs.contains(d) && !doomed(
        dirs,
        root,
        caller,
        d.id,
        dirs.len(),
    ) by {
        if after.directories.contains(d) {
            let a = choose|a: int| 0 <= a < after.directories.len() && after.directories[a] == d;
            let j = choose|j: int|
                0 <= j < dirs.len() && dirs[j] == after.directories[a] && !drop_d(dirs[j]);
            assert(dirs[j] == d);
        }
        if dirs.contains(d) && !doomed(dirs, root, caller, d.id, dirs.len()) {
            let j = choose|j: int| 0 <= j < dirs.len() && dirs[j] == d;
            lemma_kept_members(dirs, drop_d, dirs.len(), j);
        }
    }
    assert(!after.has_directory(root)) by {
        if after.has_directory(root) {
            let a = after.directory_pos(root);
            assert(after.directories.contains(after.directories[a]));
            assert(doomed(dirs, root, caller, root, dirs.len()));
        }
    }
    assert forall|f: FileView| after.files.contains(f) <==> files.contains(f) && !doomed_file(
        dirs,
        root,
        caller,
        f,
    ) by {
        if after.files.contains(f) {
            let a = choose|a: int| 0 <= a < after.files.len() && after.files[a] == f;
            let j = choose|j: int|
                0 <= j < files.len() && files[j] == after.files[a] && !drop_f(files[j]);
            assert(files[j] == f);
        }
        if files.contains(f) && !doomed_file(dirs, root, caller, f) {
            let j = choose|j: int| 0 <= j < files.len() && files[j] == f;
            lemma_kept_members(files, drop_f, files.len(), j);
        }
    }
    assert forall|c: ChunkView| after.chunks.contains(c) <==> s.chunks.contains(c) && !(exists|
        i: int,
    |
        0 <= i < files.len() && doomed_file(dirs, root, caller, #[trigger] files[i])
            && files[i].chunks.contains(c.id)) by {
        lemma_released_ids(dirs, files, root, caller, files.len(), c.id);
        if after.chunks.contains(c) {
            let a = choose|a: int| 0 <= a < after.chunks.len() && after.chunks[a] == c;
            let j = choose|j: int|
                0 <= j < s.chunks.len() && s.chunks[j] == after.chunks[a] && !drop_c(s.chunks[j]);
            assert(s.chunks[j] == c);
        }
        if s.chunks.contains(c) && !released.contains(c.id) {
            let j = choose|j: int| 0 <= j < s.chunks.len() && s.chunks[j] == c;
            lemma_kept_members(s.chunks, drop_c, s.chunks.len(), j);
        }
    }
}

/// Whether the walk from `id` ends within `u` steps and within no fewer.
pub open spec fn ends_at(dirs: Seq<DirectoryView>, id: Id, u: nat) -> bool {
    ends_within(dirs, id, u) && (u == 0 || !ends_within(dirs, id, (u - 1) as nat))
}

/// A walk that ends within `k` steps ends at some number of steps up to `k`.
pub proof fn lemma_ends_somewhere(dirs: Seq<DirectoryView>, id: Id, k: nat) -> (u: nat)
    requires
        ends_within(dirs, id, k),
    ensures
        u <= k,
        ends_at(dirs, id, u),
    decreases k,
{
    if k > 0 && ends_within(dirs, id, (k - 1) as nat) {
        lemma_ends_somewhere(dirs, id, (k - 1) as nat)
    } else {
        k
    }
}

/// The directories directly under a directory whose walk ends at `u`
/// steps are the same, with all that lies below them, whatever the fuel,
/// from the number of directories less `u` on.
pub proof fn lemma_children_whole(
    dirs: Seq<DirectoryView>,
    files: Seq<FileView>,
    parent: Id,
    u: nat,
    g1: nat,
    g2: nat,
    n: nat,
)
    requires
        dirs_increasing(dirs),
        acyclic(dirs),
        has_dir(dirs, parent),
        ends_at(dirs, parent, u),
        u <= dirs.len(),
        g1 + u >= dirs.len(),
        g2 + u >= dirs.len(),
        n <= dirs.len(),
    ensures
        child_dirs(dirs, files, Some(parent), g1, n) == child_dirs(dirs, files, Some(parent), g2, n),
    decreases dirs.len() - u, n,
{
    if n > 0 {
        lemma_children_whole(dirs, files, parent, u, g1, g2, (n - 1) as nat);
        let c = dirs[n - 1];
        if c.parent_id == Some(parent) {
            lemma_dir_at(dirs, n - 1);
            lemma_forest_depth(dirs, c.id);
            assert(ends_within(dirs, c.id, u + 1));
            assert(!ends_within(dirs, c.id, u)) by {
                if u > 0 && ends_within(dirs, c.id, u) {
                    assert(ends_within(dirs, parent, (u - 1) as nat));
                }
            }
            if u + 1 > dirs.len() {
                lemma_ends_later(dirs, c.id, dirs.len(), (u - dirs.len()) as nat);
            }
            assert(g1 >= 1 && g2 >= 1);
            lemma_children_whole(
                dirs,
                files,
                c.id,
                u + 1,
                (g1 - 1) as nat,
                (g2 - 1) as nat,
                dirs.len(),
            );
            assert(directory_response(dirs, files, c, g1) == directory_response(
                dirs,
                files,
                c,
                g2,
            ));
        }
    }
}

/// The directories directly under `parent` are the same, with all that
/// lies below them, whatever the fuel, from the number of directories on.
pub proof fn lemma_top_whole(
    dirs: Seq<DirectoryView>,
    files: Seq<FileView>,
    parent: Option<Id>,
    f1: nat,
    f2: nat,
    n: nat,
)
    requires
        dirs_increasing(dirs),
        acyclic(dirs),
        f1 >= dirs.len(),
        f2 >= dirs.len(),
        n <= dirs.len(),
    ensures
        child_dirs(dirs, files, parent, f1, n) == child_dirs(dirs, files, parent, f2, n),
    decreases n,
{
    if n > 0 {
        lemma_top_whole(dirs, files, parent, f1, f2, (n - 1) as nat);
        let c = dirs[n - 1];
        if c.parent_id == parent {
            lemma_dir_at(dirs, n - 1);
            lemma_forest_depth(dirs, c.id);
            let u = lemma_ends_somewhere(dirs, c.id, dirs.len());
            assert(u >= 1) by {
                if u == 0 {
                    assert(!ends_within(dirs, c.id, 0));
                }
            }
            lemma_children_whole(
                dirs,
                files,
                c.id,
                u,
                (f1 - 1) as nat,
                (f2 - 1) as nat,
                dirs.len(),
            );
            assert(directory_response(dirs, files, c, f1) == directory_response(
                dirs,
                files,
                c,
                f2,
            ));
        }
    }
}

/// In a well-formed store the tree under a parent holds everything that
/// lies below it, however deep: more fuel than the store gives to the
/// descent finds nothing further.
pub proof fn law_tree_is_whole(s: StoreView, parent: Option<Id>, fuel: nat)
    requires
        s.wf(),
        fuel >= s.directories.len(),
    ensures
        assets_under(s.directories, s.files, parent, fuel) == assets_under(
            s.directories,
            s.files,
            parent,
            s.directories.len(),
        ),
{
    lemma_top_whole(
        s.directories,
        s.files,
        parent,
        fuel,
        s.directories.len(),
        s.directories.len(),
    );
}

/// In a well-formed store a directory of the store is seen with
/// everything that lies below it, however deep.
pub proof fn law_directory_is_whole(s: StoreView, i: int, fuel: nat)
    requires
        s.wf(),
        0 <= i < s.directories.len(),
        fuel >= s.directories.len(),
    ensures
        directory_response(s.directories, s.files, s.directories[i], fuel) == directory_response(
            s.directories,
            s.files,
            s.directories[i],
            s.directories.len(),
        ),
{
    let dirs = s.directories;
    let d = dirs[i];
    lemma_dir_at(dirs, i);
    lemma_forest_depth(dirs, d.id);
    let u = lemma_ends_somewhere(dirs, d.id, dirs.len());
    assert(u >= 1) by {
        if u == 0 {
            assert(!ends_within(dirs, d.id, 0));
        }
    }
    lemma_children_whole(
        dirs,
        s.files,
        d.id,
        u,
        (fuel - 1) as nat,
        (dirs.len() - 1) as nat,
        dirs.len(),
    );
}

} // verus!
