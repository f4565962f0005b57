//! Reading the tree: what lies under a directory, as callers see it.

use vstd::prelude::*;
use crate::files::{file_response, same_id};
use crate::models::{
    asset_view, assets_prefix_view, assets_view, Asset, AssetView, DirectoryEntity,
    DirectoryResponse, DirectoryResponseView, DirectoryView, FileView, Id,
};
use crate::store::Store;

verus! {

/// The directories among the first `n` that lie directly under `parent`,
/// each with what lies below it down to `fuel` further levels.
pub open spec fn child_dirs(
    dirs: Seq<DirectoryView>,
    files: Seq<FileView>,
    parent: Option<Id>,
    fuel: nat,
    n: nat,
) -> Seq<AssetView>
    decreases fuel, n,
{
    if n == 0 || n > dirs.len() {
        Seq::empty()
    } else if dirs[n - 1].parent_id == parent {
        child_dirs(dirs, files, parent, fuel, (n - 1) as nat).push(
            AssetView::Directory(directory_response(dirs, files, dirs[n - 1], fuel)),
        )
    } else {
        child_dirs(dirs, files, parent, fuel, (n - 1) as nat)
    }
}

/// Directory `d` as callers see it, with what lies below it down to `fuel` levels.
pub open spec fn directory_response(
    dirs: Seq<DirectoryView>,
    files: Seq<FileView>,
    d: DirectoryView,
    fuel: nat,
) -> DirectoryResponseView
    decreases fuel, 0nat,
{
    DirectoryResponseView {
        id: d.id,
        name: d.name,
        parent_id: d.parent_id,
        children: if fuel == 0 {
            Seq::empty()
        } else {
            child_dirs(dirs, files, Some(d.id), (fuel - 1) as nat, dirs.len()) + child_files(
                dirs,
                files,
                Some(d.id),
                files.len(),
            )
        },
        permission: d.permission,
        is_protected: d.is_protected,
        owner: d.owner,
        created_at: d.created_at,
        updated_at: d.updated_at,
    }
}

/// The files among the first `n` that lie directly under `parent`.
pub open spec fn child_files(
    dirs: Seq<DirectoryView>,
    files: Seq<FileView>,
    parent: Option<Id>,
    n: nat,
) -> Seq<AssetView>
    decreases n,
{
    if n == 0 || n > files.len() {
        Seq::empty()
    } else if files[n - 1].parent_id == parent {
        child_files(dirs, files, parent, (n - 1) as nat).push(
            AssetView::File(file_response(dirs, files[n - 1])),
        )
    } else {
        child_files(dirs, files, parent, (n - 1) as nat)
    }
}

/// What lies under `parent`: its directories in the order of their ids,
/// each with its own content down to `fuel` levels, then its files in the
/// order of their ids.
pub open spec fn assets_under(
    dirs: Seq<DirectoryView>,
    files: Seq<FileView>,
    parent: Option<Id>,
    fuel: nat,
) -> Seq<AssetView> {
    child_dirs(dirs, files, parent, fuel, dirs.len()) + child_files(dirs, files, parent, files.len())
}

/// The views of the first `n` assets do not change when one more is appended.
pub proof fn lemma_prefix_view_push(v: Seq<Asset>, a: Asset, n: nat)
    requires
        n <= v.len(),
    ensures
        assets_prefix_view(v.push(a), n) == assets_prefix_view(v, n),
    decreases n,
{
    if n > 0 {
        lemma_prefix_view_push(v, a, (n - 1) as nat);
        assert(v.push(a)[n - 1] == v[n - 1]);
    }
}

/// The views of a list with one more asset.
pub proof fn lemma_assets_view_push(v: Seq<Asset>, a: Asset)
    ensures
        assets_view(v.push(a)) == assets_view(v).push(asset_view(a)),
{
    lemma_prefix_view_push(v, a, v.len());
    assert(v.push(a)[v.len() as int] == a);
}

impl Store {
    /// What lies under `parent`, down to `fuel` levels below its directories.
    pub fn assets_below(&self, parent: Option<Id>, fuel: usize) -> (r: Vec<Asset>)
        requires
            self@.ids_ordered(),
        ensures
            assets_view(r@) == assets_under(self@.directories, self@.files, parent, fuel as nat),
        decreases fuel, 1nat,
    {
        let ghost dirs = self@.directories;
        let ghost files = self@.files;
        let mut out: Vec<Asset> = Vec::new();
        let mut i: usize = 0;
        while i < self.directories.len()
            invariant
                i <= dirs.len(),
                dirs == self@.directories,
                files == self@.files,
                self@.ids_ordered(),
                assets_view(out@) == child_dirs(dirs, files, parent, fuel as nat, i as nat),
            decreases dirs.len() - i,
        {
            if same_id(&self.directories[i].parent_id, &parent) {
                let d = self.directory_with_children(&self.directories[i], fuel);
                let a = Asset::Directory(d);
                proof {
                    lemma_assets_view_push(out@, a);
                }
                out.push(a);
            }
            i += 1;
        }
        let mut j: usize = 0;
        assert(assets_view(out@) =~= child_dirs(dirs, files, parent, fuel as nat, dirs.len())
            + child_files(dirs, files, parent, 0));
        while j < self.files.len()
            invariant
                j <= files.len(),
                dirs == self@.directories,
                files == self@.files,
                self@.ids_ordered(),
                assets_view(out@) == child_dirs(dirs, files, parent, fuel as nat, dirs.len())
                    + child_files(dirs, files, parent, j as nat),
            decreases files.len() - j,
        {
            if same_id(&self.files[j].parent_id, &parent) {
                let f = self.map_file_entity_to_file_response(&self.files[j]);
                let a = Asset::File(f);
                proof {
                    lemma_assets_view_push(out@, a);
                }
                out.push(a);
                assert(assets_view(out@) =~= child_dirs(
                    dirs,
                    files,
                    parent,
                    fuel as nat,
                    dirs.len(),
                ) + child_files(dirs, files, parent, (j + 1) as nat));
            }
            j += 1;
        }
        out
    }

    /// The directory as callers see it, with what lies below it down to `fuel` levels.
    pub fn directory_with_children(&self, directory: &DirectoryEntity, fuel: usize) -> (r:
        DirectoryResponse)
        requires
            self@.ids_ordered(),
        ensures
            r@ == directory_response(self@.directories, self@.files, directory@, fuel as nat),
        decreases fuel, 0nat,
    {
        let children = if fuel == 0 {
            let v: Vec<Asset> = Vec::new();
            assert(assets_view(v@) =~= Seq::<AssetView>::empty());
            v
        } else {
            self.assets_below(Some(directory.id), fuel - 1)
        };
        DirectoryResponse {
            id: directory.id,
            name: directory.name.clone(),
            parent_id: directory.parent_id,
            children,
            permission: directory.permission.clone(),
            is_protected: directory.is_protected,
            owner: directory.owner,
            created_at: directory.created_at,
            updated_at: directory.updated_at,
        }
    }

    /// Everything under `parent_id`, or under the root: directories nested
    /// in directories, files attached to their parent.
    pub fn get_assets_tree(&self, parent_id: Option<Id>) -> (r: Vec<Asset>)
        requires
            self@.ids_ordered(),
        ensures
            assets_view(r@) == assets_under(
                self@.directories,
                self@.files,
                parent_id,
                self@.directories.len(),
            ),
    {
        self.assets_below(parent_id, self.directories.len())
    }

    /// Everything under directory `parent_id`.
    pub fn get_directory_child_assets(&self, parent_id: Id) -> (r: Vec<Asset>)
        requires
            self@.ids_ordered(),
        ensures
            assets_view(r@) == assets_under(
                self@.directories,
                self@.files,
                Some(parent_id),
                self@.directories.len(),
            ),
    {
        self.assets_below(Some(parent_id), self.directories.len())
    }

    /// The directory as callers see it, with everything below it.
    pub fn map_directory_entity_to_directory_response(&self, directory: &DirectoryEntity) -> (r:
        DirectoryResponse)
        requires
            self@.ids_ordered(),
        ensures
            r@ == directory_response(
                self@.directories,
                self@.files,
                directory@,
                self@.directories.len(),
            ),
    {
        self.directory_with_children(directory, self.directories.len())
    }
}

} // verus!
