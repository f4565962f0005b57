//! The data held by the store and the values exchanged with its callers,
//! each with the mathematical view that the contracts speak of.

use vstd::prelude::*;

verus! {

/// Identifier of a file, a directory or a chunk, each in a namespace of its own.
pub type Id = u64;

/// A SHA-256 digest.
pub type Hash = [u8; 32];

/// The identity of a caller: at most 29 bytes, the unused tail zeroed.
#[derive(Clone, Copy, Debug)]
pub struct Principal {
    pub len: u8,
    pub bytes: [u8; 29],
}

impl Principal {
    /// The identity made of `bytes`, or `None` where they are more than 29.
    pub fn from_slice(bytes: &Vec<u8>) -> (r: Option<Principal>)
        ensures
            bytes@.len() > 29 ==> r.is_none(),
            bytes@.len() <= 29 ==> r.is_some() && r.unwrap().len == bytes@.len()
                && r.unwrap().well_formed()
                && r.unwrap().bytes@.subrange(0, bytes@.len() as int) == bytes@,
    {
        if bytes.len() > 29 {
            return None;
        }
        let mut buf: [u8; 29] = [0u8; 29];
        let mut i: usize = 0;
        while i < bytes.len()
            invariant
                i <= bytes@.len() <= 29,
                forall|j: int| 0 <= j < i ==> buf@[j] == bytes@[j],
                forall|j: int| i <= j < 29 ==> buf@[j] == 0u8,
            decreases bytes@.len() - i,
        {
            buf[i] = bytes[i];
            i += 1;
        }
        let p = Principal { len: bytes.len() as u8, bytes: buf };
        assert(p.bytes@.subrange(0, bytes@.len() as int) =~= bytes@);
        Some(p)
    }

    /// The bytes past `len` are zero, so that equal identities are equal values.
    pub open spec fn well_formed(&self) -> bool {
        &&& self.len <= 29
        &&& forall|j: int| self.len <= j < 29 ==> self.bytes@[j] == 0u8
    }

    /// Whether two identities are the same value.
    pub fn same(&self, other: &Principal) -> (r: bool)
        ensures
            r == (*self == *other),
    {
        if self.len != other.len {
            return false;
        }
        let mut i: usize = 0;
        while i < 29
            invariant
                i <= 29,
                forall|j: int| 0 <= j < i ==> self.bytes@[j] == other.bytes@[j],
            decreases 29 - i,
        {
            if self.bytes[i] != other.bytes[i] {
                return false;
            }
            i += 1;
        }
        assert(self.bytes@ =~= other.bytes@);
        assert(self.bytes == other.bytes);
        true
    }
}

/// Who may read an asset.
#[derive(Debug)]
pub enum Permission {
    Public,
    Private,
    Origin(Vec<String>),
}

/// A permission, its origin as sequences of characters.
pub enum PermissionView {
    Public,
    Private,
    Origin(Seq<Seq<char>>),
}

/// The view of a list of strings.
pub open spec fn strings_view(v: Seq<String>) -> Seq<Seq<char>> {
    v.map_values(|s: String| s@)
}

impl View for Permission {
    type V = PermissionView;

    open spec fn view(&self) -> PermissionView {
        match self {
            Permission::Public => PermissionView::Public,
            Permission::Private => PermissionView::Private,
            Permission::Origin(p) => PermissionView::Origin(strings_view(p@)),
        }
    }
}

/// A copy of a list of strings.
pub fn clone_strings(v: &Vec<String>) -> (r: Vec<String>)
    ensures
        strings_view(r@) == strings_view(v@),
{
    let mut out: Vec<String> = Vec::new();
    let mut i: usize = 0;
    while i < v.len()
        invariant
            i <= v@.len(),
            out@.len() == i,
            forall|j: int| 0 <= j < i ==> out@[j]@ == v@[j]@,
        decreases v@.len() - i,
    {
        out.push(v[i].clone());
        i += 1;
    }
    assert(strings_view(out@) =~= strings_view(v@));
    out
}

impl Clone for Permission {
    fn clone(&self) -> (r: Permission)
        ensures
            r@ == self@,
    {
        match self {
            Permission::Public => Permission::Public,
            Permission::Private => Permission::Private,
            Permission::Origin(p) => Permission::Origin(clone_strings(p)),
        }
    }
}

impl Default for Permission {
    fn default() -> (r: Permission)
        ensures
            r == Permission::Private,
    {
        Permission::Private
    }
}

/// The view of an optional string.
pub open spec fn opt_string_view(s: Option<String>) -> Option<Seq<char>> {
    match s {
        Some(t) => Some(t@),
        None => None,
    }
}

/// A copy of an optional string.
pub fn clone_opt_string(s: &Option<String>) -> (r: Option<String>)
    ensures
        r == *s,
{
    match s {
        Some(t) => Some(t.clone()),
        None => None,
    }
}

/// A copy of a list of identifiers.
pub fn clone_ids(v: &Vec<Id>) -> (r: Vec<Id>)
    ensures
        r@ == v@,
{
    let mut out: Vec<Id> = Vec::new();
    let mut i: usize = 0;
    while i < v.len()
        invariant
            i <= v@.len(),
            out@ == v@.subrange(0, i as int),
        decreases v@.len() - i,
    {
        out.push(v[i]);
        assert(out@ =~= v@.subrange(0, i + 1));
        i += 1;
    }
    assert(out@ =~= v@);
    out
}

/// A copy of a byte buffer.
pub fn clone_bytes(v: &Vec<u8>) -> (r: Vec<u8>)
    ensures
        r@ == v@,
{
    let mut out: Vec<u8> = Vec::new();
    let mut i: usize = 0;
    while i < v.len()
        invariant
            i <= v@.len(),
            out@ == v@.subrange(0, i as int),
        decreases v@.len() - i,
    {
        out.push(v[i]);
        assert(out@ =~= v@.subrange(0, i + 1));
        i += 1;
    }
    assert(out@ =~= v@);
    out
}

/// A directory as the store holds it.
#[derive(Debug)]
pub struct DirectoryEntity {
    pub id: u64,
    pub name: String,
    pub parent_id: Option<Id>,
    pub permission: Permission,
    pub is_protected: bool,
    pub owner: Option<Principal>,
    pub created_at: u64,
    pub updated_at: u64,
}

/// A directory, its texts as sequences of characters.
pub struct DirectoryView {
    pub id: u64,
    pub name: Seq<char>,
    pub parent_id: Option<Id>,
    pub permission: PermissionView,
    pub is_protected: bool,
    pub owner: Option<Principal>,
    pub created_at: u64,
    pub updated_at: u64,
}

impl View for DirectoryEntity {
    type V = DirectoryView;

    open spec fn view(&self) -> DirectoryView {
        DirectoryView {
            id: self.id,
            name: self.name@,
            parent_id: self.parent_id,
            permission: self.permission@,
            is_protected: self.is_protected,
            owner: self.owner,
            created_at: self.created_at,
            updated_at: self.updated_at,
        }
    }
}

impl Clone for DirectoryEntity {
    fn clone(&self) -> (r: DirectoryEntity)
        ensures
            r@ == self@,
    {
        DirectoryEntity {
            id: self.id,
            name: self.name.clone(),
            parent_id: self.parent_id,
            permission: self.permission.clone(),
            is_protected: self.is_protected,
            owner: self.owner,
            created_at: self.created_at,
            updated_at: self.updated_at,
        }
    }
}

/// A file as the store holds it. `chunks` is its manifest: the chunk ids in
/// the order of the content. `hash` is all zero until every chunk has come.
#[derive(Debug)]
pub struct FileEntity {
    pub id: u64,
    pub name: String,
    pub size: u64,
    pub mime_type: String,
    pub extension: String,
    pub permission: Permission,
    pub parent_id: Option<Id>,
    pub chunks: Vec<Id>,
    pub metadata: Option<String>,
    pub is_protected: bool,
    pub owner: Option<Principal>,
    pub created_at: u64,
    pub updated_at: u64,
    pub hash: Hash,
}

/// A file, its texts, manifest and hash as sequences.
pub struct FileView {
    pub id: u64,
    pub name: Seq<char>,
    pub size: u64,
    pub mime_type: Seq<char>,
    pub extension: Seq<char>,
    pub permission: PermissionView,
    pub parent_id: Option<Id>,
    pub chunks: Seq<Id>,
    pub metadata: Option<Seq<char>>,
    pub is_protected: bool,
    pub owner: Option<Principal>,
    pub created_at: u64,
    pub updated_at: u64,
    pub hash: Seq<u8>,
}

impl View for FileEntity {
    type V = FileView;

    open spec fn view(&self) -> FileView {
        FileView {
            id: self.id,
            name: self.name@,
            size: self.size,
            mime_type: self.mime_type@,
            extension: self.extension@,
            permission: self.permission@,
            parent_id: self.parent_id,
            chunks: self.chunks@,
            metadata: opt_string_view(self.metadata),
            is_protected: self.is_protected,
            owner: self.owner,
            created_at: self.created_at,
            updated_at: self.updated_at,
            hash: self.hash@,
        }
    }
}

impl Clone for FileEntity {
    fn clone(&self) -> (r: FileEntity)
        ensures
            r@ == self@,
    {
        FileEntity {
            id: self.id,
            name: self.name.clone(),
            size: self.size,
            mime_type: self.mime_type.clone(),
            extension: self.extension.clone(),
            permission: self.permission.clone(),
            parent_id: self.parent_id,
            chunks: clone_ids(&self.chunks),
            metadata: clone_opt_string(&self.metadata),
            is_protected: self.is_protected,
            owner: self.owner,
            created_at: self.created_at,
            updated_at: self.updated_at,
            hash: self.hash,
        }
    }
}

/// The bytes delivered for one chunk id; empty while none has come.
#[derive(Debug)]
pub struct Chunk {
    pub id: Id,
    pub bytes: Vec<u8>,
}

/// A chunk, its bytes as a sequence.
pub struct ChunkView {
    pub id: Id,
    pub bytes: Seq<u8>,
}

impl View for Chunk {
    type V = ChunkView;

    open spec fn view(&self) -> ChunkView {
        ChunkView { id: self.id, bytes: self.bytes@ }
    }
}

impl Clone for Chunk {
    fn clone(&self) -> (r: Chunk)
        ensures
            r@ == self@,
    {
        Chunk { id: self.id, bytes: clone_bytes(&self.bytes) }
    }
}

/// A file to create: its description, the number of chunks to reserve, and
/// the client's own label for where it came from.
#[derive(Debug)]
pub struct PostFile {
    pub name: String,
    pub size: u64,
    pub mime_type: String,
    pub extension: String,
    pub permission: Permission,
    pub parent_id: Option<Id>,
    pub chunk_count: u64,
    pub metadata: Option<String>,
    pub origin_path: String,
}

/// A directory to create.
#[derive(Debug)]
pub struct PostDirectory {
    pub name: String,
    pub parent_id: Option<Id>,
    pub permission: Permission,
    pub children: Vec<Asset>,
}

/// What one node of an inserted tree asks for.
#[derive(Debug)]
pub enum PostAsset {
    Empty,
    File(PostFile),
    Directory(PostDirectory),
}

impl Default for PostAsset {
    fn default() -> (r: PostAsset)
        ensures
            r == PostAsset::Empty,
    {
        PostAsset::Empty
    }
}

/// A tree of assets to insert; the children of a file node are ignored.
#[derive(Debug)]
pub struct NestedAssets {
    pub asset: PostAsset,
    pub children: Vec<NestedAssets>,
}

/// A file or a directory named by its id.
#[derive(Clone, Copy, Debug)]
pub enum AssetWithId {
    File(Id),
    Directory(Id),
}

/// A file as callers see it: the entity without its hash, with its canonical path.
#[derive(Debug)]
pub struct FileResponse {
    pub id: u64,
    pub name: String,
    pub size: u64,
    pub mime_type: String,
    pub extension: String,
    pub permission: Permission,
    pub parent_id: Option<Id>,
    pub chunks: Vec<Id>,
    pub path: String,
    pub metadata: Option<String>,
    pub is_protected: bool,
    pub owner: Option<Principal>,
    pub created_at: u64,
    pub updated_at: u64,
}

/// A file as callers see it, its texts and manifest as sequences.
pub struct FileResponseView {
    pub id: u64,
    pub name: Seq<char>,
    pub size: u64,
    pub mime_type: Seq<char>,
    pub extension: Seq<char>,
    pub permission: PermissionView,
    pub parent_id: Option<Id>,
    pub chunks: Seq<Id>,
    pub path: Seq<char>,
    pub metadata: Option<Seq<char>>,
    pub is_protected: bool,
    pub owner: Option<Principal>,
    pub created_at: u64,
    pub updated_at: u64,
}

impl View for FileResponse {
    type V = FileResponseView;

    open spec fn view(&self) -> FileResponseView {
        FileResponseView {
            id: self.id,
            name: self.name@,
            size: self.size,
            mime_type: self.mime_type@,
            extension: self.extension@,
            permission: self.permission@,
            parent_id: self.parent_id,
            chunks: self.chunks@,
            path: self.path@,
            metadata: opt_string_view(self.metadata),
            is_protected: self.is_protected,
            owner: self.owner,
            created_at: self.created_at,
            updated_at: self.updated_at,
        }
    }
}

/// A directory as callers see it, with everything below it.
#[derive(Debug)]
pub struct DirectoryResponse {
    pub id: u64,
    pub name: String,
    pub parent_id: Option<Id>,
    pub children: Vec<Asset>,
    pub permission: Permission,
    pub is_protected: bool,
    pub owner: Option<Principal>,
    pub created_at: u64,
    pub updated_at: u64,
}

/// A directory as callers see it, with the views of what lies below it.
pub struct DirectoryResponseView {
    pub id: u64,
    pub name: Seq<char>,
    pub parent_id: Option<Id>,
    pub children: Seq<AssetView>,
    pub permission: PermissionView,
    pub is_protected: bool,
    pub owner: Option<Principal>,
    pub created_at: u64,
    pub updated_at: u64,
}

/// A file or a directory as callers see it.
#[derive(Debug)]
pub enum Asset {
    File(FileResponse),
    Directory(DirectoryResponse),
}

/// A file or a directory as callers see it, as a view.
pub enum AssetView {
    File(FileResponseView),
    Directory(DirectoryResponseView),
}

/// The view of one asset.
pub open spec fn asset_view(a: Asset) -> AssetView
    decreases a, 0nat,
{
    match a {
        Asset::File(f) => AssetView::File(f@),
        Asset::Directory(d) => AssetView::Directory(
            DirectoryResponseView {
                id: d.id,
                name: d.name@,
                parent_id: d.parent_id,
                children: assets_prefix_view(d.children@, d.children@.len()),
                permission: d.permission@,
                is_protected: d.is_protected,
                owner: d.owner,
                created_at: d.created_at,
                updated_at: d.updated_at,
            },
        ),
    }
}

/// The views of the first `n` assets of `v`.
pub open spec fn assets_prefix_view(v: Seq<Asset>, n: nat) -> Seq<AssetView>
    decreases v, n,
{
    if n == 0 || n > v.len() {
        Seq::empty()
    } else {
        assets_prefix_view(v, (n - 1) as nat).push(asset_view(v[n - 1]))
    }
}

/// The views of a list of assets.
pub open spec fn assets_view(v: Seq<Asset>) -> Seq<AssetView> {
    assets_prefix_view(v, v.len())
}

impl View for Asset {
    type V = AssetView;

    open spec fn view(&self) -> AssetView {
        asset_view(*self)
    }
}

impl View for DirectoryResponse {
    type V = DirectoryResponseView;

    open spec fn view(&self) -> DirectoryResponseView {
        DirectoryResponseView {
            id: self.id,
            name: self.name@,
            parent_id: self.parent_id,
            children: assets_view(self.children@),
            permission: self.permission@,
            is_protected: self.is_protected,
            owner: self.owner,
            created_at: self.created_at,
            updated_at: self.updated_at,
        }
    }
}

/// A tree of directory names.
#[derive(Debug)]
pub struct NestedDirectories {
    pub name: String,
    pub children: Vec<NestedDirectories>,
}

/// What the store reports of itself.
#[derive(Debug)]
pub struct Metadata {
    pub cycles: u64,
    pub stable_memory: u64,
    pub heap_memory: u64,
    pub file_count: u64,
    pub directory_count: u64,
    pub files_combined_bytes: u64,
    pub version: String,
}

} // verus!
