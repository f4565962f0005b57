//! The certification index: an authenticated map from a file's certified
//! key to its content hash, kept in a Merkle tree, and the header that
//! proves one entry of it.

use ic_certified_map::AsHashTree;
use ic_certified_map::RbTree;
use sha2::Digest;
use vstd::prelude::*;
use vstd::string::*;
use crate::models::{DirectoryView, FileEntity, FileView};
use crate::paths::certified_key;
use crate::store::Store;

verus! {

/// The red-black hash tree of `ic_certified_map`, opaque to the verifier.
#[verifier::external_type_specification]
#[verifier::external_body]
#[verifier::reject_recursive_types(K)]
#[verifier::reject_recursive_types(V)]
pub struct ExRbTree<K, V>(RbTree<K, V>);

/// The entries that the tree holds: each key with its hash.
pub uninterp spec fn index_entries(t: RbTree<String, [u8; 32]>) -> Map<Seq<char>, Seq<u8>>;

/// The root hash of the tree.
pub uninterp spec fn index_root(t: RbTree<String, [u8; 32]>) -> Seq<u8>;

/// The CBOR encoding of the tree's witness for `key`, under `label`, where
/// the encoder succeeds.
pub uninterp spec fn index_witness(t: RbTree<String, [u8; 32]>, label: Seq<u8>, key: Seq<char>) -> Option<
    Seq<u8>,
>;

/// The hash of a subtree with hash `content` under `label`.
pub uninterp spec fn label_hash(label: Seq<u8>, content: Seq<u8>) -> Seq<u8>;

/// The SHA-256 digest of `data`.
pub uninterp spec fn sha256_digest(data: Seq<u8>) -> Seq<u8>;

/// `data` in standard base64 with padding.
pub uninterp spec fn base64_text(data: Seq<u8>) -> Seq<char>;

/// The entries of an empty index.
pub open spec fn no_entries() -> Map<Seq<char>, Seq<u8>> {
    Map::empty()
}

/// `RbTree::new`: a tree without entries.
#[verifier::external_body]
pub(crate) fn index_new() -> (tree: RbTree<String, [u8; 32]>)
    ensures
        index_entries(tree) == no_entries(),
{
    RbTree::new()
}

/// `RbTree::insert`: afterwards `key` has `value`, whether or not it had
/// one before, and every other key has what it had.
#[verifier::external_body]
pub(crate) fn index_insert(tree: &mut RbTree<String, [u8; 32]>, key: String, value: [u8; 32])
    ensures
        index_entries(*final(tree)) == index_entries(*old(tree)).insert(key@, value@),
{
    tree.insert(key, value);
}

/// `AsHashTree::root_hash` of the tree: its root hash, a value of the tree alone.
#[verifier::external_body]
pub(crate) fn index_root_hash(tree: &RbTree<String, [u8; 32]>) -> (r: [u8; 32])
    ensures
        r@ == index_root(*tree),
{
    tree.root_hash()
}

/// `RbTree::witness` for `key`, wrapped by `labeled` under `label` and
/// written as self-describing CBOR by `serde_cbor`: the bytes, a value of
/// the tree, the label and the key alone, or `None` where the encoder fails.
#[verifier::external_body]
pub(crate) fn index_witness_encoding(tree: &RbTree<String, [u8; 32]>, label: &Vec<u8>, key: &String) -> (r:
    Option<Vec<u8>>)
    ensures
        match r {
            Some(b) => index_witness(*tree, label@, key@) == Some(b@),
            None => index_witness(*tree, label@, key@).is_none(),
        },
{
    let witness = ic_certified_map::labeled(label.as_slice(), tree.witness(key.as_bytes()));
    let mut serializer = serde_cbor::Serializer::new(Vec::new());
    if serializer.self_describe().is_err() {
        return None;
    }
    match serde::Serialize::serialize(&witness, &mut serializer) {
        Ok(_) => Some(serializer.into_inner()),
        Err(_) => None,
    }
}

/// `ic_certified_map::labeled_hash`: the hash of a labeled subtree, a value
/// of the label and the subtree's hash alone.
#[verifier::external_body]
pub(crate) fn labeled_root(label: &Vec<u8>, content: &[u8; 32]) -> (r: [u8; 32])
    ensures
        r@ == label_hash(label@, content@),
{
    ic_certified_map::labeled_hash(label.as_slice(), content)
}

/// `Sha256::digest`: the SHA-256 digest of `data`.
#[verifier::external_body]
pub(crate) fn sha256(data: &Vec<u8>) -> (r: [u8; 32])
    ensures
        r@ == sha256_digest(data@),
{
    sha2::Sha256::digest(data.as_slice()).into()
}

/// `base64::encode`: `data` in standard base64 with padding.
#[verifier::external_body]
pub(crate) fn base64_encode(data: &Vec<u8>) -> (r: String)
    ensures
        r@ == base64_text(data@),
{
    base64::encode(data.as_slice())
}

/// The label under which the index is certified: the bytes of `http_assets`.
pub open spec fn assets_label() -> Seq<u8> {
    seq![104u8, 116u8, 116u8, 112u8, 95u8, 97u8, 115u8, 115u8, 101u8, 116u8, 115u8]
}

/// The label under which the index is certified.
pub fn assets_label_bytes() -> (r: Vec<u8>)
    ensures
        r@ == assets_label(),
{
    let mut v: Vec<u8> = Vec::new();
    v.push(104u8);
    v.push(116u8);
    v.push(116u8);
    v.push(112u8);
    v.push(95u8);
    v.push(97u8);
    v.push(115u8);
    v.push(115u8);
    v.push(101u8);
    v.push(116u8);
    v.push(115u8);
    assert(v@ =~= assets_label());
    v
}

/// The entries that certify the first `n` of `files`: each file's
/// certified key with its hash, a later file replacing an earlier one of
/// the same key.
pub open spec fn entries_of(dirs: Seq<DirectoryView>, files: Seq<FileView>, n: nat) -> Map<
    Seq<char>,
    Seq<u8>,
>
    decreases n,
{
    if n == 0 || n > files.len() {
        no_entries()
    } else {
        entries_of(dirs, files, (n - 1) as nat).insert(
            certified_key(dirs, files[n - 1]),
            files[n - 1].hash,
        )
    }
}

/// The authenticated index from certified key to content hash.
pub struct AssetHashes {
    pub tree: RbTree<String, [u8; 32]>,
}

impl AssetHashes {
    /// The entries of the index.
    pub open spec fn entries(&self) -> Map<Seq<char>, Seq<u8>> {
        index_entries(self.tree)
    }

    /// The root hash of the index.
    pub open spec fn root(&self) -> Seq<u8> {
        index_root(self.tree)
    }

    /// The empty index.
    pub fn new() -> (r: AssetHashes)
        ensures
            r.entries() == no_entries(),
    {
        AssetHashes { tree: index_new() }
    }

    /// Enters `file` under its certified key with its hash.
    pub fn insert(&mut self, file: &FileEntity, store: &Store)
        requires
            store@.ids_ordered(),
        ensures
            final(self).entries() == old(self).entries().insert(
                certified_key(store@.directories, file@),
                file@.hash,
            ),
    {
        let key = store.certified_path(file);
        index_insert(&mut self.tree, key, file.hash);
    }

    /// The index of every file of `store`, entered in the order of the ids.
    pub fn from_store(store: &Store) -> (r: AssetHashes)
        requires
            store@.ids_ordered(),
        ensures
            r.entries() == entries_of(store@.directories, store@.files, store@.files.len()),
    {
        let mut hashes = AssetHashes::new();
        let mut i: usize = 0;
        while i < store.files.len()
            invariant
                i <= store@.files.len(),
                store@.ids_ordered(),
                hashes.entries() == entries_of(store@.directories, store@.files, i as nat),
            decreases store@.files.len() - i,
        {
            hashes.insert(&store.files[i], store);
            i += 1;
        }
        hashes
    }
}

impl Store {
    /// The value to publish as certified data after a change of the index:
    /// the hash of the index's root under the assets label.
    pub fn update_certified_data(asset_hashes: &AssetHashes) -> (r: [u8; 32])
        ensures
            r@ == label_hash(assets_label(), asset_hashes.root()),
    {
        let label = assets_label_bytes();
        let root = index_root_hash(&asset_hashes.tree);
        labeled_root(&label, &root)
    }
}

} // verus!
