use file_manager::certification::AssetHashes;
use file_manager::http::{
    CertificateError, HeaderField, HttpRequest, StreamingCallbackToken, StreamingStrategy,
};
use file_manager::models::{
    Asset, NestedAssets, Permission, PostAsset, PostDirectory, PostFile, Principal,
};
use file_manager::store::{AssetError, Store};
use ic_certified_map::AsHashTree;
use sha2::Digest;

fn who(b: u8) -> Principal {
    Principal::from_slice(&vec![b, 1, 2]).unwrap()
}

fn post_file(name: &str, chunk_count: u64, size: u64) -> NestedAssets {
    NestedAssets {
        asset: PostAsset::File(PostFile {
            name: name.to_string(),
            size,
            mime_type: "text/html".to_string(),
            extension: "html".to_string(),
            permission: Permission::Public,
            parent_id: None,
            chunk_count,
            metadata: None,
            origin_path: format!("local/{}", name),
        }),
        children: vec![],
    }
}

fn post_dir(name: &str, children: Vec<NestedAssets>) -> NestedAssets {
    NestedAssets {
        asset: PostAsset::Directory(PostDirectory {
            name: name.to_string(),
            parent_id: None,
            permission: Permission::Private,
            children: vec![],
        }),
        children,
    }
}

fn get(url: &str) -> HttpRequest {
    HttpRequest { url: url.to_string(), method: "GET".to_string(), headers: vec![], body: vec![] }
}

fn sha(data: &[u8]) -> [u8; 32] {
    sha2::Sha256::digest(data).into()
}

/// A store with directory `docs` owned by `a` and a three-chunk file in it.
fn docs_with_index(a: &Principal) -> (Store, u64, Vec<u64>) {
    let mut store = Store::new();
    let docs = store
        .create_directory("docs".to_string(), Permission::Public, None, a, 10)
        .unwrap();
    let made = store
        .add_assets(Some(docs.id), vec![post_file("index.html", 3, 300)], a, 11)
        .unwrap();
    assert_eq!(made.len(), 1);
    (store, docs.id, made[0].0.chunks.clone())
}

#[test]
fn upload_out_of_order_then_serve() {
    let a = who(1);
    let (mut store, docs_id, chunks) = docs_with_index(&a);
    assert_eq!(chunks.len(), 3);
    let c0 = vec![1u8; 100];
    let c1 = vec![2u8; 100];
    let c2 = vec![3u8; 100];
    let mut hashes = AssetHashes::new();
    let file_id = store.files[0].id;
    assert_eq!(store.files[0].parent_id, Some(docs_id));
    assert_eq!(store.files[0].hash, [0u8; 32]);
    assert!(store.add_chunks(&mut hashes, vec![(chunks[2], c2.clone())]).is_none());
    assert_eq!(store.files[0].hash, [0u8; 32]);
    assert!(store.add_chunks(&mut hashes, vec![(chunks[0], c0.clone())]).is_none());
    let published = store.add_chunks(&mut hashes, vec![(chunks[1], c1.clone())]);
    let mut all = c0.clone();
    all.extend_from_slice(&c1);
    all.extend_from_slice(&c2);
    assert_eq!(store.files[0].hash, sha(&all));
    assert_eq!(
        published,
        Some(ic_certified_map::labeled_hash(b"http_assets", &hashes.tree.root_hash()))
    );
    assert_eq!(hashes.tree.get(b"/docs/index.html"), Some(&sha(&all)));

    let response =
        store.http_request(&hashes, &get("/docs/index.html"), &None, &who(9), vec![]);
    assert_eq!(response.status_code, 200);
    assert_eq!(response.body, c0);
    assert_eq!(response.headers.len(), 3);
    assert_eq!(response.headers[0].0, "content-type");
    assert_eq!(response.headers[0].1, "text/html");
    assert_eq!(response.headers[1].0, "accept-ranges");
    assert_eq!(response.headers[1].1, "bytes");
    assert_eq!(response.headers[2].0, "content-length");
    assert_eq!(response.headers[2].1, "300");
    match response.streaming_strategy {
        Some(StreamingStrategy::Callback { token, callback }) => {
            assert_eq!(token.chunk_index, 1);
            assert_eq!(token.file_id, file_id);
            assert_eq!(token.hash, sha(&all));
            assert_eq!(token.headers.len(), 3);
            assert_eq!(callback.method, "http_request_streaming_callback");
            assert_eq!(callback.principal.bytes, who(9).bytes);
            let next = store.http_request_streaming_callback(&token);
            assert_eq!(next.body, c1);
            let token2 = next.token.unwrap();
            assert_eq!(token2.chunk_index, 2);
            let last = store.http_request_streaming_callback(&token2);
            assert_eq!(last.body, c2);
            assert!(last.token.is_none());
        }
        None => panic!("a file of three chunks is streamed"),
    }
}

#[test]
fn rename_by_another_caller_is_not_owned() {
    let a = who(1);
    let b = who(2);
    let mut store = Store::new();
    let docs = store
        .create_directory("docs".to_string(), Permission::Public, None, &a, 10)
        .unwrap();
    let r = store.change_directory_name(docs.id, "new".to_string(), &b, 20);
    assert_eq!(r.err(), Some(AssetError::NotOwned));
    assert_eq!(store.directories[0].name, "docs");
    let ok = store.change_directory_name(docs.id, "new".to_string(), &a, 21).unwrap();
    assert_eq!(ok.name, "new");
    assert_eq!(ok.updated_at, 21);
    assert_eq!(store.directories[0].name, "new");
}

#[test]
fn any_delivery_order_gives_the_same_hash() {
    let a = who(1);
    let parts: Vec<Vec<u8>> = vec![vec![7u8; 5], vec![8u8; 6], vec![9u8; 7]];
    let mut all = vec![];
    for p in &parts {
        all.extend_from_slice(p);
    }
    let orders: Vec<Vec<usize>> = vec![
        vec![0, 1, 2],
        vec![0, 2, 1],
        vec![1, 0, 2],
        vec![1, 2, 0],
        vec![2, 0, 1],
        vec![2, 1, 0],
    ];
    for order in orders {
        let (mut store, _, chunks) = docs_with_index(&a);
        let mut hashes = AssetHashes::new();
        let batch: Vec<(u64, Vec<u8>)> =
            order.iter().map(|&i| (chunks[i], parts[i].clone())).collect();
        assert!(store.add_chunks(&mut hashes, batch).is_some());
        assert_eq!(store.files[0].hash, sha(&all));
    }
}

#[test]
fn redelivery_keeps_or_changes_the_hash() {
    let a = who(1);
    let (mut store, _, chunks) = docs_with_index(&a);
    let mut hashes = AssetHashes::new();
    let batch = vec![
        (chunks[0], vec![1u8, 2]),
        (chunks[1], vec![3u8]),
        (chunks[2], vec![4u8, 5, 6]),
    ];
    store.add_chunks(&mut hashes, batch.clone());
    let first = store.files[0].hash;
    assert_eq!(first, sha(&[1, 2, 3, 4, 5, 6]));
    store.add_chunks(&mut hashes, batch);
    assert_eq!(store.files[0].hash, first);
    store.add_chunks(&mut hashes, vec![(chunks[1], vec![9u8, 9])]);
    assert_eq!(store.files[0].hash, sha(&[1, 2, 9, 9, 4, 5, 6]));
    assert_eq!(hashes.tree.get(b"/docs/index.html"), Some(&sha(&[1, 2, 9, 9, 4, 5, 6])));
}

#[test]
fn stray_chunks_are_dropped() {
    let a = who(1);
    let (mut store, _, chunks) = docs_with_index(&a);
    let mut hashes = AssetHashes::new();
    assert!(store.add_chunks(&mut hashes, vec![(999, vec![1u8])]).is_none());
    assert_eq!(store.chunks.len(), 3);
    assert!(store.chunks.iter().all(|c| c.bytes.is_empty()));
    assert_eq!(chunks, vec![0, 1, 2]);
    assert!(!store.add_chunk(&mut hashes, 999, vec![1u8]));
}

#[test]
fn guard_refuses_other_callers_and_protection_refuses_all() {
    let a = who(1);
    let b = who(2);
    let (mut store, docs_id, _) = docs_with_index(&a);
    let file_id = store.files[0].id;
    assert_eq!(
        store.change_file_name(file_id, "x.html".to_string(), &b, 30).err(),
        Some(AssetError::NotOwned)
    );
    assert_eq!(store.delete_file(file_id, &b).err(), Some(AssetError::NotOwned));
    assert_eq!(
        store.change_file_parent(file_id, None, &b, 30).err(),
        Some(AssetError::NotOwned)
    );
    assert_eq!(
        store.change_file_permission(file_id, Permission::Private, &b, 30).err(),
        Some(AssetError::NotOwned)
    );
    assert_eq!(store.change_file_owner(file_id, b, &b, 30).err(), Some(AssetError::NotOwned));
    assert_eq!(store.delete_directory(docs_id, &b).err(), Some(AssetError::NotOwned));
    assert_eq!(
        store.change_directory_parent(docs_id, None, &b, 30).err(),
        Some(AssetError::NotOwned)
    );
    store.files[0].is_protected = true;
    assert_eq!(
        store.change_file_name(file_id, "x.html".to_string(), &a, 30).err(),
        Some(AssetError::Protected)
    );
    assert_eq!(store.delete_file(file_id, &a).err(), Some(AssetError::Protected));
    assert_eq!(
        store.change_file_parent(file_id, None, &a, 30).err(),
        Some(AssetError::Protected)
    );
    store.directories[0].is_protected = true;
    assert_eq!(store.delete_directory(docs_id, &a).err(), Some(AssetError::Protected));
    assert_eq!(
        store.change_directory_name(docs_id, "d".to_string(), &a, 30).err(),
        Some(AssetError::Protected)
    );
    assert_eq!(store.files.len(), 1);
    assert_eq!(store.directories.len(), 1);
    assert_eq!(store.delete_file(77, &a).err(), Some(AssetError::NotFound));
    assert_eq!(store.delete_directory(77, &a).err(), Some(AssetError::NotFound));
}

#[test]
fn an_asset_without_owner_is_open_to_all() {
    let a = who(1);
    let b = who(2);
    let (mut store, _, _) = docs_with_index(&a);
    store.files[0].owner = None;
    let id = store.files[0].id;
    let r = store.change_file_name(id, "open.html".to_string(), &b, 40).unwrap();
    assert_eq!(r.name, "open.html");
    assert_eq!(r.path, "docs/open.html");
}

#[test]
fn cascading_delete_spares_what_is_protected() {
    let a = who(1);
    let mut store = Store::new();
    let tree = vec![post_dir(
        "top",
        vec![
            post_file("a.txt", 2, 10),
            post_dir("inner", vec![post_file("b.txt", 1, 5), post_file("keep.txt", 2, 7)]),
            post_dir("empty", vec![]),
        ],
    )];
    let made = store.add_assets(None, tree, &a, 1).unwrap();
    assert_eq!(made.len(), 3);
    assert_eq!(made[0].0.path, "top/a.txt");
    assert_eq!(made[0].1, "local/a.txt");
    assert_eq!(made[1].0.path, "top/inner/b.txt");
    assert_eq!(made[2].0.path, "top/inner/keep.txt");
    assert_eq!(store.directories.len(), 3);
    assert_eq!(store.files.len(), 3);
    assert_eq!(store.chunks.len(), 5);
    // an unrelated file at the root
    store.add_assets(None, vec![post_file("other.txt", 1, 1)], &a, 2).unwrap();
    let keep = store.files.iter().position(|f| f.name == "keep.txt").unwrap();
    store.files[keep].is_protected = true;
    let keep_chunks = store.files[keep].chunks.clone();
    let top = store.directories[0].id;
    assert!(store.delete_directory(top, &a).is_ok());
    assert_eq!(store.directories.len(), 0);
    let names: Vec<String> = store.files.iter().map(|f| f.name.clone()).collect();
    assert_eq!(names, vec!["keep.txt".to_string(), "other.txt".to_string()]);
    let left: Vec<u64> = store.chunks.iter().map(|c| c.id).collect();
    let mut expected = keep_chunks.clone();
    expected.push(5);
    assert_eq!(left, expected);
}

#[test]
fn cascading_delete_keeps_what_lies_under_a_protected_directory() {
    let a = who(1);
    let mut store = Store::new();
    let tree = vec![post_dir(
        "top",
        vec![post_dir("locked", vec![post_file("in.txt", 1, 1)]), post_file("out.txt", 1, 1)],
    )];
    store.add_assets(None, tree, &a, 1).unwrap();
    store.directories[1].is_protected = true;
    let top = store.directories[0].id;
    assert!(store.delete_directory(top, &a).is_ok());
    assert_eq!(store.directories.len(), 1);
    assert_eq!(store.directories[0].name, "locked");
    assert_eq!(store.files.len(), 1);
    assert_eq!(store.files[0].name, "in.txt");
    assert_eq!(store.chunks.len(), 1);
}

#[test]
fn a_directory_cannot_move_below_itself() {
    let a = who(1);
    let mut store = Store::new();
    let x = store.create_directory("x".to_string(), Permission::Public, None, &a, 1).unwrap();
    let y =
        store.create_directory("y".to_string(), Permission::Public, Some(x.id), &a, 2).unwrap();
    let z =
        store.create_directory("z".to_string(), Permission::Public, Some(y.id), &a, 3).unwrap();
    assert_eq!(
        store.change_directory_parent(x.id, Some(z.id), &a, 4).err(),
        Some(AssetError::CyclicParent)
    );
    assert_eq!(
        store.change_directory_parent(x.id, Some(x.id), &a, 4).err(),
        Some(AssetError::CyclicParent)
    );
    assert_eq!(
        store.change_directory_parent(z.id, Some(55), &a, 4).err(),
        Some(AssetError::ParentNotFound)
    );
    let moved = store.change_directory_parent(z.id, None, &a, 5).unwrap();
    assert_eq!(moved.parent_id, None);
    let moved = store.change_directory_parent(x.id, Some(z.id), &a, 6).unwrap();
    assert_eq!(moved.parent_id, Some(z.id));
    assert_eq!(moved.children.len(), 1);
    assert!(store.is_under(y.id, z.id));
    assert!(!store.is_under(z.id, y.id));
}

#[test]
fn witness_verifies_against_the_root_and_for_no_other_hash() {
    let a = who(1);
    let mut store = Store::new();
    let made = store
        .add_assets(None, vec![post_dir("a", vec![post_file("b.txt", 1, 3)])], &a, 1)
        .unwrap();
    let mut hashes = AssetHashes::new();
    let published = store.add_chunks(&mut hashes, vec![(made[0].0.chunks[0], vec![1u8, 2, 3])]);
    let h = sha(&[1, 2, 3]);
    assert_eq!(store.files[0].hash, h);
    let root = hashes.tree.root_hash();
    assert_eq!(hashes.tree.witness(b"/a/b.txt").reconstruct(), root);
    assert_eq!(published, Some(ic_certified_map::labeled_hash(b"http_assets", &root)));
    assert_eq!(Store::update_certified_data(&hashes), published.unwrap());
    let mut other = AssetHashes::new();
    other.tree.insert("/a/b.txt".to_string(), sha(&[9]));
    assert_ne!(other.tree.witness(b"/a/b.txt").reconstruct(), root);
    let rebuilt = AssetHashes::from_store(&store);
    assert_eq!(rebuilt.tree.root_hash(), root);
    assert_eq!(rebuilt.tree.get(b"/a/b.txt"), Some(&h));
}

#[test]
fn certificate_header_carries_certificate_and_witness() {
    let a = who(1);
    let mut store = Store::new();
    let made = store.add_assets(None, vec![post_file("b c.txt", 1, 3)], &a, 1).unwrap();
    assert_eq!(made[0].0.path, "b%20c.txt");
    let mut hashes = AssetHashes::new();
    store.add_chunks(&mut hashes, vec![(made[0].0.chunks[0], vec![1u8, 2, 3])]);
    let certificate = vec![0u8, 255, 16, 32];
    let path = "/b%20c.txt".to_string();
    let header =
        Store::build_asset_certificate_header(&hashes, &path, &Some(certificate.clone()))
            .ok()
            .unwrap();
    let witness = ic_certified_map::labeled(b"http_assets", hashes.tree.witness(path.as_bytes()));
    let mut serializer = serde_cbor::Serializer::new(vec![]);
    serializer.self_describe().unwrap();
    serde::Serialize::serialize(&witness, &mut serializer).unwrap();
    let expected = format!(
        "certificate=:{}:, tree=:{}:",
        base64::encode(&certificate),
        base64::encode(&serializer.into_inner())
    );
    assert_eq!(header.0, "IC-Certificate");
    assert_eq!(header.1, expected);
    assert!(header.1.starts_with("certificate=:AP8QIA==:, tree=:"));
    let none = Store::build_asset_certificate_header(&hashes, &path, &None);
    assert_eq!(none.err(), Some(CertificateError::NoCertificate));
    let response =
        store.http_request(&hashes, &get("/b%20c.txt"), &Some(certificate), &who(9), vec![]);
    assert_eq!(response.status_code, 200);
    assert_eq!(response.headers.len(), 4);
    assert_eq!(response.headers[3].1, expected);
    assert!(response.streaming_strategy.is_none());
    let spaced = store.http_request(&hashes, &get("/b c.txt"), &None, &who(9), vec![]);
    assert_eq!(spaced.status_code, 404);
}

#[test]
fn requests_resolve_with_index_fallback() {
    let a = who(1);
    let (mut store, _, chunks) = docs_with_index(&a);
    store.add_assets(None, vec![post_file("index.html", 1, 4)], &a, 12).unwrap();
    let mut hashes = AssetHashes::new();
    store.add_chunks(
        &mut hashes,
        vec![
            (chunks[0], vec![1u8]),
            (chunks[1], vec![2u8]),
            (chunks[2], vec![3u8]),
            (3, vec![b'r', b'o', b'o', b't']),
        ],
    );
    let me = who(9);
    let root = store.http_request(&hashes, &get("/"), &None, &me, vec![]);
    assert_eq!(root.status_code, 200);
    assert_eq!(root.body, b"root".to_vec());
    assert_eq!(root.headers[2].1, "4");
    let missing = store.http_request(&hashes, &get("/nothing.txt"), &None, &me, vec![]);
    assert_eq!(missing.body, b"root".to_vec());
    let in_docs = store.http_request(&hashes, &get("/docs/absent"), &None, &me, vec![]);
    assert_eq!(in_docs.status_code, 200);
    assert_eq!(in_docs.body, vec![1u8]);
    let only_dir = store.http_request(&hashes, &get("/docs"), &None, &me, vec![]);
    assert_eq!(only_dir.status_code, 404);
    let listing =
        store.http_request(&hashes, &get("//directories/"), &None, &me, b"[]".to_vec());
    assert_eq!(listing.status_code, 200);
    assert_eq!(listing.body, b"[]".to_vec());
    assert!(listing.headers.is_empty());
    let mut post = get("/docs/index.html");
    post.method = "POST".to_string();
    let refused = store.http_request(&hashes, &post, &None, &me, vec![]);
    assert_eq!(refused.status_code, 404);
    assert!(refused.body.is_empty());
    let gone = store.http_request_streaming_callback(&StreamingCallbackToken {
        file_id: 99,
        headers: vec![HeaderField("a".to_string(), "b".to_string())],
        chunk_index: 1,
        hash: [0u8; 32],
    });
    assert!(gone.body.is_empty());
    assert!(gone.token.is_none());
}

#[test]
fn insert_replaces_what_it_may_and_reports_what_it_may_not() {
    let a = who(1);
    let b = who(2);
    let mut store = Store::new();
    store.add_assets(None, vec![post_file("one.txt", 1, 1), post_dir("d", vec![])], &a, 1).unwrap();
    // the same caller replaces both
    let made = store
        .add_assets(None, vec![post_file("one.txt", 2, 2), post_dir("d", vec![])], &a, 2)
        .unwrap();
    assert_eq!(made.len(), 1);
    assert_eq!(made[0].0.id, 1);
    assert_eq!(made[0].0.chunks, vec![1, 2]);
    assert_eq!(store.files.len(), 1);
    assert_eq!(store.directories.len(), 1);
    assert_eq!(store.directories[0].id, 1);
    assert_eq!(store.chunks.len(), 2);
    // another caller is stopped by both, and nothing changes
    let r = store.add_assets(None, vec![post_file("one.txt", 1, 1), post_dir("d", vec![])], &b, 3);
    let (blocking, kind) = r.err().unwrap();
    assert_eq!(kind, AssetError::Blocked);
    assert_eq!(blocking.len(), 2);
    match &blocking[0] {
        Asset::File(f) => assert_eq!(f.id, 1),
        Asset::Directory(_) => panic!("the file comes first"),
    }
    match &blocking[1] {
        Asset::Directory(d) => assert_eq!(d.id, 1),
        Asset::File(_) => panic!("the directory comes second"),
    }
    assert_eq!(store.files.len(), 1);
    assert_eq!(store.directories.len(), 1);
    assert_eq!(store.file_id, 2);
    // under a parent of another owner nothing is inserted
    let r = store.add_assets(Some(1), vec![post_file("x", 1, 1)], &b, 4);
    let (blocking, kind) = r.err().unwrap();
    assert!(blocking.is_empty());
    assert_eq!(kind, AssetError::NotOwned);
    let r = store.add_assets(Some(42), vec![post_file("x", 1, 1)], &a, 4);
    assert_eq!(r.err().unwrap().1, AssetError::ParentNotFound);
    store.directories[0].is_protected = true;
    let r = store.add_assets(Some(1), vec![post_file("x", 1, 1)], &a, 4);
    assert_eq!(r.err().unwrap().1, AssetError::Protected);
}

#[test]
fn names_are_checked_and_duplicates_seen_below_the_renamed() {
    let a = who(1);
    let mut store = Store::new();
    for bad in ["a/b", "a*b", "a\\b", "a:b", "a?b", "a\"b", "a<b", "a>b", "a'b"] {
        assert_eq!(
            store.create_directory(bad.to_string(), Permission::Public, None, &a, 1).err(),
            Some(AssetError::InvalidName)
        );
    }
    let d = store.create_directory("d".to_string(), Permission::Public, None, &a, 1).unwrap();
    assert_eq!(d.id, 0);
    assert_eq!(d.created_at, 1);
    assert!(!d.is_protected);
    assert_eq!(d.owner.unwrap().bytes, a.bytes);
    store.create_directory("e".to_string(), Permission::Public, Some(d.id), &a, 1).unwrap();
    assert_eq!(
        store.change_directory_name(d.id, "e".to_string(), &a, 2).err(),
        Some(AssetError::DuplicateName)
    );
    assert_eq!(
        store.change_directory_name(d.id, "e/".to_string(), &a, 2).err(),
        Some(AssetError::InvalidName)
    );
    // a sibling of the same name is not seen
    store.create_directory("s".to_string(), Permission::Public, None, &a, 1).unwrap();
    assert!(store.change_directory_name(d.id, "s".to_string(), &a, 2).is_ok());
    assert_eq!(
        store.create_directory("n".to_string(), Permission::Public, Some(77), &a, 1).err(),
        Some(AssetError::ParentNotFound)
    );
}

#[test]
fn tree_and_metadata() {
    let a = who(1);
    let mut store = Store::new();
    let tree = vec![
        post_dir("top", vec![post_file("a.txt", 1, 10), post_dir("in", vec![post_file("b", 0, 5)])]),
        post_file("r.txt", 1, 7),
    ];
    store.add_assets(None, tree, &a, 1).unwrap();
    let assets = store.get_assets_tree(None);
    assert_eq!(assets.len(), 2);
    match &assets[0] {
        Asset::Directory(d) => {
            assert_eq!(d.name, "top");
            assert_eq!(d.children.len(), 2);
            match &d.children[0] {
                Asset::Directory(inner) => {
                    assert_eq!(inner.name, "in");
                    assert_eq!(inner.children.len(), 1);
                }
                Asset::File(_) => panic!("directories come first"),
            }
            match &d.children[1] {
                Asset::File(f) => assert_eq!(f.path, "top/a.txt"),
                Asset::Directory(_) => panic!("files come last"),
            }
        }
        Asset::File(_) => panic!("directories come first"),
    }
    let below = store.get_directory_child_assets(0);
    assert_eq!(below.len(), 2);
    let m = store.get_metadata(1, 2, 3);
    assert_eq!(m.cycles, 1);
    assert_eq!(m.heap_memory, 2);
    assert_eq!(m.stable_memory, 3);
    assert_eq!(m.file_count, 3);
    assert_eq!(m.directory_count, 2);
    assert_eq!(m.files_combined_bytes, 22);
    assert_eq!(m.version, "0.0.1");
    let found = store.find_file(Some(1), &"b".to_string()).unwrap();
    assert_eq!(found.id, 1);
    assert!(store.find_file(None, &"b".to_string()).is_none());
    let dir = store.find_directory(Some(0), &"in".to_string()).unwrap();
    assert_eq!(dir.id, 1);
    let f = store.change_file_parent(2, Some(1), &a, 9).unwrap();
    assert_eq!(f.path, "top/in/r.txt");
    assert_eq!(f.updated_at, 9);
}

#[test]
fn a_store_is_checked_before_it_is_relied_on() {
    let a = who(1);
    let (mut store, docs_id, _) = docs_with_index(&a);
    assert!(store.is_well_formed());
    assert!(store.ids_in_order());
    assert!(store.manifests_are_reserved());
    assert!(store.walk_ends(docs_id));
    assert_eq!(store.combined_bytes(), Some(300));
    // a chunk that two manifests name
    let mut twice = docs_with_index(&a).0;
    twice.add_assets(None, vec![post_file("n", 1, 1)], &a, 5).unwrap();
    twice.files[1].chunks = vec![0];
    assert!(!twice.manifests_are_reserved());
    assert!(!twice.is_well_formed());
    // a manifest whose chunk is not held
    let mut lost = docs_with_index(&a).0;
    lost.chunks.remove(1);
    assert!(!lost.is_well_formed());
    // a directory that is its own parent
    store.directories[0].parent_id = Some(docs_id);
    assert!(!store.walk_ends(docs_id));
    assert!(!store.is_well_formed());
    // a parent that was never made
    store.directories[0].parent_id = Some(7);
    assert!(!store.is_well_formed());
    // ids out of order
    let mut unordered = docs_with_index(&a).0;
    unordered.file_id = 0;
    assert!(!unordered.ids_in_order());
    // sizes that do not add up in 64 bits
    let mut big = Store::new();
    big.add_assets(None, vec![post_file("a", 0, u64::MAX), post_file("b", 0, 1)], &a, 1).unwrap();
    assert_eq!(big.combined_bytes(), None);
}

#[test]
fn room_for_an_insertion_is_counted() {
    let a = who(1);
    let mut store = Store::new();
    let tree = vec![post_dir("d", vec![post_file("f", 3, 1), post_dir("e", vec![])]), post_file("g", 2, 1)];
    let counts = file_manager::checks::count_demand(&tree).unwrap();
    assert_eq!(counts.files, 2);
    assert_eq!(counts.directories, 2);
    assert_eq!(counts.chunks, 5);
    assert!(store.has_room_for(&tree));
    store.chunk_id = u64::MAX - 4;
    assert!(!store.has_room_for(&tree));
    store.chunk_id = u64::MAX - 5;
    assert!(store.has_room_for(&tree));
    let huge = vec![post_file("x", u64::MAX, 1), post_file("y", 1, 1)];
    assert!(file_manager::checks::count_demand(&huge).is_none());
    assert!(!store.has_room_for(&huge));
    assert_eq!(file_manager::checks::sum(u64::MAX, 1), None);
    assert_eq!(file_manager::checks::sum(2, 3), Some(5));
    store.chunk_id = 0;
    let made = store.add_assets(None, tree, &a, 1).unwrap();
    assert_eq!(made.len(), 2);
    assert_eq!(store.chunk_id, 5);
    assert_eq!(store.file_id, 2);
    assert_eq!(store.directory_id, 2);
}
