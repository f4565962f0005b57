//! Serving files: a request path is resolved to a file, the response
//! carries the first chunk and a certificate header, and a token lets the
//! caller pull the chunks that follow.

use vstd::prelude::*;
use vstd::string::*;
use crate::certification::{
    assets_label, assets_label_bytes, base64_encode, base64_text, index_witness,
    index_witness_encoding, AssetHashes,
};
use crate::directories::first_directory;
use crate::files::first_file;
use crate::models::{clone_bytes, clone_ids, strings_view, FileEntity, FileView, Id, Principal};
use crate::paths::certified_key;
use crate::store::{lemma_positions, Store, StoreView};
use crate::text::{decimal, decimal_string, escape_spaces, escaped, segments, split_path};

verus! {

/// A header: its name and its value.
#[derive(Debug)]
pub struct HeaderField(pub String, pub String);

/// The views of a list of headers.
pub open spec fn headers_view(v: Seq<HeaderField>) -> Seq<(Seq<char>, Seq<char>)> {
    v.map_values(|h: HeaderField| (h.0@, h.1@))
}

/// A copy of a list of headers.
pub fn clone_headers(v: &Vec<HeaderField>) -> (r: Vec<HeaderField>)
    ensures
        headers_view(r@) == headers_view(v@),
{
    let mut out: Vec<HeaderField> = Vec::new();
    let mut i: usize = 0;
    while i < v.len()
        invariant
            i <= v@.len(),
            out@.len() == i,
            forall|j: int| 0 <= j < i ==> out@[j].0@ == v@[j].0@ && out@[j].1@ == v@[j].1@,
        decreases v@.len() - i,
    {
        out.push(HeaderField(v[i].0.clone(), v[i].1.clone()));
        i += 1;
    }
    assert(headers_view(out@) =~= headers_view(v@));
    out
}

/// A request as it comes from the host.
#[derive(Debug)]
pub struct HttpRequest {
    pub url: String,
    pub method: String,
    pub headers: Vec<HeaderField>,
    pub body: Vec<u8>,
}

/// A method of a canister, to be called for the next chunk.
#[derive(Debug)]
pub struct Func {
    pub principal: Principal,
    pub method: String,
}

/// The cursor of a streamed body: the file, the headers of the first
/// response, the index of the chunk to send next, and the file's hash.
#[derive(Debug)]
pub struct StreamingCallbackToken {
    pub file_id: u64,
    pub headers: Vec<HeaderField>,
    pub chunk_index: usize,
    pub hash: [u8; 32],
}

/// A token, its headers and hash as sequences.
pub struct TokenView {
    pub file_id: u64,
    pub headers: Seq<(Seq<char>, Seq<char>)>,
    pub chunk_index: usize,
    pub hash: Seq<u8>,
}

impl View for StreamingCallbackToken {
    type V = TokenView;

    open spec fn view(&self) -> TokenView {
        TokenView {
            file_id: self.file_id,
            headers: headers_view(self.headers@),
            chunk_index: self.chunk_index,
            hash: self.hash@,
        }
    }
}

/// How the rest of a body is to be fetched.
#[derive(Debug)]
pub enum StreamingStrategy {
    Callback { token: StreamingCallbackToken, callback: Func },
}

/// A streaming strategy: its token, and the canister and method to call.
pub struct StrategyView {
    pub token: TokenView,
    pub principal: Principal,
    pub method: Seq<char>,
}

impl View for StreamingStrategy {
    type V = StrategyView;

    open spec fn view(&self) -> StrategyView {
        match self {
            StreamingStrategy::Callback { token, callback } => StrategyView {
                token: token@,
                principal: callback.principal,
                method: callback.method@,
            },
        }
    }
}

/// A response to a request.
#[derive(Debug)]
pub struct HttpResponse {
    pub body: Vec<u8>,
    pub headers: Vec<HeaderField>,
    pub status_code: u16,
    pub streaming_strategy: Option<StreamingStrategy>,
}

/// A response, its body and headers as sequences.
pub struct ResponseView {
    pub body: Seq<u8>,
    pub headers: Seq<(Seq<char>, Seq<char>)>,
    pub status_code: u16,
    pub streaming_strategy: Option<StrategyView>,
}

impl View for HttpResponse {
    type V = ResponseView;

    open spec fn view(&self) -> ResponseView {
        ResponseView {
            body: self.body@,
            headers: headers_view(self.headers@),
            status_code: self.status_code,
            streaming_strategy: match self.streaming_strategy {
                Some(s) => Some(s@),
                None => None,
            },
        }
    }
}

/// The answer to a continuation call: a chunk, and the token for the next
/// one where one follows.
#[derive(Debug)]
pub struct StreamingCallbackHttpResponse {
    pub body: Vec<u8>,
    pub token: Option<StreamingCallbackToken>,
}

/// What of a file the streaming of its body needs.
#[derive(Debug)]
pub struct AssetEncoding {
    pub content_chunks: Vec<u64>,
    pub bytes_length: u128,
    pub hash: [u8; 32],
}

/// A response with the path segments that it answers.
#[derive(Debug)]
pub struct PathEntry {
    pub match_path: Vec<String>,
    pub response: HttpResponse,
}

/// Why no certificate header could be made.
#[derive(Clone, Copy, Debug, PartialEq, Eq, Structural)]
pub enum CertificateError {
    /// The host holds no certificate for this call.
    NoCertificate,
    /// The witness could not be encoded.
    Encoding,
}

/// How far the resolution of a path has come: inside the directory at a
/// position, or settled on a file position or on none.
pub enum Walk {
    In(int),
    Settled(Option<int>),
}

/// The name of the file that stands for its directory.
pub open spec fn index_name() -> Seq<char> {
    "index.html"@
}

/// The file under `parent` that answers to `section`, or else the index file there.
pub open spec fn file_or_index(s: StoreView, parent: Option<Id>, section: Seq<char>) -> Option<int> {
    match first_file(s.files, parent, section, s.files.len()) {
        Some(i) => Some(i),
        None => first_file(s.files, parent, index_name(), s.files.len()),
    }
}

/// One step of the resolution, at `section`, from the directory `parent`.
pub open spec fn step(s: StoreView, parent: Option<Id>, section: Seq<char>) -> Walk {
    match first_directory(s.directories, parent, section, s.directories.len()) {
        Some(d) => Walk::In(d),
        None => Walk::Settled(file_or_index(s, parent, section)),
    }
}

/// The resolution after the first `n` segments of a path that has some:
/// each segment that names a directory under the current one descends; the
/// first that does not settles the walk on a file there, or on none.
pub open spec fn walk(s: StoreView, path: Seq<Seq<char>>, n: nat) -> Walk
    decreases n,
{
    if n <= 1 || n > path.len() {
        step(s, None, path[0])
    } else {
        match walk(s, path, (n - 1) as nat) {
            Walk::Settled(f) => Walk::Settled(f),
            Walk::In(d) => step(s, Some(s.directories[d].id), path[n - 1]),
        }
    }
}

/// The position of the file that a path resolves to, if it resolves.
pub open spec fn resolved(s: StoreView, path: Seq<Seq<char>>) -> Option<int> {
    if path.len() == 0 {
        first_file(s.files, None, index_name(), s.files.len())
    } else {
        match walk(s, path, path.len()) {
            Walk::Settled(f) => f,
            Walk::In(_) => None,
        }
    }
}

/// The bytes held for the chunk at `index` of the manifest; none where the
/// manifest is shorter or the chunk is not held.
pub open spec fn chunk_body(s: StoreView, manifest: Seq<Id>, index: int) -> Seq<u8> {
    if 0 <= index < manifest.len() && s.has_chunk(manifest[index]) {
        s.chunk(manifest[index])
    } else {
        Seq::empty()
    }
}

/// The certificate header for `key`: none without a certificate or where
/// the witness cannot be encoded.
pub open spec fn certificate_header(
    hashes: AssetHashes,
    key: Seq<char>,
    certificate: Option<Seq<u8>>,
) -> Result<(Seq<char>, Seq<char>), CertificateError> {
    match certificate {
        None => Err(CertificateError::NoCertificate),
        Some(c) => match index_witness(hashes.tree, assets_label(), key) {
            None => Err(CertificateError::Encoding),
            Some(w) => Ok(
                (
                    "IC-Certificate"@,
                    "certificate=:"@ + base64_text(c) + ":, tree=:"@ + base64_text(w) + ":"@,
                ),
            ),
        },
    }
}

/// The token for the chunk after `chunk_index`, where one follows.
pub open spec fn next_token(
    file_id: Id,
    chunk_index: usize,
    chunks: Seq<Id>,
    hash: Seq<u8>,
    headers: Seq<(Seq<char>, Seq<char>)>,
) -> Option<TokenView> {
    if chunk_index + 1 >= chunks.len() {
        None
    } else {
        Some(
            TokenView {
                file_id: file_id,
                headers: headers,
                chunk_index: (chunk_index + 1) as usize,
                hash: hash,
            },
        )
    }
}

/// The name of the method that serves the chunks after the first.
pub open spec fn callback_name() -> Seq<char> {
    "http_request_streaming_callback"@
}

/// The headers of the response for file `f`.
pub open spec fn file_headers(
    s: StoreView,
    hashes: AssetHashes,
    f: FileView,
    certificate: Option<Seq<u8>>,
) -> Seq<(Seq<char>, Seq<char>)> {
    let plain = seq![
        ("content-type"@, f.mime_type),
        ("accept-ranges"@, "bytes"@),
        ("content-length"@, decimal(f.size as nat)),
    ];
    match certificate_header(hashes, certified_key(s.directories, f), certificate) {
        Ok(h) => plain.push(h),
        Err(_) => plain,
    }
}

/// The response for file `f`: status 200, its headers, its first chunk,
/// and a token where more chunks follow.
pub open spec fn file_reply(
    s: StoreView,
    hashes: AssetHashes,
    f: FileView,
    certificate: Option<Seq<u8>>,
    canister: Principal,
) -> ResponseView {
    let headers = file_headers(s, hashes, f, certificate);
    ResponseView {
        body: chunk_body(s, f.chunks, 0),
        headers: headers,
        status_code: 200,
        streaming_strategy: match next_token(f.id, 0, f.chunks, f.hash, headers) {
            Some(t) => Some(
                StrategyView { token: t, principal: canister, method: callback_name() },
            ),
            None => None,
        },
    }
}

/// The response that says that nothing was found.
pub open spec fn not_found_reply() -> ResponseView {
    ResponseView {
        body: Seq::empty(),
        headers: Seq::empty(),
        status_code: 404,
        streaming_strategy: None,
    }
}

/// Whether each segment is written as its own escaped form.
pub open spec fn all_escaped(path: Seq<Seq<char>>) -> bool {
    forall|i: int| 0 <= i < path.len() ==> escaped(#[trigger] path[i]) == path[i]
}

/// The response to a request: for another method than `GET`, not found;
/// for the path `directories`, the listing; for a path that resolves to a
/// file and is written in escaped form, the file's reply; else not found.
pub open spec fn reply(
    s: StoreView,
    hashes: AssetHashes,
    method: Seq<char>,
    url: Seq<char>,
    certificate: Option<Seq<u8>>,
    canister: Principal,
    listing: Seq<u8>,
) -> ResponseView {
    let path = segments(url);
    if method != "GET"@ {
        not_found_reply()
    } else if path == seq!["directories"@] {
        ResponseView {
            body: listing,
            headers: Seq::empty(),
            status_code: 200,
            streaming_strategy: None,
        }
    } else if resolved(s, path).is_some() && all_escaped(path) {
        file_reply(s, hashes, s.files[resolved(s, path).unwrap()], certificate, canister)
    } else {
        not_found_reply()
    }
}

/// The view of an optional byte buffer.
pub open spec fn opt_bytes_view(b: Option<Vec<u8>>) -> Option<Seq<u8>> {
    match b {
        Some(v) => Some(v@),
        None => None,
    }
}

impl Store {
    /// The token for the chunk after `chunk_index`, where one follows.
    pub fn create_token(
        file_id: &u64,
        chunk_index: usize,
        encoding: &AssetEncoding,
        headers: &Vec<HeaderField>,
    ) -> (r: Option<StreamingCallbackToken>)
        ensures
            match r {
                Some(t) => next_token(
                    *file_id,
                    chunk_index,
                    encoding.content_chunks@,
                    encoding.hash@,
                    headers_view(headers@),
                ) == Some(t@),
                None => next_token(
                    *file_id,
                    chunk_index,
                    encoding.content_chunks@,
                    encoding.hash@,
                    headers_view(headers@),
                ).is_none(),
            },
    {
        if chunk_index >= encoding.content_chunks.len() || chunk_index + 1
            >= encoding.content_chunks.len() {
            return None;
        }
        Some(
            StreamingCallbackToken {
                file_id: *file_id,
                headers: clone_headers(headers),
                chunk_index: chunk_index + 1,
                hash: encoding.hash,
            },
        )
    }

    /// How the chunks after the first are fetched, where there are any.
    pub fn streaming_strategy(
        file_id: &u64,
        encoding: &AssetEncoding,
        headers: &Vec<HeaderField>,
        canister: &Principal,
    ) -> (r: Option<StreamingStrategy>)
        ensures
            match r {
                Some(st) => next_token(
                    *file_id,
                    0,
                    encoding.content_chunks@,
                    encoding.hash@,
                    headers_view(headers@),
                ).is_some() && st@ == (StrategyView {
                    token: next_token(
                        *file_id,
                        0,
                        encoding.content_chunks@,
                        encoding.hash@,
                        headers_view(headers@),
                    ).unwrap(),
                    principal: *canister,
                    method: callback_name(),
                }),
                None => next_token(
                    *file_id,
                    0,
                    encoding.content_chunks@,
                    encoding.hash@,
                    headers_view(headers@),
                ).is_none(),
            },
    {
        match Store::create_token(file_id, 0, encoding, headers) {
            Some(token) => Some(
                StreamingStrategy::Callback {
                    token,
                    callback: Func {
                        principal: *canister,
                        method: String::from_str("http_request_streaming_callback"),
                    },
                },
            ),
            None => None,
        }
    }

    /// The header that certifies the entry for `path`, from the host's
    /// certificate and the index's witness.
    pub fn build_asset_certificate_header(
        asset_hashes: &AssetHashes,
        path: &String,
        certificate: &Option<Vec<u8>>,
    ) -> (r: Result<HeaderField, CertificateError>)
        ensures
            match r {
                Ok(h) => certificate_header(*asset_hashes, path@, opt_bytes_view(*certificate))
                    == Ok::<(Seq<char>, Seq<char>), CertificateError>((h.0@, h.1@)),
                Err(e) => certificate_header(*asset_hashes, path@, opt_bytes_view(*certificate))
                    == Err::<(Seq<char>, Seq<char>), CertificateError>(e),
            },
    {
        match certificate {
            None => Err(CertificateError::NoCertificate),
            Some(c) => {
                let label = assets_label_bytes();
                match index_witness_encoding(&asset_hashes.tree, &label, path) {
                    None => Err(CertificateError::Encoding),
                    Some(w) => {
                        let mut value = String::from_str("certificate=:");
                        value.append(base64_encode(c).as_str());
                        value.append(":, tree=:");
                        value.append(base64_encode(&w).as_str());
                        value.append(":");
                        Ok(HeaderField(String::from_str("IC-Certificate"), value))
                    },
                }
            },
        }
    }

    /// The bytes held for the chunk at `index` of the manifest.
    pub fn chunk_at(&self, manifest: &Vec<Id>, index: usize) -> (r: Vec<u8>)
        requires
            self@.ids_ordered(),
        ensures
            r@ == chunk_body(self@, manifest@, index as int),
    {
        proof {
            lemma_positions(self@);
        }
        if index >= manifest.len() {
            return Vec::new();
        }
        match self.chunk_index(manifest[index]) {
            None => Vec::new(),
            Some(c) => clone_bytes(&self.chunks[c].bytes),
        }
    }

    /// The file under `parent` that answers to `section`, or else the index file there.
    pub fn find_file_or_index(&self, parent: Option<Id>, section: &String) -> (r: Option<FileEntity>)
        ensures
            match file_or_index(self@, parent, section@) {
                Some(i) => r.is_some() && r.unwrap()@ == self@.files[i] && 0 <= i
                    < self@.files.len(),
                None => r.is_none(),
            },
    {
        match self.find_file(parent, section) {
            Some(f) => Some(f),
            None => {
                let index = String::from_str("index.html");
                self.find_file(parent, &index)
            },
        }
    }

    /// The file that the path resolves to.
    pub fn resolve(&self, path: &Vec<String>) -> (r: Option<FileEntity>)
        ensures
            match resolved(self@, strings_view(path@)) {
                Some(i) => r.is_some() && r.unwrap()@ == self@.files[i] && 0 <= i
                    < self@.files.len(),
                None => r.is_none(),
            },
    {
        let ghost p = strings_view(path@);
        if path.len() == 0 {
            let index = String::from_str("index.html");
            return self.find_file(None, &index);
        }
        let mut current: Id = match self.find_directory(None, &path[0]) {
            Some(d) => d.id,
            None => {
                proof {
                    lemma_walk_settled(self@, p, 1, p.len());
                }
                return self.find_file_or_index(None, &path[0]);
            },
        };
        let mut i: usize = 1;
        while i < path.len()
            invariant
                1 <= i <= path@.len(),
                p == strings_view(path@),
                match walk(self@, p, i as nat) {
                    Walk::In(d) => 0 <= d < self@.directories.len() && self@.directories[d].id
                        == current,
                    Walk::Settled(_) => false,
                },
            decreases path@.len() - i,
        {
            match self.find_directory(Some(current), &path[i]) {
                Some(d) => {
                    current = d.id;
                },
                None => {
                    let found = self.find_file_or_index(Some(current), &path[i]);
                    proof {
                        lemma_walk_settled(self@, p, (i + 1) as nat, p.len());
                    }
                    return found;
                },
            }
            i += 1;
        }
        None
    }

    /// The response for the file that the path resolves to, with the path.
    pub fn get_file_by_path(
        &self,
        asset_hashes: &AssetHashes,
        path: &Vec<String>,
        certificate: &Option<Vec<u8>>,
        canister: &Principal,
    ) -> (r: Option<PathEntry>)
        requires
            self@.ids_ordered(),
        ensures
            match resolved(self@, strings_view(path@)) {
                Some(i) => r.is_some() && strings_view(r.unwrap().match_path@) == strings_view(
                    path@,
                ) && r.unwrap().response@ == file_reply(
                    self@,
                    *asset_hashes,
                    self@.files[i],
                    opt_bytes_view(*certificate),
                    *canister,
                ),
                None => r.is_none(),
            },
    {
        let file = match self.resolve(path) {
            Some(f) => f,
            None => {
                return None;
            },
        };
        let mut headers: Vec<HeaderField> = Vec::new();
        headers.push(HeaderField(String::from_str("content-type"), file.mime_type.clone()));
        headers.push(HeaderField(String::from_str("accept-ranges"), String::from_str("bytes")));
        headers.push(HeaderField(String::from_str("content-length"), decimal_string(file.size)));
        assert(headers_view(headers@) =~= seq![
            ("content-type"@, file@.mime_type),
            ("accept-ranges"@, "bytes"@),
            ("content-length"@, decimal(file@.size as nat)),
        ]);
        let key = self.certified_path(&file);
        match Store::build_asset_certificate_header(asset_hashes, &key, certificate) {
            Ok(h) => {
                let ghost before = headers_view(headers@);
                let ghost hv = (h.0@, h.1@);
                headers.push(h);
                assert(headers_view(headers@) =~= before.push(hv));
            },
            Err(_) => {},
        }
        let encoding = AssetEncoding {
            content_chunks: clone_ids(&file.chunks),
            bytes_length: file.size as u128,
            hash: file.hash,
        };
        let body = self.chunk_at(&file.chunks, 0);
        let strategy = Store::streaming_strategy(&file.id, &encoding, &headers, canister);
        Some(
            PathEntry {
                match_path: crate::models::clone_strings(path),
                response: HttpResponse {
                    status_code: 200,
                    headers,
                    body,
                    streaming_strategy: strategy,
                },
            },
        )
    }

    /// Whether each segment is written as its own escaped form.
    pub fn is_escaped_path(path: &Vec<String>) -> (r: bool)
        ensures
            r == all_escaped(strings_view(path@)),
    {
        let mut i: usize = 0;
        while i < path.len()
            invariant
                i <= path@.len(),
                forall|j: int|
                    0 <= j < i ==> escaped(#[trigger] strings_view(path@)[j]) == strings_view(
                        path@,
                    )[j],
            decreases path@.len() - i,
        {
            let e = escape_spaces(&path[i]);
            if !(e == path[i]) {
                assert(escaped(strings_view(path@)[i as int]) != strings_view(path@)[i as int]);
                return false;
            }
            i += 1;
        }
        true
    }

    /// Answers a request. `certificate` is the host's certificate for this
    /// call, if it holds one; `canister` is the canister that serves the
    /// chunks after the first; `listing` is the body for the path
    /// `directories`.
    pub fn http_request(
        &self,
        asset_hashes: &AssetHashes,
        req: &HttpRequest,
        certificate: &Option<Vec<u8>>,
        canister: &Principal,
        listing: Vec<u8>,
    ) -> (r: HttpResponse)
        requires
            self@.ids_ordered(),
        ensures
            r@ == reply(
                self@,
                *asset_hashes,
                req.method@,
                req.url@,
                opt_bytes_view(*certificate),
                *canister,
                listing@,
            ),
    {
        let path = split_path(&req.url);
        let get = String::from_str("GET");
        if !(req.method == get) {
            return Store::not_found();
        }
        let directories = String::from_str("directories");
        if path.len() == 1 && path[0] == directories {
            assert(strings_view(path@) =~= seq!["directories"@]);
            let r = HttpResponse {
                status_code: 200,
                headers: Vec::new(),
                body: listing,
                streaming_strategy: None,
            };
            assert(headers_view(r.headers@) =~= Seq::empty());
            return r;
        }
        assert(strings_view(path@) != seq!["directories"@]) by {
            if strings_view(path@) == seq!["directories"@] {
                assert(strings_view(path@).len() == 1);
                assert(strings_view(path@)[0] == "directories"@);
            }
        }
        if Store::is_escaped_path(&path) {
            match self.get_file_by_path(asset_hashes, &path, certificate, canister) {
                Some(entry) => {
                    return entry.response;
                },
                None => {},
            }
        }
        Store::not_found()
    }

    /// The response that says that nothing was found.
    pub fn not_found() -> (r: HttpResponse)
        ensures
            r@ == not_found_reply(),
    {
        let r = HttpResponse {
            status_code: 404,
            headers: Vec::new(),
            body: Vec::new(),
            streaming_strategy: None,
        };
        assert(headers_view(r.headers@) =~= Seq::empty());
        r
    }

    /// Answers a continuation call: the chunk that the token points at, and
    /// the token for the next one where one follows; nothing where the file
    /// is gone.
    pub fn http_request_streaming_callback(&self, data: &StreamingCallbackToken) -> (r:
        StreamingCallbackHttpResponse)
        requires
            self@.ids_ordered(),
        ensures
            !self@.has_file(data.file_id) ==> r.body@.len() == 0 && r.token.is_none(),
            self@.has_file(data.file_id) ==> {
                let f = self@.file(data.file_id);
                &&& r.body@ == chunk_body(self@, f.chunks, data.chunk_index as int)
                &&& match r.token {
                    Some(t) => next_token(
                        data.file_id,
                        data.chunk_index,
                        f.chunks,
                        f.hash,
                        headers_view(data.headers@),
                    ) == Some(t@),
                    None => next_token(
                        data.file_id,
                        data.chunk_index,
                        f.chunks,
                        f.hash,
                        headers_view(data.headers@),
                    ).is_none(),
                }
            },
    {
        proof {
            lemma_positions(self@);
        }
        match self.file_index(data.file_id) {
            None => StreamingCallbackHttpResponse { body: Vec::new(), token: None },
            Some(i) => {
                let encoding = AssetEncoding {
                    content_chunks: clone_ids(&self.files[i].chunks),
                    bytes_length: self.files[i].size as u128,
                    hash: self.files[i].hash,
                };
                let body = self.chunk_at(&encoding.content_chunks, data.chunk_index);
                StreamingCallbackHttpResponse {
                    token: Store::create_token(
                        &data.file_id,
                        data.chunk_index,
                        &encoding,
                        &data.headers,
                    ),
                    body,
                }
            },
        }
    }
}

/// A walk that has settled stays settled.
pub proof fn lemma_walk_settled(s: StoreView, path: Seq<Seq<char>>, n: nat, m: nat)
    requires
        1 <= n <= m <= path.len(),
        walk(s, path, n) is Settled,
    ensures
        walk(s, path, m) == walk(s, path, n),
    decreases m,
{
    if m > n {
        lemma_walk_settled(s, path, n, (m - 1) as nat);
    }
}

} // verus!
