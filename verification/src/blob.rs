//! Blob storage (RFC 8620 §6): uploading, downloading and deleting blobs,
//! the size limit, and content-addressed blob ids.
use vstd::prelude::*;

use crate::maps::{
    keys_distinct, lemma_pairs_view_len, lemma_vput, lemma_vput_distinct, lemma_vremove, lemma_vremove_distinct, pairs_view,
    vget, vlookup, vput, vput_exec, vremove, vremove_exec,
};
use crate::outside::{new_uuid_string, now_millis, sha256, sha256_digest};
use crate::text::{concat, decimal, push_char, string_from, u64_to_decimal};

verus! {

/// Default largest blob accepted: 50 MiB.
pub const DEFAULT_MAX_BLOB_SIZE: u64 = 52428800;

/// What is kept about a blob besides its bytes. Times are milliseconds
/// since the Unix epoch.
#[derive(Debug, Clone)]
pub struct BlobMeta {
    pub content_type: String,
    pub size: u64,
    pub account_id: String,
    pub created_at: i64,
}

/// The content of blob metadata.
pub struct MetaContent {
    pub content_type: Seq<char>,
    pub size: u64,
    pub account_id: Seq<char>,
    pub created_at: i64,
}

impl View for BlobMeta {
    type V = MetaContent;

    open spec fn view(&self) -> MetaContent {
        MetaContent {
            content_type: self.content_type@,
            size: self.size,
            account_id: self.account_id@,
            created_at: self.created_at,
        }
    }
}

impl BlobMeta {
    /// A copy of the metadata.
    pub fn duplicate(&self) -> (r: BlobMeta)
        ensures
            r@ == self@,
    {
        BlobMeta {
            content_type: self.content_type.clone(),
            size: self.size,
            account_id: self.account_id.clone(),
            created_at: self.created_at,
        }
    }
}

/// A blob's bytes and content type.
#[derive(Clone)]
pub struct BlobData {
    data: Vec<u8>,
    content_type: String,
}

impl BlobData {
    /// A blob from its bytes and content type.
    pub fn new(data: Vec<u8>, content_type: String) -> (r: Self)
        ensures
            r.data_view() == data@,
            r.type_view() == content_type@,
    {
        BlobData { data, content_type }
    }

    /// The bytes.
    pub closed spec fn data_view(&self) -> Seq<u8> {
        self.data@
    }

    /// The content type.
    pub closed spec fn type_view(&self) -> Seq<char> {
        self.content_type@
    }

    /// The blob's bytes.
    pub fn data(&self) -> (r: &[u8])
        ensures
            r@ == self.data_view(),
    {
        self.data.as_slice()
    }

    /// The blob's content type.
    pub fn content_type(&self) -> (r: &str)
        ensures
            r@ == self.type_view(),
    {
        self.content_type.as_str()
    }
}

/// Why a blob operation failed.
#[derive(Debug)]
pub enum UploadError {
    /// The body is larger than the limit.
    TooLarge { actual: u64, max: u64 },
    /// No blob has the id.
    NotFound(String),
    /// Reading or writing storage failed.
    Io(String),
    /// Blob metadata could not be read or written.
    Meta(String),
    /// The storage lock was poisoned.
    LockPoisoned,
}

impl UploadError {
    /// The error's text.
    pub fn message(&self) -> (r: String)
        ensures
            r@ == upload_error_text(*self),
    {
        match self {
            UploadError::TooLarge { actual, max } => {
                let a = concat("blob too large: ", u64_to_decimal(*actual).as_str());
                let b = concat(a.as_str(), " bytes exceeds maximum of ");
                concat(b.as_str(), u64_to_decimal(*max).as_str())
            },
            UploadError::NotFound(id) => concat("blob not found: ", id.as_str()),
            UploadError::Io(e) => concat("blob I/O error: ", e.as_str()),
            UploadError::Meta(e) => concat("blob metadata error: ", e.as_str()),
            UploadError::LockPoisoned => string_from("blob storage lock poisoned"),
        }
    }
}

/// The text of an error.
pub open spec fn upload_error_text(e: UploadError) -> Seq<char> {
    match e {
        UploadError::TooLarge { actual, max } => "blob too large: "@ + decimal(actual as nat) + " bytes exceeds maximum of "@
            + decimal(max as nat),
        UploadError::NotFound(id) => "blob not found: "@ + id@,
        UploadError::Io(e) => "blob I/O error: "@ + e@,
        UploadError::Meta(e) => "blob metadata error: "@ + e@,
        UploadError::LockPoisoned => "blob storage lock poisoned"@,
    }
}

/// A kept blob: its bytes and metadata.
#[derive(Debug, Clone)]
pub struct StoredBlob {
    pub data: Vec<u8>,
    pub meta: BlobMeta,
}

/// The content of a kept blob.
pub struct StoredBlobContent {
    pub data: Seq<u8>,
    pub meta: MetaContent,
}

impl View for StoredBlob {
    type V = StoredBlobContent;

    open spec fn view(&self) -> StoredBlobContent {
        StoredBlobContent { data: self.data@, meta: self.meta@ }
    }
}

/// Blobs kept in memory, by id, with the largest size an upload may have.
/// No id is kept twice.
#[derive(Debug)]
pub struct BlobStorage {
    blobs: Vec<(String, StoredBlob)>,
    max_blob_size: u64,
}

/// The content of a blob store.
pub struct StorageContent {
    pub blobs: Seq<(Seq<char>, StoredBlobContent)>,
    pub max_blob_size: u64,
}

impl View for BlobStorage {
    type V = StorageContent;

    closed spec fn view(&self) -> StorageContent {
        StorageContent { blobs: pairs_view(self.blobs@), max_blob_size: self.max_blob_size }
    }
}

impl Clone for BlobStorage {
    /// A copy with the same blobs and limit.
    fn clone(&self) -> (r: Self)
        ensures
            r@ == self@,
    {
        proof {
            use_type_invariant(self);
            lemma_pairs_view_len(self.blobs@);
        }
        let mut out: Vec<(String, StoredBlob)> = Vec::new();
        let mut i: usize = 0;
        while i < self.blobs.len()
            invariant
                i <= self.blobs@.len(),
                out@.len() == i,
                forall|j: int| 0 <= j < i ==> #[trigger] pairs_view(out@)[j] == pairs_view(self.blobs@)[j],
            decreases self.blobs@.len() - i,
        {
            let k = string_from(self.blobs[i].0.as_str());
            let b = StoredBlob { data: copy_bytes(self.blobs[i].1.data.as_slice()), meta: self.blobs[i].1.meta.duplicate() };
            let ghost prev = out@;
            out.push((k, b));
            proof {
                lemma_pairs_view_len(out@);
                lemma_pairs_view_len(prev);
                lemma_pairs_view_len(self.blobs@);
                assert forall|j: int| 0 <= j < i + 1 implies #[trigger] pairs_view(out@)[j] == pairs_view(self.blobs@)[j] by {
                    if j < i {
                        assert(out@[j] == prev[j]);
                        assert(pairs_view(prev)[j] == pairs_view(self.blobs@)[j]);
                    }
                }
            }
            i = i + 1;
        }
        proof {
            lemma_pairs_view_len(out@);
            assert(pairs_view(out@) =~= pairs_view(self.blobs@));
        }
        BlobStorage { blobs: out, max_blob_size: self.max_blob_size }
    }
}

impl BlobStorage {
    /// Each id names at most one kept blob.
    #[verifier::type_invariant]
    spec fn ids_distinct(&self) -> bool {
        keys_distinct(pairs_view(self.blobs@))
    }
}

/// The store after a blob is kept under `id`.
pub open spec fn uploaded(a: StorageContent, id: Seq<char>, account_id: Seq<char>, content_type: Seq<char>, data: Seq<u8>, now: i64) -> StorageContent {
    StorageContent {
        blobs: vput(
            a.blobs,
            id,
            StoredBlobContent {
                data,
                meta: MetaContent { content_type, size: data.len() as u64, account_id, created_at: now },
            },
        ),
        ..a
    }
}

/// A copy of a byte string.
fn copy_bytes(b: &[u8]) -> (r: Vec<u8>)
    ensures
        r@ == b@,
{
    let mut out: Vec<u8> = Vec::new();
    let mut i: usize = 0;
    while i < b.len()
        invariant
            i <= b@.len(),
            out@ == b@.take(i as int),
        decreases b.len() - i,
    {
        out.push(b[i]);
        assert(b@.take(i + 1) =~= b@.take(i as int).push(b@[i as int]));
        i = i + 1;
    }
    assert(b@.take(b@.len() as int) =~= b@);
    out
}

impl Default for BlobStorage {
    fn default() -> (r: Self)
        ensures
            r@.blobs.len() == 0,
            r@.max_blob_size == DEFAULT_MAX_BLOB_SIZE,
    {
        BlobStorage::new()
    }
}

impl BlobStorage {
    /// An empty store with the default size limit.
    pub fn new() -> (r: Self)
        ensures
            r@.blobs.len() == 0,
            r@.max_blob_size == DEFAULT_MAX_BLOB_SIZE,
    {
        let b: Vec<(String, StoredBlob)> = Vec::new();
        proof {
            lemma_pairs_view_len(b@);
        }
        BlobStorage { blobs: b, max_blob_size: DEFAULT_MAX_BLOB_SIZE }
    }

    /// The same store with another size limit.
    pub fn with_max_blob_size(self, max_bytes: u64) -> (r: Self)
        ensures
            r@ == (StorageContent { max_blob_size: max_bytes, ..self@ }),
    {
        proof {
            use_type_invariant(&self);
        }
        BlobStorage { max_blob_size: max_bytes, ..self }
    }

    /// Keeps `b` under `id`, in place of a blob kept there before.
    fn put(&mut self, id: String, b: StoredBlob)
        ensures
            final(self)@ == (StorageContent { blobs: vput(old(self)@.blobs, id@, b@), ..old(self)@ }),
    {
        proof {
            use_type_invariant(&*self);
        }
        let mut taken: Vec<(String, StoredBlob)> = Vec::new();
        std::mem::swap(&mut taken, &mut self.blobs);
        let ghost before = taken@;
        let ghost idv = id@;
        let ghost bv = b@;
        vput_exec(&mut taken, id, b);
        proof {
            lemma_vput_distinct(pairs_view(before), idv, bv);
        }
        self.blobs = taken;
    }

    /// Uploads a blob under `blob_id` at time `now`: refused when the body
    /// is larger than the limit; on success the id is returned.
    pub fn upload_with(&mut self, account_id: &str, content_type: &str, body: &[u8], blob_id: String, now: i64) -> (r: Result<String, UploadError>)
        ensures
            body@.len() > old(self)@.max_blob_size ==> final(self)@ == old(self)@ && (r matches Err(
                UploadError::TooLarge { actual, max },
            ) && actual == body@.len() && max == old(self)@.max_blob_size),
            body@.len() <= old(self)@.max_blob_size ==> r is Ok && r->Ok_0@ == blob_id@ && final(self)@ == uploaded(old(self)@, blob_id@, account_id@, content_type@, body@, now),
    {
        let actual = body.len() as u64;
        if actual > self.max_blob_size {
            return Err(UploadError::TooLarge { actual, max: self.max_blob_size });
        }
        let meta = BlobMeta {
            content_type: string_from(content_type),
            size: actual,
            account_id: string_from(account_id),
            created_at: now,
        };
        let id = blob_id.clone();
        self.put(blob_id, StoredBlob { data: copy_bytes(body), meta });
        Ok(id)
    }

    /// Uploads a blob under a fresh random id, at the current time.
    pub fn upload(&mut self, account_id: &str, content_type: &str, body: &[u8]) -> (r: Result<String, UploadError>)
        ensures
            body@.len() > old(self)@.max_blob_size ==> final(self)@ == old(self)@ && (r matches Err(
                UploadError::TooLarge { actual, max },
            ) && actual == body@.len() && max == old(self)@.max_blob_size),
            body@.len() <= old(self)@.max_blob_size ==> r is Ok && crate::outside::uuid_v4_text(r->Ok_0@) && exists|now: i64| final(self)@ == uploaded(old(self)@, r->Ok_0@, account_id@, content_type@, body@, now),
    {
        let id = new_uuid_string();
        let now = now_millis();
        self.upload_with(account_id, content_type, body, id, now)
    }

    /// The bytes and metadata of a blob.
    pub fn download(&self, blob_id: &str) -> (r: Result<(Vec<u8>, BlobMeta), UploadError>)
        ensures
            match vget(self@.blobs, blob_id@) {
                Some(b) => r is Ok && r->Ok_0.0@ == b.data && r->Ok_0.1@ == b.meta,
                None => r matches Err(UploadError::NotFound(id)) && id@ == blob_id@,
            },
    {
        match vlookup(&self.blobs, blob_id) {
            Some(b) => Ok((copy_bytes(b.data.as_slice()), b.meta.duplicate())),
            None => Err(UploadError::NotFound(string_from(blob_id))),
        }
    }

    /// Deletes a blob.
    pub fn delete(&mut self, blob_id: &str) -> (r: Result<(), UploadError>)
        ensures
            match vget(old(self)@.blobs, blob_id@) {
                Some(_) => r is Ok && final(self)@ == (StorageContent { blobs: vremove(old(self)@.blobs, blob_id@), ..old(self)@ })
                    && final(self)@.blobs.len() == old(self)@.blobs.len() - 1,
                None => final(self)@ == old(self)@ && (r matches Err(UploadError::NotFound(id)) && id@ == blob_id@),
            },
    {
        proof {
            use_type_invariant(&*self);
        }
        if !crate::maps::vcontains(&self.blobs, blob_id) {
            return Err(UploadError::NotFound(string_from(blob_id)));
        }
        let mut taken: Vec<(String, StoredBlob)> = Vec::new();
        std::mem::swap(&mut taken, &mut self.blobs);
        proof {
            lemma_vremove_distinct(pairs_view(taken@), blob_id@);
        }
        self.blobs = vremove_exec(taken, blob_id);
        Ok(())
    }

    /// The number of kept blobs.
    pub fn blob_count(&self) -> (r: usize)
        ensures
            r == self@.blobs.len(),
    {
        proof {
            lemma_pairs_view_len(self.blobs@);
        }
        self.blobs.len()
    }

    /// Keeps a blob under `blob_id` at time `now`, with no account and no
    /// size check.
    pub fn store_with(&mut self, blob_id: String, data: Vec<u8>, content_type: String, now: i64)
        ensures
            final(self)@ == uploaded(old(self)@, blob_id@, Seq::<char>::empty(), content_type@, data@, now),
    {
        let size = data.len() as u64;
        let meta = BlobMeta { content_type, size, account_id: String::new(), created_at: now };
        self.put(blob_id, StoredBlob { data, meta });
    }

    /// Keeps a blob under `blob_id` with the metadata it was stored with
    /// before, as read back from where it was kept.
    pub fn restore(&mut self, blob_id: String, data: Vec<u8>, meta: BlobMeta)
        ensures
            final(self)@ == (StorageContent {
                blobs: vput(old(self)@.blobs, blob_id@, StoredBlobContent { data: data@, meta: meta@ }),
                ..old(self)@
            }),
    {
        self.put(blob_id, StoredBlob { data, meta });
    }

    /// Keeps a blob under `blob_id`, stamped with the current time.
    pub fn store(&mut self, blob_id: String, data: Vec<u8>, content_type: String)
        ensures
            exists|now: i64| final(self)@ == uploaded(old(self)@, blob_id@, Seq::<char>::empty(), content_type@, data@, now),
    {
        let now = now_millis();
        self.store_with(blob_id, data, content_type, now);
    }

    /// The bytes and content type of a blob.
    pub fn get(&self, blob_id: &str) -> (r: Option<BlobData>)
        ensures
            match vget(self@.blobs, blob_id@) {
                Some(b) => r is Some && r->0.data_view() == b.data && r->0.type_view() == b.meta.content_type,
                None => r is None,
            },
    {
        match vlookup(&self.blobs, blob_id) {
            Some(b) => Some(BlobData::new(copy_bytes(b.data.as_slice()), b.meta.content_type.clone())),
            None => None,
        }
    }

    /// The size of a blob's bytes.
    pub fn size(&self, blob_id: &str) -> (r: Option<usize>)
        ensures
            match vget(self@.blobs, blob_id@) {
                Some(b) => r == Some(b.data.len() as usize),
                None => r is None,
            },
    {
        match vlookup(&self.blobs, blob_id) {
            Some(b) => Some(b.data.len()),
            None => None,
        }
    }
}

/// Answer to a successful upload.
#[derive(Debug)]
pub struct UploadResponse {
    pub account_id: String,
    pub blob_id: String,
    pub content_type: String,
    pub size: usize,
}

/// Answer to a failed upload.
#[derive(Debug)]
pub struct UploadErrorBody {
    pub error_type: String,
    pub status: u16,
    pub detail: Option<String>,
}

/// The answer to an upload for an empty account id.
pub fn invalid_account_body() -> (r: UploadErrorBody)
    ensures
        r.error_type@ == "urn:ietf:params:jmap:error:invalidArguments"@,
        r.status == 400,
        r.detail matches Some(d) && d@ == "Invalid account ID"@,
{
    UploadErrorBody {
        error_type: string_from("urn:ietf:params:jmap:error:invalidArguments"),
        status: 400,
        detail: Some(string_from("Invalid account ID")),
    }
}

/// The answer to a failed upload: 413 for a body over the limit, else 500.
pub fn upload_error_body(e: &UploadError) -> (r: UploadErrorBody)
    ensures
        match *e {
            UploadError::TooLarge { actual, max } => r.error_type@ == "urn:ietf:params:jmap:error:tooLarge"@ && r.status
                == 413 && (r.detail matches Some(d) && d@ == "Blob size "@ + decimal(actual as nat)
                + " bytes exceeds maximum of "@ + decimal(max as nat) + " bytes"@),
            _ => r.error_type@ == "urn:ietf:params:jmap:error:serverFail"@ && r.status == 500 && (r.detail matches Some(
                d,
            ) && d@ == "Upload failed: "@ + upload_error_text(*e)),
        },
{
    match e {
        UploadError::TooLarge { actual, max } => {
            let a = concat("Blob size ", u64_to_decimal(*actual).as_str());
            let b = concat(a.as_str(), " bytes exceeds maximum of ");
            let c = concat(b.as_str(), u64_to_decimal(*max).as_str());
            UploadErrorBody {
                error_type: string_from("urn:ietf:params:jmap:error:tooLarge"),
                status: 413,
                detail: Some(concat(c.as_str(), " bytes")),
            }
        },
        _ => {
            let m = e.message();
            UploadErrorBody {
                error_type: string_from("urn:ietf:params:jmap:error:serverFail"),
                status: 500,
                detail: Some(concat("Upload failed: ", m.as_str())),
            }
        },
    }
}

// ── Content-addressed ids ───────────────────────────────────────────────────

/// The lower-case hexadecimal digit of a value below 16.
pub open spec fn hex_digit(n: u8) -> char {
    if n < 10 {
        (48 + n) as char
    } else {
        (87 + n) as char
    }
}

/// Bytes in lower-case hexadecimal, two digits each.
pub open spec fn hex_text(b: Seq<u8>) -> Seq<char>
    decreases b.len(),
{
    if b.len() == 0 {
        seq![]
    } else {
        hex_text(b.drop_last()) + seq![hex_digit(b.last() / 16), hex_digit(b.last() % 16)]
    }
}

fn hex_digit_exec(n: u8) -> (r: char)
    requires
        n < 16,
    ensures
        r == hex_digit(n),
{
    if n < 10 {
        (48u8 + n) as char
    } else {
        (87u8 + n) as char
    }
}

/// The content-addressed id of some bytes: their SHA-256 digest in
/// lower-case hexadecimal.
pub fn compute_blob_id(bytes: &[u8]) -> (r: String)
    ensures
        r@ == hex_text(sha256_digest(bytes@)),
        r@.len() == 64,
{
    let digest = sha256(bytes);
    let mut s = String::new();
    let mut i: usize = 0;
    proof {
        assert(digest@.take(0) =~= Seq::<u8>::empty());
        assert(s@ =~= Seq::<char>::empty());
    }
    while i < digest.len()
        invariant
            i <= digest@.len(),
            s@ == hex_text(digest@.take(i as int)),
            s@.len() == 2 * i,
            digest@.len() == 32,
        decreases digest.len() - i,
    {
        let b = digest[i];
        let hi = hex_digit_exec(b / 16);
        let lo = hex_digit_exec(b % 16);
        let ghost before = s@;
        push_char(&mut s, hi);
        push_char(&mut s, lo);
        proof {
            assert(digest@.take(i + 1).drop_last() =~= digest@.take(i as int));
            assert(digest@.take(i + 1).last() == b);
            assert(s@ =~= before + seq![hi, lo]);
        }
        i = i + 1;
    }
    assert(digest@.take(digest@.len() as int) =~= digest@);
    s
}


// ── Laws ────────────────────────────────────────────────────────────────────

/// Reading a blob back after it was uploaded gives the uploaded bytes, with
/// the content type, size, account and time of the upload; every other blob
/// reads as before.
pub proof fn law_upload_then_read(
    a: StorageContent,
    id: Seq<char>,
    account_id: Seq<char>,
    content_type: Seq<char>,
    data: Seq<u8>,
    now: i64,
    other: Seq<char>,
)
    requires
        other != id,
    ensures
        vget(uploaded(a, id, account_id, content_type, data, now).blobs, id) == Some(
            StoredBlobContent {
                data,
                meta: MetaContent { content_type, size: data.len() as u64, account_id, created_at: now },
            },
        ),
        vget(uploaded(a, id, account_id, content_type, data, now).blobs, other) == vget(a.blobs, other),
        uploaded(a, id, account_id, content_type, data, now).max_blob_size == a.max_blob_size,
{
    let b = StoredBlobContent {
        data,
        meta: MetaContent { content_type, size: data.len() as u64, account_id, created_at: now },
    };
    lemma_vput(a.blobs, id, b, id);
    lemma_vput(a.blobs, id, b, other);
}

/// After a blob is deleted it cannot be read; every other blob reads as
/// before.
pub proof fn law_delete_then_read(blobs: Seq<(Seq<char>, StoredBlobContent)>, id: Seq<char>, other: Seq<char>)
    requires
        other != id,
    ensures
        vget(vremove(blobs, id), id) is None,
        vget(vremove(blobs, id), other) == vget(blobs, other),
{
    lemma_vremove(blobs, id, id);
    lemma_vremove(blobs, id, other);
}

} // verus!
