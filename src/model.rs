//! The records kept by the service and their well-formedness.
use vstd::prelude::*;
use crate::digest::{is_empty_digest, sha512_of};

verus! {

/// Settings of the blob service.
#[derive(Debug, Clone, Copy)]
pub struct BlobConfig {
    /// Largest number of bytes that an upload may promise.
    pub maximum_blob_size: i64,
    /// How long, in seconds, an upload ticket stays valid.
    pub presigned_expiry_secs: u32,
    /// Number of random characters in a temporary upload path.
    pub presigned_path_length: usize,
}

/// An upload slot that was issued and not yet consumed.
#[derive(Debug)]
pub struct PendingUpload {
    pub ticket: String,
    pub temp_path: String,
    pub expected_length: i64,
    pub created_by: i64,
    pub created_at: i64,
    pub expires_at: i64,
    /// Set once the uploaded bytes were moved to permanent storage.
    pub resolved_digest: Option<Vec<u8>>,
}

/// A digest that no new content may be stored under.
#[derive(Debug)]
pub struct BlacklistEntry {
    pub digest: Vec<u8>,
    pub created_by: i64,
    pub created_at: i64,
}

/// A permanent, content-addressed object.
#[derive(Debug)]
pub struct StoredBlob {
    pub digest: Vec<u8>,
    pub data: Vec<u8>,
    pub mime: String,
    pub created_at: i64,
}

/// An object that a client placed at a temporary upload path.
#[derive(Debug)]
pub struct TempObject {
    pub path: String,
    pub data: Vec<u8>,
}

/// The state kept by the blob service: its bookkeeping tables and the
/// object store.
#[derive(Debug)]
pub struct BlobState {
    pub config: BlobConfig,
    pub pending: Vec<PendingUpload>,
    pub blacklist: Vec<BlacklistEntry>,
    pub blobs: Vec<StoredBlob>,
    pub uploads: Vec<TempObject>,
}

pub open spec fn opt_bytes(o: Option<Vec<u8>>) -> Option<Seq<u8>> {
    match o {
        Some(v) => Some(v@),
        None => None,
    }
}

impl BlobState {
    pub open spec fn has_blob(self, d: Seq<u8>) -> bool {
        exists|i: int| 0 <= i < self.blobs@.len() && (#[trigger] self.blobs@[i]).digest@ == d
    }

    pub open spec fn has_upload(self, p: Seq<char>) -> bool {
        exists|i: int| 0 <= i < self.uploads@.len() && (#[trigger] self.uploads@[i]).path@ == p
    }

    pub open spec fn has_ticket(self, t: Seq<char>) -> bool {
        exists|i: int| 0 <= i < self.pending@.len() && (#[trigger] self.pending@[i]).ticket@ == t
    }

    pub open spec fn is_blacklisted(self, d: Seq<u8>) -> bool {
        exists|i: int|
            0 <= i < self.blacklist@.len() && (#[trigger] self.blacklist@[i]).digest@ == d
    }

    /// Keys are unique in every table, and each permanent blob is non-empty
    /// and stored under its SHA-512 digest.
    pub open spec fn wf(self) -> bool {
        &&& forall|i: int, j: int|
            0 <= i < j < self.blobs@.len() ==> (#[trigger] self.blobs@[i]).digest@
                != (#[trigger] self.blobs@[j]).digest@
        &&& forall|i: int|
            0 <= i < self.blobs@.len() ==> (#[trigger] self.blobs@[i]).data@.len() > 0
                && self.blobs@[i].data@.len() <= i64::MAX
                && !is_empty_digest(self.blobs@[i].digest@)
                && self.blobs@[i].digest@ == sha512_of(self.blobs@[i].data@)
        &&& forall|i: int, j: int|
            0 <= i < j < self.uploads@.len() ==> (#[trigger] self.uploads@[i]).path@
                != (#[trigger] self.uploads@[j]).path@
        &&& forall|i: int, j: int|
            0 <= i < j < self.pending@.len() ==> (#[trigger] self.pending@[i]).ticket@
                != (#[trigger] self.pending@[j]).ticket@
        &&& forall|i: int, j: int|
            0 <= i < j < self.blacklist@.len() ==> (#[trigger] self.blacklist@[i]).digest@
                != (#[trigger] self.blacklist@[j]).digest@
    }
}

/// No two elements of `s` share a key.
pub open spec fn keys_distinct<T, K>(s: Seq<T>, key: spec_fn(T) -> K) -> bool {
    forall|a: int, b: int| 0 <= a < b < s.len() ==> key(s[a]) != key(s[b])
}

/// Removing an element keeps the keys of a table distinct.
pub proof fn lemma_remove_keeps_keys_distinct<T, K>(s: Seq<T>, i: int, key: spec_fn(T) -> K)
    requires
        0 <= i < s.len(),
        keys_distinct(s, key),
    ensures
        keys_distinct(s.remove(i), key),
{
    let r = s.remove(i);
    assert forall|a: int, b: int| 0 <= a < b < r.len() implies key(r[a]) != key(r[b]) by {
        let aa = if a < i { a } else { a + 1 };
        let bb = if b < i { b } else { b + 1 };
        assert(r[a] == s[aa] && r[b] == s[bb]);
    }
}

/// Appending an element whose key is new keeps the keys of a table
/// distinct.
pub proof fn lemma_push_keeps_keys_distinct<T, K>(s: Seq<T>, x: T, key: spec_fn(T) -> K)
    requires
        keys_distinct(s, key),
        forall|j: int| 0 <= j < s.len() ==> key(s[j]) != key(x),
    ensures
        keys_distinct(s.push(x), key),
{
    let r = s.push(x);
    assert forall|a: int, b: int| 0 <= a < b < r.len() implies key(r[a]) != key(r[b]) by {
        assert(r[a] == s[a]);
        if b < s.len() {
            assert(r[b] == s[b]);
        }
    }
}

/// Compares two byte strings.
pub fn bytes_eq(a: &[u8], b: &[u8]) -> (r: bool)
    ensures
        r == (a@ == b@),
{
    if a.len() != b.len() {
        return false;
    }
    let mut i: usize = 0;
    while i < a.len()
        invariant
            a@.len() == b@.len(),
            i <= a@.len(),
            forall|j: int| 0 <= j < i ==> a@[j] == b@[j],
        decreases a@.len() - i,
    {
        if a[i] != b[i] {
            return false;
        }
        i = i + 1;
    }
    assert(a@ =~= b@);
    true
}

/// Copies a byte string.
pub fn copy_bytes(v: &Vec<u8>) -> (r: Vec<u8>)
    ensures
        r@ == v@,
{
    let r = v.clone();
    assert(r@ =~= v@);
    r
}

/// Copies a string.
pub fn copy_string(s: &String) -> (r: String)
    ensures
        r@ == s@,
{
    s.clone()
}

impl BlobState {
    /// Position of the permanent blob stored under `d`.
    pub fn find_blob(&self, d: &[u8]) -> (r: Option<usize>)
        ensures
            match r {
                Some(i) => i < self.blobs@.len() && self.blobs@[i as int].digest@ == d@,
                None => !self.has_blob(d@),
            },
    {
        let mut i: usize = 0;
        while i < self.blobs.len()
            invariant
                i <= self.blobs@.len(),
                forall|j: int| 0 <= j < i ==> (#[trigger] self.blobs@[j]).digest@ != d@,
            decreases self.blobs@.len() - i,
        {
            if bytes_eq(self.blobs[i].digest.as_slice(), d) {
                return Some(i);
            }
            i = i + 1;
        }
        None
    }

    /// Position of the temporary object at `path`.
    pub fn find_upload(&self, path: &String) -> (r: Option<usize>)
        ensures
            match r {
                Some(i) => i < self.uploads@.len() && self.uploads@[i as int].path@ == path@,
                None => !self.has_upload(path@),
            },
    {
        let mut i: usize = 0;
        while i < self.uploads.len()
            invariant
                i <= self.uploads@.len(),
                forall|j: int| 0 <= j < i ==> (#[trigger] self.uploads@[j]).path@ != path@,
            decreases self.uploads@.len() - i,
        {
            if self.uploads[i].path == *path {
                return Some(i);
            }
            i = i + 1;
        }
        None
    }

    /// Position of the pending upload with ticket `t`.
    pub fn find_ticket(&self, t: &String) -> (r: Option<usize>)
        ensures
            match r {
                Some(i) => i < self.pending@.len() && self.pending@[i as int].ticket@ == t@,
                None => !self.has_ticket(t@),
            },
    {
        let mut i: usize = 0;
        while i < self.pending.len()
            invariant
                i <= self.pending@.len(),
                forall|j: int| 0 <= j < i ==> (#[trigger] self.pending@[j]).ticket@ != t@,
            decreases self.pending@.len() - i,
        {
            if self.pending[i].ticket == *t {
                return Some(i);
            }
            i = i + 1;
        }
        None
    }

    /// Position of the blacklist entry for `d`.
    pub fn find_blacklisted(&self, d: &[u8]) -> (r: Option<usize>)
        ensures
            match r {
                Some(i) => i < self.blacklist@.len() && self.blacklist@[i as int].digest@ == d@,
                None => !self.is_blacklisted(d@),
            },
    {
        let mut i: usize = 0;
        while i < self.blacklist.len()
            invariant
                i <= self.blacklist@.len(),
                forall|j: int| 0 <= j < i ==> (#[trigger] self.blacklist@[j]).digest@ != d@,
            decreases self.blacklist@.len() - i,
        {
            if bytes_eq(self.blacklist[i].digest.as_slice(), d) {
                return Some(i);
            }
            i = i + 1;
        }
        None
    }
}

/// What a revision did to its file.
#[derive(Debug, Clone, Copy, PartialEq, Eq, Structural)]
pub enum RevisionType {
    First,
    Regular,
    Move,
    Rollback,
    Tombstone,
    Resurrection,
}

/// One immutable snapshot in a file's history.
#[derive(Debug)]
pub struct FileRevision {
    pub revision_id: i64,
    pub revision_number: i64,
    pub revision_type: RevisionType,
    pub created_at: i64,
    pub created_by: i64,
    pub site_id: i64,
    pub page_id: i64,
    pub name: String,
    pub digest: Vec<u8>,
    pub mime: String,
    pub size: i64,
    pub comments: String,
    /// Set when the digest was erased by a hard deletion.
    pub digest_hidden: bool,
}

/// A file attached to a page, with its revision history.
#[derive(Debug)]
pub struct FileEntity {
    pub file_id: i64,
    pub site_id: i64,
    pub page_id: i64,
    pub name: String,
    pub created_at: i64,
    pub updated_at: Option<i64>,
    pub deleted_at: Option<i64>,
    /// The revisions, oldest first.
    pub revisions: Vec<FileRevision>,
}

/// The files and the counter that hands out revision identifiers.
#[derive(Debug)]
pub struct FileState {
    pub files: Vec<FileEntity>,
    pub next_revision_id: i64,
}

/// A user's profile picture, by digest.
#[derive(Debug)]
pub struct UserAvatar {
    pub user_id: i64,
    pub avatar_digest: Option<Vec<u8>>,
}

/// All the state of the service.
#[derive(Debug)]
pub struct Database {
    pub blob: BlobState,
    pub file: FileState,
    pub users: Vec<UserAvatar>,
}

impl FileEntity {
    pub open spec fn latest(self) -> FileRevision {
        self.revisions@.last()
    }

    pub open spec fn is_live(self) -> bool {
        self.deleted_at is None
    }
}

impl FileState {
    /// The file with identifier `id`, which sits at position `id - 1`.
    pub open spec fn has_file(self, id: i64) -> bool {
        1 <= id <= self.files@.len()
    }

    pub open spec fn file(self, id: i64) -> FileEntity {
        self.files@[id - 1]
    }

    /// Whether a live file other than `except` is named `n` on page `page`.
    pub open spec fn name_taken(self, page: i64, n: Seq<char>, except: int) -> bool {
        exists|i: int|
            0 <= i < self.files@.len() && i + 1 != except && (#[trigger] self.files@[i]).is_live()
                && self.files@[i].page_id == page && self.files@[i].name@ == n
    }

    /// Identifiers match positions, every file has a gapless history that
    /// starts with a `First` revision, revision identifiers are below the
    /// counter, and no two live files on one page share a name.
    pub open spec fn wf(self) -> bool {
        &&& 1 <= self.next_revision_id
        &&& self.files@.len() < i64::MAX
        &&& forall|i: int| 0 <= i < self.files@.len() ==> (#[trigger] self.files@[i]).file_id == i + 1
        &&& forall|i: int|
            0 <= i < self.files@.len() ==> (#[trigger] self.files@[i]).revisions@.len() >= 1
                && self.files@[i].revisions@[0].revision_type == RevisionType::First
        &&& forall|i: int, k: int|
            0 <= i < self.files@.len() && 0 <= k < self.files@[i].revisions@.len() ==> {
                &&& (#[trigger] self.files@[i].revisions@[k]).revision_number == k + 1
                &&& k + 1 <= self.files@[i].revisions@[k].revision_id < self.next_revision_id
            }
        &&& forall|i: int, j: int|
            0 <= i < j < self.files@.len() && (#[trigger] self.files@[i]).is_live()
                && (#[trigger] self.files@[j]).is_live() && self.files@[i].page_id
                == self.files@[j].page_id ==> self.files@[i].name@ != self.files@[j].name@
        &&& self.revision_ids_unique()
    }

    /// Whether revision `k` of the file at position `i` exists.
    pub open spec fn has_revision(self, i: int, k: int) -> bool {
        0 <= i < self.files@.len() && 0 <= k < self.files@[i].revisions@.len()
    }

    /// No two revisions, of one file or of two, share an identifier.
    pub open spec fn revision_ids_unique(self) -> bool {
        forall|i: int, k: int, j: int, l: int|
            self.has_revision(i, k) && self.has_revision(j, l) && (i != j || k != l)
                ==> (#[trigger] self.files@[i].revisions@[k]).revision_id
                != (#[trigger] self.files@[j].revisions@[l]).revision_id
    }
}

impl Database {
    pub open spec fn wf(self) -> bool {
        self.blob.wf() && self.file.wf()
    }
}

} // verus!
