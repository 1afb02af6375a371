//! Upload slots, content-addressed storage with deduplication, the
//! blacklist, and blob lookups.
use vstd::prelude::*;
use crate::digest::{compute_digest, digest_of, is_empty_blob_digest, is_empty_digest};
use crate::error::Error;
use crate::model::{
    lemma_push_keeps_keys_distinct, lemma_remove_keeps_keys_distinct, copy_bytes, copy_string, opt_bytes, BlacklistEntry, BlobConfig, BlobState,
    PendingUpload, StoredBlob, TempObject,
};

verus! {

/// MIME type reported for the empty blob.
pub const EMPTY_BLOB_MIME: &'static str = "inode/x-empty; charset=binary";

/// Creation time (UNIX seconds) reported for the empty blob.
pub const EMPTY_BLOB_TIMESTAMP: i64 = 1547769600;

/// Directory of the object store that holds pending uploads.
pub const PRESIGN_DIRECTORY: &'static str = "uploads";

pub open spec fn empty_blob_mime() -> Seq<char> {
    EMPTY_BLOB_MIME@
}

fn empty_mime() -> (r: String)
    ensures
        r@ == empty_blob_mime(),
{
    EMPTY_BLOB_MIME.to_owned()
}

/// Relies on cuid2::cuid: a fresh collision-resistant identifier. Nothing is
/// promised of its value.
#[verifier::external_body]
fn new_ticket() -> (r: String) {
    cuid2::cuid()
}

/// An ASCII letter or digit.
pub open spec fn is_ascii_alphanumeric(c: char) -> bool {
    ('A' <= c && c <= 'Z') || ('a' <= c && c <= 'z') || ('0' <= c && c <= '9')
}

/// Relies on rand's `Alphanumeric` distribution (`DistString::append_string`
/// with `thread_rng`): appends `len` random ASCII letters and digits.
#[verifier::external_body]
fn append_random_alphanumeric(s: &mut String, len: usize)
    ensures
        final(s)@.len() == old(s)@.len() + len,
        final(s)@.subrange(0, old(s)@.len() as int) == old(s)@,
        forall|i: int|
            old(s)@.len() <= i < final(s)@.len() ==> is_ascii_alphanumeric(#[trigger] final(s)@[i]),
{
    rand::distributions::DistString::append_string(
        &rand::distributions::Alphanumeric,
        &mut rand::thread_rng(),
        s,
        len,
    )
}

/// Request to open an upload slot.
#[derive(Debug, Clone, Copy)]
pub struct StartBlobUpload {
    pub user_id: i64,
    pub blob_size: u64,
}

/// An issued upload slot: the client puts its bytes at `temp_path` (through
/// a presigned URL) before `expires_at`.
#[derive(Debug)]
pub struct StartBlobUploadOutput {
    pub pending_blob_id: String,
    pub temp_path: String,
    pub expires_at: i64,
}

/// Request to cancel an upload slot.
#[derive(Debug, Clone)]
pub struct CancelBlobUpload {
    pub user_id: i64,
    pub pending_blob_id: String,
}

/// The outcome of moving content into permanent storage.
#[derive(Debug, PartialEq, Eq)]
pub struct FinalizeBlobUploadOutput {
    pub digest: Vec<u8>,
    pub mime: String,
    pub size: i64,
    /// Whether a new permanent object was written.
    pub created: bool,
}

/// Mathematical form of `FinalizeBlobUploadOutput`.
pub struct FinalizeView {
    pub digest: Seq<u8>,
    pub mime: Seq<char>,
    pub size: int,
    pub created: bool,
}

impl View for FinalizeBlobUploadOutput {
    type V = FinalizeView;

    open spec fn view(&self) -> FinalizeView {
        FinalizeView {
            digest: self.digest@,
            mime: self.mime@,
            size: self.size as int,
            created: self.created,
        }
    }
}

pub open spec fn finalize_view(r: Result<FinalizeBlobUploadOutput, Error>) -> Result<
    FinalizeView,
    Error,
> {
    match r {
        Ok(o) => Ok(o@),
        Err(e) => Err(e),
    }
}

/// Metadata of a blob.
#[derive(Debug, PartialEq, Eq)]
pub struct BlobMetadata {
    pub mime: String,
    pub size: i64,
    pub created_at: i64,
}

/// A blob's content with its metadata.
#[derive(Debug, PartialEq, Eq)]
pub struct GetBlobOutput {
    pub data: Vec<u8>,
    pub mime: String,
    pub size: i64,
    pub created_at: i64,
}

/// Mathematical form of `BlobMetadata`.
pub struct MetadataView {
    pub mime: Seq<char>,
    pub size: int,
    pub created_at: i64,
}

impl View for BlobMetadata {
    type V = MetadataView;

    open spec fn view(&self) -> MetadataView {
        MetadataView { mime: self.mime@, size: self.size as int, created_at: self.created_at }
    }
}

impl BlobState {
    pub open spec fn blob_index(self, d: Seq<u8>) -> int {
        choose|i: int| 0 <= i < self.blobs@.len() && (#[trigger] self.blobs@[i]).digest@ == d
    }

    pub open spec fn upload_index(self, p: Seq<char>) -> int {
        choose|i: int| 0 <= i < self.uploads@.len() && (#[trigger] self.uploads@[i]).path@ == p
    }

    pub open spec fn ticket_index(self, t: Seq<char>) -> int {
        choose|i: int| 0 <= i < self.pending@.len() && (#[trigger] self.pending@[i]).ticket@ == t
    }

    /// The content stored under `d`, the empty blob included.
    pub open spec fn content(self, d: Seq<u8>) -> Option<Seq<u8>> {
        if is_empty_digest(d) {
            Some(Seq::empty())
        } else if self.has_blob(d) {
            Some(self.blobs@[self.blob_index(d)].data@)
        } else {
            None
        }
    }

    /// The metadata of the blob stored under `d`, the empty blob included.
    pub open spec fn metadata(self, d: Seq<u8>) -> Option<MetadataView> {
        if is_empty_digest(d) {
            Some(MetadataView { mime: empty_blob_mime(), size: 0, created_at: EMPTY_BLOB_TIMESTAMP })
        } else if self.has_blob(d) {
            let b = self.blobs@[self.blob_index(d)];
            Some(MetadataView { mime: b.mime@, size: b.data@.len() as int, created_at: b.created_at })
        } else {
            None
        }
    }

    /// What storing `data` returns: the empty blob is never written, a
    /// blacklisted digest is refused, and content already present is not
    /// written again. Non-empty content whose digest would be the reserved
    /// digest of the empty blob cannot be stored.
    pub open spec fn store_result(self, data: Seq<u8>, mime: Seq<char>) -> Result<FinalizeView, Error> {
        let d = digest_of(data);
        if data.len() == 0 {
            Ok(FinalizeView { digest: d, mime: empty_blob_mime(), size: 0, created: false })
        } else if is_empty_digest(d) {
            Err(Error::BadRequest)
        } else if self.is_blacklisted(d) {
            Err(Error::BlobBlacklisted)
        } else if self.has_blob(d) {
            Ok(
                FinalizeView {
                    digest: d,
                    mime: self.blobs@[self.blob_index(d)].mime@,
                    size: data.len() as int,
                    created: false,
                },
            )
        } else {
            Ok(FinalizeView { digest: d, mime, size: data.len() as int, created: true })
        }
    }

    /// How storing `data` changes the permanent blobs: a new object is
    /// appended exactly when the result says one was created.
    pub open spec fn store_effect(
        self,
        new: BlobState,
        data: Seq<u8>,
        mime: Seq<char>,
        now: i64,
    ) -> bool {
        let r = self.store_result(data, mime);
        if r is Ok && r->Ok_0.created {
            &&& new.blobs@.len() == self.blobs@.len() + 1
            &&& new.blobs@.subrange(0, self.blobs@.len() as int) == self.blobs@
            &&& new.blobs@.last().digest@ == digest_of(data)
            &&& new.blobs@.last().data@ == data
            &&& new.blobs@.last().mime@ == mime
            &&& new.blobs@.last().created_at == now
        } else {
            new.blobs@ == self.blobs@
        }
    }

    /// The pending upload that `user` may use under ticket `t` at time `now`.
    pub open spec fn pending_lookup(self, user: i64, t: Seq<char>, now: i64) -> Result<
        PendingUpload,
        Error,
    > {
        if !self.has_ticket(t) {
            Err(Error::BlobNotFound)
        } else {
            let p = self.pending@[self.ticket_index(t)];
            if now >= p.expires_at {
                Err(Error::BlobNotFound)
            } else if p.created_by != user {
                Err(Error::BlobWrongUser)
            } else {
                Ok(p)
            }
        }
    }

    /// What finalizing ticket `t` returns.
    pub open spec fn finish_result(self, user: i64, t: Seq<char>, now: i64, mime: Seq<char>) -> Result<
        FinalizeView,
        Error,
    > {
        match self.pending_lookup(user, t, now) {
            Err(e) => Err(e),
            Ok(p) => match opt_bytes(p.resolved_digest) {
                Some(d) => match self.metadata(d) {
                    Some(m) => Ok(
                        FinalizeView { digest: d, mime: m.mime, size: p.expected_length as int, created: false },
                    ),
                    None => Err(Error::BlobNotFound),
                },
                None => if !self.has_upload(p.temp_path@) {
                    Err(Error::BlobNotUploaded)
                } else {
                    let data = self.uploads@[self.upload_index(p.temp_path@)].data@;
                    if data.len() != p.expected_length {
                        Err(Error::BlobSizeMismatch)
                    } else {
                        self.store_result(data, mime)
                    }
                },
            },
        }
    }
}

/// Whether two pending uploads agree on everything but the resolved digest.
pub open spec fn same_but_resolved(a: PendingUpload, b: PendingUpload) -> bool {
    &&& a.ticket@ == b.ticket@
    &&& a.temp_path@ == b.temp_path@
    &&& a.expected_length == b.expected_length
    &&& a.created_by == b.created_by
    &&& a.created_at == b.created_at
    &&& a.expires_at == b.expires_at
}

impl BlobState {
    /// Everything is left as it was.
    pub open spec fn unchanged(self, new: BlobState) -> bool {
        &&& new.config == self.config
        &&& new.pending@ == self.pending@
        &&& new.blacklist@ == self.blacklist@
        &&& new.blobs@ == self.blobs@
        &&& new.uploads@ == self.uploads@
    }

    /// `new` has the uploads of `self` less the one at path `p`, if any.
    pub open spec fn upload_dropped(self, new: BlobState, p: Seq<char>) -> bool {
        if self.has_upload(p) {
            new.uploads@ == self.uploads@.remove(self.upload_index(p))
        } else {
            new.uploads@ == self.uploads@
        }
    }

    /// How finalizing ticket `t` changes the state.
    pub open spec fn finish_effect(
        self,
        new: BlobState,
        user: i64,
        t: Seq<char>,
        now: i64,
        mime: Seq<char>,
    ) -> bool {
        let r = self.finish_result(user, t, now, mime);
        let i = self.ticket_index(t);
        let p = self.pending@[i];
        if r == Err::<FinalizeView, Error>(Error::BlobSizeMismatch) {
            &&& new.config == self.config
            &&& new.pending@ == self.pending@
            &&& new.blacklist@ == self.blacklist@
            &&& new.blobs@ == self.blobs@
            &&& self.upload_dropped(new, p.temp_path@)
        } else if r is Ok && opt_bytes(p.resolved_digest) is None && r->Ok_0.size > 0 {
            let data = self.uploads@[self.upload_index(p.temp_path@)].data@;
            &&& new.config == self.config
            &&& new.blacklist@ == self.blacklist@
            &&& self.store_effect(new, data, mime, now)
            &&& self.upload_dropped(new, p.temp_path@)
            &&& new.pending@.len() == self.pending@.len()
            &&& forall|j: int|
                0 <= j < self.pending@.len() && j != i ==> new.pending@[j] == self.pending@[j]
            &&& same_but_resolved(new.pending@[i], p)
            &&& opt_bytes(new.pending@[i].resolved_digest) == Some(r->Ok_0.digest)
        } else {
            self.unchanged(new)
        }
    }
}

/// The blob service: upload slots, content-addressed storage, the
/// blacklist, and removal of stored blobs.
#[derive(Debug)]
pub struct BlobService;

proof fn lemma_blob_index(s: BlobState, i: int)
    requires
        s.wf(),
        0 <= i < s.blobs@.len(),
    ensures
        s.has_blob(s.blobs@[i].digest@),
        s.blob_index(s.blobs@[i].digest@) == i,
{
    let d = s.blobs@[i].digest@;
    assert(s.has_blob(d));
    let k = s.blob_index(d);
    if k != i {
        if k < i {
            assert(s.blobs@[k].digest@ != s.blobs@[i].digest@);
        } else {
            assert(s.blobs@[i].digest@ != s.blobs@[k].digest@);
        }
    }
}

proof fn lemma_upload_index(s: BlobState, i: int)
    requires
        s.wf(),
        0 <= i < s.uploads@.len(),
    ensures
        s.has_upload(s.uploads@[i].path@),
        s.upload_index(s.uploads@[i].path@) == i,
{
    let p = s.uploads@[i].path@;
    assert(s.has_upload(p));
    let k = s.upload_index(p);
    if k != i {
        if k < i {
            assert(s.uploads@[k].path@ != s.uploads@[i].path@);
        } else {
            assert(s.uploads@[i].path@ != s.uploads@[k].path@);
        }
    }
}

/// Replacing or adding the object at path `path` keeps every other
/// temporary object where it was found.
proof fn lemma_other_uploads_kept(o: BlobState, s: BlobState, path: Seq<char>)
    requires
        o.wf(),
        s.wf(),
        s.uploads@.len() >= o.uploads@.len(),
        forall|j: int|
            0 <= j < o.uploads@.len() && o.uploads@[j].path@ != path ==> s.uploads@[j]
                == o.uploads@[j],
        forall|j: int|
            0 <= j < s.uploads@.len() && (j >= o.uploads@.len() || o.uploads@[j].path@ == path)
                ==> s.uploads@[j].path@ == path,
    ensures
        forall|p: Seq<char>| p != path ==> (#[trigger] s.has_upload(p) == o.has_upload(p)),
        forall|p: Seq<char>|
            p != path && o.has_upload(p) ==> s.uploads@[#[trigger] s.upload_index(p)]
                == o.uploads@[o.upload_index(p)],
{
    assert forall|p: Seq<char>| p != path implies (#[trigger] s.has_upload(p) == o.has_upload(p)) by {
        if s.has_upload(p) {
            let j = s.upload_index(p);
            assert(o.uploads@[j].path@ == p);
        }
        if o.has_upload(p) {
            let j = o.upload_index(p);
            assert(s.uploads@[j].path@ == p);
        }
    }
    assert forall|p: Seq<char>| p != path && o.has_upload(p) implies s.uploads@[#[trigger] s.upload_index(p)]
        == o.uploads@[o.upload_index(p)] by {
        let j = o.upload_index(p);
        lemma_upload_index(o, j);
        assert(s.uploads@[j].path@ == p);
        lemma_upload_index(s, j);
    }
}

proof fn lemma_ticket_index(s: BlobState, i: int)
    requires
        s.wf(),
        0 <= i < s.pending@.len(),
    ensures
        s.has_ticket(s.pending@[i].ticket@),
        s.ticket_index(s.pending@[i].ticket@) == i,
{
    let t = s.pending@[i].ticket@;
    assert(s.has_ticket(t));
    let k = s.ticket_index(t);
    if k != i {
        if k < i {
            assert(s.pending@[k].ticket@ != s.pending@[i].ticket@);
        } else {
            assert(s.pending@[i].ticket@ != s.pending@[k].ticket@);
        }
    }
}

impl BlobService {
    /// A blob state with empty tables and an empty object store.
    pub fn new_state(config: BlobConfig) -> (r: BlobState)
        ensures
            r.wf(),
            r.config == config,
            r.pending@.len() == 0,
            r.blacklist@.len() == 0,
            r.blobs@.len() == 0,
            r.uploads@.len() == 0,
    {
        BlobState {
            config,
            pending: Vec::new(),
            blacklist: Vec::new(),
            blobs: Vec::new(),
            uploads: Vec::new(),
        }
    }

    /// Places `data` at the temporary path `path`, as a client does through
    /// its presigned URL; an object already there is replaced.
    pub fn put_upload(state: &mut BlobState, path: String, data: Vec<u8>)
        requires
            old(state).wf(),
        ensures
            final(state).wf(),
            final(state).config == old(state).config,
            final(state).pending@ == old(state).pending@,
            final(state).blacklist@ == old(state).blacklist@,
            final(state).blobs@ == old(state).blobs@,
            final(state).has_upload(path@),
            final(state).uploads@[final(state).upload_index(path@)].data@ == data@,
            forall|p: Seq<char>|
                p != path@ ==> (#[trigger] final(state).has_upload(p) == old(state).has_upload(p)),
            forall|p: Seq<char>|
                p != path@ && old(state).has_upload(p) ==> final(state).uploads@[#[trigger] final(state).upload_index(p)]
                    == old(state).uploads@[old(state).upload_index(p)],
    {
        match state.find_upload(&path) {
            Some(i) => {
                proof {
                    lemma_upload_index(*old(state), i as int);
                }
                state.uploads.set(i, TempObject { path, data });
                proof {
                    let s = *state;
                    assert forall|j: int, k: int|
                        0 <= j < k < s.uploads@.len() implies (#[trigger] s.uploads@[j]).path@
                        != (#[trigger] s.uploads@[k]).path@ by {
                        assert(old(state).uploads@[j].path@ != old(state).uploads@[k].path@);
                    }
                    lemma_upload_index(s, i as int);
                    lemma_other_uploads_kept(*old(state), s, path@);
                }
            },
            None => {
                state.uploads.push(TempObject { path, data });
                proof {
                    let s = *state;
                    let n = old(state).uploads@.len();
                    let key = |x: TempObject| x.path@;
                    lemma_push_keeps_keys_distinct(old(state).uploads@, s.uploads@.last(), key);
                    assert(s.uploads@ =~= old(state).uploads@.push(s.uploads@.last()));
                    assert forall|j: int, k: int|
                        0 <= j < k < s.uploads@.len() implies (#[trigger] s.uploads@[j]).path@
                        != (#[trigger] s.uploads@[k]).path@ by {
                        assert(key(s.uploads@[j]) != key(s.uploads@[k]));
                    }
                    lemma_upload_index(s, n as int);
                    lemma_other_uploads_kept(*old(state), s, path@);
                }
            },
        }
    }

    /// Stores `data` permanently under its digest, bypassing upload tickets.
    ///
    /// Empty content resolves to the empty blob without touching the store;
    /// content whose digest is blacklisted is refused; content already
    /// present is not written again.
    pub fn direct_upload(state: &mut BlobState, data: &Vec<u8>, mime: &String, now: i64) -> (r:
        Result<FinalizeBlobUploadOutput, Error>)
        requires
            old(state).wf(),
            data@.len() <= i64::MAX,
        ensures
            final(state).wf(),
            finalize_view(r) == old(state).store_result(data@, mime@),
            old(state).store_effect(*final(state), data@, mime@, now),
            final(state).config == old(state).config,
            final(state).pending@ == old(state).pending@,
            final(state).blacklist@ == old(state).blacklist@,
            final(state).uploads@ == old(state).uploads@,
    {
        let digest = compute_digest(data);
        if data.len() == 0 {
            return Ok(
                FinalizeBlobUploadOutput {
                    digest,
                    mime: empty_mime(),
                    size: 0,
                    created: false,
                },
            );
        }
        if is_empty_blob_digest(digest.as_slice()) {
            return Err(Error::BadRequest);
        }
        if state.find_blacklisted(digest.as_slice()).is_some() {
            return Err(Error::BlobBlacklisted);
        }
        let size = data.len() as i64;
        match state.find_blob(digest.as_slice()) {
            Some(i) => {
                proof {
                    lemma_blob_index(*old(state), i as int);
                }
                Ok(
                    FinalizeBlobUploadOutput {
                        digest,
                        mime: copy_string(&state.blobs[i].mime),
                        size,
                        created: false,
                    },
                )
            },
            None => {
                let stored = StoredBlob {
                    digest: copy_bytes(&digest),
                    data: copy_bytes(data),
                    mime: copy_string(mime),
                    created_at: now,
                };
                state.blobs.push(stored);
                proof {
                    let s = *state;
                    let n = old(state).blobs@.len();
                    assert(s.blobs@.subrange(0, n as int) =~= old(state).blobs@);
                    let key = |x: StoredBlob| x.digest@;
                    lemma_push_keeps_keys_distinct(old(state).blobs@, s.blobs@.last(), key);
                    assert(s.blobs@ =~= old(state).blobs@.push(s.blobs@.last()));
                    assert forall|j: int, k: int|
                        0 <= j < k < s.blobs@.len() implies (#[trigger] s.blobs@[j]).digest@
                        != (#[trigger] s.blobs@[k]).digest@ by {
                        assert(key(s.blobs@[j]) != key(s.blobs@[k]));
                    }
                }
                Ok(FinalizeBlobUploadOutput { digest, mime: copy_string(mime), size, created: true })
            },
        }
    }

    /// Removes the temporary object at `path`, if there is one.
    fn drop_upload(state: &mut BlobState, path: &String)
        requires
            old(state).wf(),
        ensures
            final(state).wf(),
            final(state).config == old(state).config,
            final(state).pending@ == old(state).pending@,
            final(state).blacklist@ == old(state).blacklist@,
            final(state).blobs@ == old(state).blobs@,
            old(state).upload_dropped(*final(state), path@),
    {
        match state.find_upload(path) {
            Some(i) => {
                proof {
                    lemma_upload_index(*old(state), i as int);
                }
                state.uploads.remove(i);
                proof {
                    let s = *state;
                    let key = |x: TempObject| x.path@;
                    lemma_remove_keeps_keys_distinct(old(state).uploads@, i as int, key);
                    assert forall|j: int, k: int|
                        0 <= j < k < s.uploads@.len() implies (#[trigger] s.uploads@[j]).path@
                        != (#[trigger] s.uploads@[k]).path@ by {
                        assert(key(s.uploads@[j]) != key(s.uploads@[k]));
                    }
                }
            },
            None => {},
        }
    }

    /// Finds the pending upload for `ticket`, checking expiry and ownership.
    fn lookup_pending(state: &BlobState, user_id: i64, ticket: &String, now: i64) -> (r: Result<
        usize,
        Error,
    >)
        requires
            state.wf(),
        ensures
            match r {
                Ok(i) => {
                    &&& i < state.pending@.len()
                    &&& state.has_ticket(ticket@)
                    &&& i == state.ticket_index(ticket@)
                    &&& state.pending_lookup(user_id, ticket@, now) == Ok::<PendingUpload, Error>(
                        state.pending@[i as int],
                    )
                },
                Err(e) => state.pending_lookup(user_id, ticket@, now) == Err::<PendingUpload, Error>(
                    e,
                ),
            },
    {
        match state.find_ticket(ticket) {
            None => Err(Error::BlobNotFound),
            Some(i) => {
                proof {
                    lemma_ticket_index(*state, i as int);
                }
                if now >= state.pending[i].expires_at {
                    Err(Error::BlobNotFound)
                } else if state.pending[i].created_by != user_id {
                    Err(Error::BlobWrongUser)
                } else {
                    Ok(i)
                }
            },
        }
    }

    /// The content of a blob, the empty blob included.
    pub fn get_optional(state: &BlobState, digest: &[u8]) -> (r: Option<Vec<u8>>)
        requires
            state.wf(),
        ensures
            opt_bytes(r) == state.content(digest@),
    {
        if is_empty_blob_digest(digest) {
            return Some(Vec::new());
        }
        match state.find_blob(digest) {
            Some(i) => {
                proof {
                    lemma_blob_index(*state, i as int);
                }
                Some(copy_bytes(&state.blobs[i].data))
            },
            None => None,
        }
    }

    /// The content of a blob; fails with `BlobNotFound` if there is none.
    pub fn get(state: &BlobState, digest: &[u8]) -> (r: Result<Vec<u8>, Error>)
        requires
            state.wf(),
        ensures
            match r {
                Ok(v) => state.content(digest@) == Some(v@),
                Err(e) => e == Error::BlobNotFound && state.content(digest@) is None,
            },
    {
        match Self::get_optional(state, digest) {
            Some(v) => Ok(v),
            None => Err(Error::BlobNotFound),
        }
    }

    /// The content of a blob if `should_fetch` is set, nothing otherwise.
    pub fn get_maybe(state: &BlobState, should_fetch: bool, digest: &[u8]) -> (r: Result<
        Option<Vec<u8>>,
        Error,
    >)
        requires
            state.wf(),
        ensures
            !should_fetch ==> r == Ok::<Option<Vec<u8>>, Error>(None),
            should_fetch ==> match r {
                Ok(Some(v)) => state.content(digest@) == Some(v@),
                Ok(None) => false,
                Err(e) => e == Error::BlobNotFound && state.content(digest@) is None,
            },
    {
        if should_fetch {
            let data = Self::get(state, digest)?;
            Ok(Some(data))
        } else {
            Ok(None)
        }
    }

    /// Whether a blob is present under `digest`; the empty blob always is.
    pub fn blob_exists(state: &BlobState, digest: &[u8]) -> (r: bool)
        requires
            state.wf(),
        ensures
            r == state.content(digest@) is Some,
    {
        if is_empty_blob_digest(digest) {
            return true;
        }
        state.find_blob(digest).is_some()
    }

    /// The metadata of a blob, the empty blob included.
    pub fn get_metadata_optional(state: &BlobState, digest: &[u8]) -> (r: Option<BlobMetadata>)
        requires
            state.wf(),
        ensures
            match r {
                Some(m) => state.metadata(digest@) == Some(m@),
                None => state.metadata(digest@) is None,
            },
    {
        if is_empty_blob_digest(digest) {
            return Some(BlobMetadata { mime: empty_mime(), size: 0, created_at: EMPTY_BLOB_TIMESTAMP });
        }
        match state.find_blob(digest) {
            Some(i) => {
                proof {
                    lemma_blob_index(*state, i as int);
                }
                let b = &state.blobs[i];
                Some(BlobMetadata { mime: copy_string(&b.mime), size: b.data.len() as i64, created_at: b.created_at })
            },
            None => None,
        }
    }

    /// Moves the content uploaded under `ticket` into permanent storage.
    ///
    /// A ticket that was already finalized returns its digest again, with the
    /// stored blob's MIME type and the promised length. Otherwise the
    /// uploaded bytes must exist and have the promised length (a mismatch
    /// deletes them); they are then stored like
    /// `direct_upload` does, with `mime` as the type of new content, the
    /// temporary object is removed and the ticket records the digest. Empty
    /// content resolves to the empty blob and changes nothing.
    pub fn finish_upload(
        state: &mut BlobState,
        user_id: i64,
        ticket: &String,
        now: i64,
        mime: &String,
    ) -> (r: Result<FinalizeBlobUploadOutput, Error>)
        requires
            old(state).wf(),
        ensures
            final(state).wf(),
            finalize_view(r) == old(state).finish_result(user_id, ticket@, now, mime@),
            old(state).finish_effect(*final(state), user_id, ticket@, now, mime@),
    {
        let i = Self::lookup_pending(state, user_id, ticket, now)?;
        match &state.pending[i].resolved_digest {
            Some(d) => {
                let d = copy_bytes(d);
                match Self::get_metadata_optional(state, d.as_slice()) {
                    Some(m) => Ok(
                        FinalizeBlobUploadOutput {
                            digest: d,
                            mime: m.mime,
                            size: state.pending[i].expected_length,
                            created: false,
                        },
                    ),
                    None => Err(Error::BlobNotFound),
                }
            },
            None => {
                let path = copy_string(&state.pending[i].temp_path);
                let expected = state.pending[i].expected_length;
                let j = match state.find_upload(&path) {
                    None => {
                        return Err(Error::BlobNotUploaded);
                    },
                    Some(j) => j,
                };
                proof {
                    lemma_upload_index(*old(state), j as int);
                }
                let len = state.uploads[j].data.len();
                if expected < 0 || len as u64 != expected as u64 {
                    Self::drop_upload(state, &path);
                    return Err(Error::BlobSizeMismatch);
                }
                let data = copy_bytes(&state.uploads[j].data);
                if len == 0 {
                    return Self::direct_upload(state, &data, mime, now);
                }
                let out = Self::direct_upload(state, &data, mime, now)?;
                let ghost s1 = *state;
                Self::drop_upload(state, &path);
                state.pending.set(i, PendingUpload {
                    ticket: copy_string(&state.pending[i].ticket),
                    temp_path: path,
                    expected_length: expected,
                    created_by: state.pending[i].created_by,
                    created_at: state.pending[i].created_at,
                    expires_at: state.pending[i].expires_at,
                    resolved_digest: Some(copy_bytes(&out.digest)),
                });
                proof {
                    let s = *state;
                    assert forall|a: int, b: int|
                        0 <= a < b < s.pending@.len() implies (#[trigger] s.pending@[a]).ticket@
                        != (#[trigger] s.pending@[b]).ticket@ by {
                        assert(old(state).pending@[a].ticket@ != old(state).pending@[b].ticket@);
                    }
                    assert(s.blobs@ == s1.blobs@);
                }
                Ok(out)
            },
        }
    }

    /// The metadata of a blob; fails with `BlobNotFound` if there is none.
    pub fn get_metadata(state: &BlobState, digest: &[u8]) -> (r: Result<BlobMetadata, Error>)
        requires
            state.wf(),
        ensures
            match r {
                Ok(m) => state.metadata(digest@) == Some(m@),
                Err(e) => e == Error::BlobNotFound && state.metadata(digest@) is None,
            },
    {
        match Self::get_metadata_optional(state, digest) {
            Some(m) => Ok(m),
            None => Err(Error::BlobNotFound),
        }
    }

    /// A blob's content together with its metadata; fails with
    /// `BlobNotFound` if there is none.
    pub fn blob_get(state: &BlobState, digest: &[u8]) -> (r: Result<GetBlobOutput, Error>)
        requires
            state.wf(),
        ensures
            match r {
                Ok(o) => state.content(digest@) == Some(o.data@) && state.metadata(digest@)
                    == Some(MetadataView { mime: o.mime@, size: o.size as int, created_at: o.created_at }),
                Err(e) => e == Error::BlobNotFound && state.content(digest@) is None,
            },
    {
        let data = Self::get(state, digest)?;
        let BlobMetadata { mime, size, created_at } = Self::get_metadata(state, digest)?;
        Ok(GetBlobOutput { data, mime, size, created_at })
    }

    /// Opens an upload slot with the given ticket and random path token.
    ///
    /// Fails with `BlobTooBig` if the promised size exceeds the configured
    /// maximum, and with `BlobTicketTaken` if the ticket is already in use.
    /// Otherwise records a pending upload at `uploads/<token>` that expires
    /// after the configured number of seconds.
    pub fn start_upload_with(
        state: &mut BlobState,
        input: StartBlobUpload,
        ticket: String,
        token: &str,
        now: i64,
    ) -> (r: Result<StartBlobUploadOutput, Error>)
        requires
            old(state).wf(),
            now + old(state).config.presigned_expiry_secs <= i64::MAX,
        ensures
            final(state).wf(),
            input.blob_size > old(state).config.maximum_blob_size ==> r == Err::<
                StartBlobUploadOutput,
                Error,
            >(Error::BlobTooBig),
            input.blob_size <= old(state).config.maximum_blob_size && old(state).has_ticket(ticket@)
                ==> r == Err::<StartBlobUploadOutput, Error>(Error::BlobTicketTaken),
            r is Err ==> old(state).unchanged(*final(state)),
            input.blob_size <= old(state).config.maximum_blob_size && !old(state).has_ticket(ticket@)
                ==> r is Ok,
            r is Ok ==> old(state).upload_started(*final(state), input, ticket@, now, r->Ok_0)
                && r->Ok_0.temp_path@ == temp_path_for(token@),
    {
        if input.blob_size > i64::MAX as u64 || input.blob_size as i64 > state.config.maximum_blob_size {
            return Err(Error::BlobTooBig);
        }
        if state.find_ticket(&ticket).is_some() {
            return Err(Error::BlobTicketTaken);
        }
        let mut path = PRESIGN_DIRECTORY.to_owned();
        path.append("/");
        path.append(token);
        let expires_at = now + state.config.presigned_expiry_secs as i64;
        let out = StartBlobUploadOutput {
            pending_blob_id: copy_string(&ticket),
            temp_path: copy_string(&path),
            expires_at,
        };
        state.pending.push(PendingUpload {
            ticket,
            temp_path: path,
            expected_length: input.blob_size as i64,
            created_by: input.user_id,
            created_at: now,
            expires_at,
            resolved_digest: None,
        });
        proof {
            let s = *state;
            let n = old(state).pending@.len();
            assert(s.pending@.subrange(0, n as int) =~= old(state).pending@);
            let key = |x: PendingUpload| x.ticket@;
            lemma_push_keeps_keys_distinct(old(state).pending@, s.pending@.last(), key);
            assert(s.pending@ =~= old(state).pending@.push(s.pending@.last()));
            assert forall|a: int, b: int|
                0 <= a < b < s.pending@.len() implies (#[trigger] s.pending@[a]).ticket@
                != (#[trigger] s.pending@[b]).ticket@ by {
                assert(key(s.pending@[a]) != key(s.pending@[b]));
            }
        }
        Ok(out)
    }

    /// Opens an upload slot under a freshly generated ticket and a random
    /// path token of the configured length.
    pub fn start_upload(state: &mut BlobState, input: StartBlobUpload, now: i64) -> (r: Result<
        StartBlobUploadOutput,
        Error,
    >)
        requires
            old(state).wf(),
            now + old(state).config.presigned_expiry_secs <= i64::MAX,
        ensures
            final(state).wf(),
            input.blob_size > old(state).config.maximum_blob_size ==> r == Err::<
                StartBlobUploadOutput,
                Error,
            >(Error::BlobTooBig),
            r is Err ==> old(state).unchanged(*final(state)),
            r is Err && input.blob_size <= old(state).config.maximum_blob_size ==> r == Err::<
                StartBlobUploadOutput,
                Error,
            >(Error::BlobTicketTaken),
            input.blob_size <= old(state).config.maximum_blob_size && old(state).pending@.len() == 0
                ==> r is Ok,
            r is Ok ==> old(state).upload_started(*final(state), input, r->Ok_0.pending_blob_id@, now, r->Ok_0)
                && r->Ok_0.temp_path@.len() == temp_path_for(Seq::empty()).len()
                + old(state).config.presigned_path_length && forall|i: int|
                temp_path_for(Seq::empty()).len() <= i < r->Ok_0.temp_path@.len()
                    ==> is_ascii_alphanumeric(#[trigger] r->Ok_0.temp_path@[i]),
    {
        let ticket = new_ticket();
        let mut token = String::new();
        append_random_alphanumeric(&mut token, state.config.presigned_path_length);
        let r = Self::start_upload_with(state, input, ticket, token.as_str(), now);
        proof {
            if r is Ok {
                let p = r->Ok_0.temp_path@;
                let k = temp_path_for(Seq::empty()).len();
                assert(temp_path_for(Seq::empty()) =~= PRESIGN_DIRECTORY@ + "/"@);
                assert forall|i: int| k <= i < p.len() implies is_ascii_alphanumeric(#[trigger] p[i]) by {
                    assert(p[i] == token@[i - k]);
                }
            }
        }
        r
    }

    /// Cancels an upload slot: the ticket is forgotten and any object at its
    /// temporary path is deleted.
    pub fn cancel_upload(state: &mut BlobState, user_id: i64, ticket: &String, now: i64) -> (r:
        Result<(), Error>)
        requires
            old(state).wf(),
        ensures
            final(state).wf(),
            match old(state).pending_lookup(user_id, ticket@, now) {
                Err(e) => r == Err::<(), Error>(e) && old(state).unchanged(*final(state)),
                Ok(p) => {
                    &&& r is Ok
                    &&& final(state).pending@ == old(state).pending@.remove(
                        old(state).ticket_index(ticket@),
                    )
                    &&& old(state).upload_dropped(*final(state), p.temp_path@)
                    &&& final(state).blobs@ == old(state).blobs@
                    &&& final(state).blacklist@ == old(state).blacklist@
                    &&& final(state).config == old(state).config
                },
            },
    {
        let i = Self::lookup_pending(state, user_id, ticket, now)?;
        let path = copy_string(&state.pending[i].temp_path);
        state.pending.remove(i);
        proof {
            let s = *state;
            let key = |x: PendingUpload| x.ticket@;
            lemma_remove_keeps_keys_distinct(old(state).pending@, i as int, key);
            assert forall|a: int, b: int|
                0 <= a < b < s.pending@.len() implies (#[trigger] s.pending@[a]).ticket@
                != (#[trigger] s.pending@[b]).ticket@ by {
                assert(key(s.pending@[a]) != key(s.pending@[b]));
            }
        }
        Self::drop_upload(state, &path);
        Ok(())
    }
}

/// The temporary object-store path for a random token.
pub open spec fn temp_path_for(token: Seq<char>) -> Seq<char> {
    PRESIGN_DIRECTORY@ + "/"@ + token
}

impl BlobState {
    /// `new` is `self` with a pending upload for `input` appended under
    /// ticket `t`, as `out` reports it.
    pub open spec fn upload_started(
        self,
        new: BlobState,
        input: StartBlobUpload,
        t: Seq<char>,
        now: i64,
        out: StartBlobUploadOutput,
    ) -> bool {
        let n = self.pending@.len();
        &&& out.pending_blob_id@ == t
        &&& out.expires_at == now + self.config.presigned_expiry_secs
        &&& new.config == self.config
        &&& new.blacklist@ == self.blacklist@
        &&& new.blobs@ == self.blobs@
        &&& new.uploads@ == self.uploads@
        &&& new.pending@.len() == n + 1
        &&& new.pending@.subrange(0, n as int) == self.pending@
        &&& new.pending@[n as int].ticket@ == t
        &&& new.pending@[n as int].temp_path@ == out.temp_path@
        &&& new.pending@[n as int].expected_length == input.blob_size
        &&& new.pending@[n as int].created_by == input.user_id
        &&& new.pending@[n as int].created_at == now
        &&& new.pending@[n as int].expires_at == out.expires_at
        &&& new.pending@[n as int].resolved_digest is None
    }
}

impl BlobService {
    /// Adds `digest` to the blacklist; a digest already there is left as is.
    pub fn add_blacklist(state: &mut BlobState, digest: &[u8], created_by: i64, now: i64)
        requires
            old(state).wf(),
        ensures
            final(state).wf(),
            final(state).is_blacklisted(digest@),
            final(state).config == old(state).config,
            final(state).pending@ == old(state).pending@,
            final(state).blobs@ == old(state).blobs@,
            final(state).uploads@ == old(state).uploads@,
            old(state).is_blacklisted(digest@) ==> final(state).blacklist@ == old(state).blacklist@,
            !old(state).is_blacklisted(digest@) ==> {
                let n = old(state).blacklist@.len();
                &&& final(state).blacklist@.len() == n + 1
                &&& final(state).blacklist@.subrange(0, n as int) == old(state).blacklist@
                &&& final(state).blacklist@[n as int].digest@ == digest@
                &&& final(state).blacklist@[n as int].created_by == created_by
                &&& final(state).blacklist@[n as int].created_at == now
            },
    {
        if state.find_blacklisted(digest).is_some() {
            return;
        }
        let mut d: Vec<u8> = Vec::new();
        d.extend_from_slice(digest);
        state.blacklist.push(BlacklistEntry { digest: d, created_by, created_at: now });
        proof {
            let s = *state;
            let n = old(state).blacklist@.len();
            assert(s.blacklist@.subrange(0, n as int) =~= old(state).blacklist@);
            assert(s.blacklist@[n as int].digest@ =~= digest@);
            let key = |x: BlacklistEntry| x.digest@;
            lemma_push_keeps_keys_distinct(old(state).blacklist@, s.blacklist@.last(), key);
            assert(s.blacklist@ =~= old(state).blacklist@.push(s.blacklist@.last()));
            assert forall|a: int, b: int|
                0 <= a < b < s.blacklist@.len() implies (#[trigger] s.blacklist@[a]).digest@
                != (#[trigger] s.blacklist@[b]).digest@ by {
                assert(key(s.blacklist@[a]) != key(s.blacklist@[b]));
            }
        }
    }

    /// Removes `digest` from the blacklist; an absent digest is no error.
    pub fn remove_blacklist(state: &mut BlobState, digest: &[u8])
        requires
            old(state).wf(),
        ensures
            final(state).wf(),
            !final(state).is_blacklisted(digest@),
            final(state).config == old(state).config,
            final(state).pending@ == old(state).pending@,
            final(state).blobs@ == old(state).blobs@,
            final(state).uploads@ == old(state).uploads@,
            forall|e: Seq<u8>|
                e != digest@ ==> (#[trigger] final(state).is_blacklisted(e) == old(
                    state,
                ).is_blacklisted(e)),
    {
        match state.find_blacklisted(digest) {
            None => {},
            Some(i) => {
                state.blacklist.remove(i);
                proof {
                    let s = *state;
                    let o = *old(state);
                    let key = |x: BlacklistEntry| x.digest@;
                    lemma_remove_keeps_keys_distinct(o.blacklist@, i as int, key);
                    assert forall|a: int, b: int|
                        0 <= a < b < s.blacklist@.len() implies (#[trigger] s.blacklist@[a]).digest@
                        != (#[trigger] s.blacklist@[b]).digest@ by {
                        assert(key(s.blacklist@[a]) != key(s.blacklist@[b]));
                    }
                    assert forall|e: Seq<u8>| e != digest@ implies (#[trigger] s.is_blacklisted(e)
                        == o.is_blacklisted(e)) by {
                        if s.is_blacklisted(e) {
                            let a = choose|a: int| 0 <= a < s.blacklist@.len() && (#[trigger] s.blacklist@[a]).digest@ == e;
                            let aa = if a < i { a } else { a + 1 };
                            assert(o.blacklist@[aa].digest@ == e);
                        }
                        if o.is_blacklisted(e) {
                            let a = choose|a: int| 0 <= a < o.blacklist@.len() && (#[trigger] o.blacklist@[a]).digest@ == e;
                            assert(a != i);
                            let aa = if a < i { a } else { a - 1 };
                            assert(s.blacklist@[aa].digest@ == e);
                        }
                    }
                    if s.is_blacklisted(digest@) {
                        let a = choose|a: int| 0 <= a < s.blacklist@.len() && (#[trigger] s.blacklist@[a]).digest@ == digest@;
                        let aa = if a < i { a } else { a + 1 };
                        if aa < i {
                            assert(o.blacklist@[aa].digest@ != o.blacklist@[i as int].digest@);
                        } else {
                            assert(o.blacklist@[i as int].digest@ != o.blacklist@[aa].digest@);
                        }
                    }
                }
            },
        }
    }

    /// Whether `digest` is on the blacklist.
    pub fn on_blacklist(state: &BlobState, digest: &[u8]) -> (r: bool)
        ensures
            r == state.is_blacklisted(digest@),
    {
        state.find_blacklisted(digest).is_some()
    }

    /// Deletes the permanent object under `digest`. The empty blob cannot be
    /// deleted (nothing happens), and an absent object is no error.
    pub fn hard_delete(state: &mut BlobState, digest: &[u8])
        requires
            old(state).wf(),
        ensures
            final(state).wf(),
            final(state).config == old(state).config,
            final(state).pending@ == old(state).pending@,
            final(state).blacklist@ == old(state).blacklist@,
            final(state).uploads@ == old(state).uploads@,
            !final(state).has_blob(digest@),
            old(state).has_blob(digest@) ==> final(state).blobs@ == old(state).blobs@.remove(
                old(state).blob_index(digest@),
            ),
            !old(state).has_blob(digest@) ==> final(state).blobs@ == old(state).blobs@,
            is_empty_digest(digest@) ==> final(state).blobs@ == old(state).blobs@,
    {
        if is_empty_blob_digest(digest) {
            proof {
                // The empty blob is never stored.
                if old(state).has_blob(digest@) {
                    let i = old(state).blob_index(digest@);
                    assert(!is_empty_digest(old(state).blobs@[i].digest@));
                }
            }
            return;
        }
        match state.find_blob(digest) {
            None => {},
            Some(i) => {
                proof {
                    lemma_blob_index(*old(state), i as int);
                }
                state.blobs.remove(i);
                proof {
                    let s = *state;
                    let o = *old(state);
                    let key = |b: StoredBlob| b.digest@;
                    lemma_remove_keeps_keys_distinct(o.blobs@, i as int, key);
                    assert forall|a: int, b: int|
                        0 <= a < b < s.blobs@.len() implies (#[trigger] s.blobs@[a]).digest@
                        != (#[trigger] s.blobs@[b]).digest@ by {
                        assert(key(s.blobs@[a]) != key(s.blobs@[b]));
                    }
                    if s.has_blob(digest@) {
                        let a = s.blob_index(digest@);
                        let aa = if a < i { a } else { a + 1 };
                        if aa < i {
                            assert(o.blobs@[aa].digest@ != o.blobs@[i as int].digest@);
                        } else {
                            assert(o.blobs@[i as int].digest@ != o.blobs@[aa].digest@);
                        }
                    }
                }
            },
        }
    }
}

/// Storing the same non-empty content a second time (for instance from a
/// second upload ticket) yields the same digest, writes nothing
/// (`created` is false), and leaves exactly one stored object under that
/// digest.
pub proof fn lemma_dedup(
    s0: BlobState,
    s1: BlobState,
    data: Seq<u8>,
    mime1: Seq<char>,
    mime2: Seq<char>,
    now: i64,
)
    requires
        s0.wf(),
        s1.wf(),
        data.len() > 0,
        s0.store_result(data, mime1) is Ok,
        s0.store_effect(s1, data, mime1, now),
        s1.blacklist@ == s0.blacklist@,
    ensures
        s1.store_result(data, mime2) is Ok,
        s1.store_result(data, mime2)->Ok_0.digest == s0.store_result(data, mime1)->Ok_0.digest,
        !s1.store_result(data, mime2)->Ok_0.created,
        s1.has_blob(digest_of(data)),
        forall|i: int, j: int|
            0 <= i < s1.blobs@.len() && 0 <= j < s1.blobs@.len() && s1.blobs@[i].digest@
                == digest_of(data) && s1.blobs@[j].digest@ == digest_of(data) ==> i == j,
{
    let d = digest_of(data);
    if s0.has_blob(d) {
        assert(s1.blobs@ == s0.blobs@);
        assert(s1.has_blob(d));
    } else {
        let n = s0.blobs@.len();
        assert(s1.blobs@[n as int].digest@ == d);
        assert(s1.has_blob(d));
    }
    assert(s1.is_blacklisted(d) == s0.is_blacklisted(d));
    assert forall|i: int, j: int|
        0 <= i < s1.blobs@.len() && 0 <= j < s1.blobs@.len() && s1.blobs@[i].digest@ == d
            && s1.blobs@[j].digest@ == d implies i == j by {
        if i < j {
            assert(s1.blobs@[i].digest@ != s1.blobs@[j].digest@);
        } else if j < i {
            assert(s1.blobs@[j].digest@ != s1.blobs@[i].digest@);
        }
    }
}

/// Content that was stored successfully is fetched back unchanged under the
/// digest that storing returned, the empty content included, unless other
/// content was already stored under the same digest.
pub proof fn lemma_round_trip(s0: BlobState, s1: BlobState, data: Seq<u8>, mime: Seq<char>, now: i64)
    requires
        s0.wf(),
        s1.wf(),
        s0.store_result(data, mime) is Ok,
        s0.store_effect(s1, data, mime, now),
        s0.content(digest_of(data)) is Some ==> s0.content(digest_of(data)) == Some(data),
    ensures
        s1.content(s0.store_result(data, mime)->Ok_0.digest) == Some(data),
{
    let d = digest_of(data);
    if data.len() == 0 {
        assert(is_empty_digest(d));
        assert(data =~= Seq::<u8>::empty());
    } else if s0.has_blob(d) {
        assert(s1.blobs@ == s0.blobs@);
    } else {
        let n = s0.blobs@.len();
        lemma_blob_index(s1, n as int);
    }
}

/// The empty blob is always present, with fixed metadata, whatever the
/// store holds.
pub proof fn lemma_empty_blob_present(s: BlobState, d: Seq<u8>)
    requires
        is_empty_digest(d),
    ensures
        s.content(d) == Some(Seq::<u8>::empty()),
        s.metadata(d) == Some(
            MetadataView { mime: empty_blob_mime(), size: 0, created_at: EMPTY_BLOB_TIMESTAMP },
        ),
{
}

/// Whether ticket `t` of `user` is open at `now`, not yet finalized, and has
/// exactly `data` (with the promised length) at its temporary path.
pub open spec fn ticket_holds(s: BlobState, user: i64, t: Seq<char>, now: i64, data: Seq<u8>) -> bool {
    &&& s.pending_lookup(user, t, now) is Ok
    &&& opt_bytes(s.pending_lookup(user, t, now)->Ok_0.resolved_digest) is None
    &&& s.has_upload(s.pending_lookup(user, t, now)->Ok_0.temp_path@)
    &&& s.uploads@[s.upload_index(s.pending_lookup(user, t, now)->Ok_0.temp_path@)].data@ == data
    &&& data.len() == s.pending_lookup(user, t, now)->Ok_0.expected_length
}

/// Finalizing two tickets that hold the same non-empty content yields the
/// same digest twice; the second finalization reports `created == false`,
/// writes nothing, and exactly one stored object has that digest.
pub proof fn lemma_dedup_tickets(
    s0: BlobState,
    s1: BlobState,
    s2: BlobState,
    data: Seq<u8>,
    user1: i64,
    t1: Seq<char>,
    user2: i64,
    t2: Seq<char>,
    now: i64,
    mime1: Seq<char>,
    mime2: Seq<char>,
)
    requires
        s0.wf(),
        s1.wf(),
        data.len() > 0,
        ticket_holds(s0, user1, t1, now, data),
        s0.finish_result(user1, t1, now, mime1) is Ok,
        s0.finish_effect(s1, user1, t1, now, mime1),
        ticket_holds(s1, user2, t2, now, data),
        s1.finish_effect(s2, user2, t2, now, mime2),
    ensures
        s1.finish_result(user2, t2, now, mime2) is Ok,
        s1.finish_result(user2, t2, now, mime2)->Ok_0.digest == s0.finish_result(
            user1,
            t1,
            now,
            mime1,
        )->Ok_0.digest,
        !s1.finish_result(user2, t2, now, mime2)->Ok_0.created,
        s2.blobs@ == s1.blobs@,
        forall|i: int, j: int|
            0 <= i < s2.blobs@.len() && 0 <= j < s2.blobs@.len() && s2.blobs@[i].digest@
                == digest_of(data) && s2.blobs@[j].digest@ == digest_of(data) ==> i == j,
{
    assert(s0.finish_result(user1, t1, now, mime1) == s0.store_result(data, mime1));
    assert(s0.store_effect(s1, data, mime1, now));
    lemma_dedup(s0, s1, data, mime1, mime2, now);
    assert(s1.finish_result(user2, t2, now, mime2) == s1.store_result(data, mime2));
}

/// Finalizing a ticket that holds `data` and then fetching the returned
/// digest gives back exactly `data`, the empty content included, unless
/// other content was already stored under the same digest.
pub proof fn lemma_round_trip_ticket(
    s0: BlobState,
    s1: BlobState,
    data: Seq<u8>,
    user: i64,
    t: Seq<char>,
    now: i64,
    mime: Seq<char>,
)
    requires
        s0.wf(),
        s1.wf(),
        ticket_holds(s0, user, t, now, data),
        s0.finish_result(user, t, now, mime) is Ok,
        s0.finish_effect(s1, user, t, now, mime),
        s0.content(digest_of(data)) is Some ==> s0.content(digest_of(data)) == Some(data),
    ensures
        s1.content(s0.finish_result(user, t, now, mime)->Ok_0.digest) == Some(data),
{
    assert(s0.finish_result(user, t, now, mime) == s0.store_result(data, mime));
    if data.len() == 0 {
        assert(is_empty_digest(digest_of(data)));
        assert(data =~= Seq::<u8>::empty());
    } else {
        lemma_round_trip(s0, s1, data, mime, now);
    }
}

} // verus!
