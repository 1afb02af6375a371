//! Files attached to pages and their append-only revision history, with
//! optimistic concurrency through revision tokens.
use vstd::prelude::*;
use crate::blob::{BlobService, FinalizeView};
use crate::digest::{empty_digest, DIGEST_LENGTH};
use crate::error::Error;
use crate::maybe::Maybe;
use crate::model::{
    bytes_eq, copy_bytes, copy_string, BlobConfig, BlobState, Database, FileEntity, FileRevision, FileState,
    RevisionType,
};
use crate::name::{check_file_name, name_ok, trim};

verus! {

/// Request to create a file from an upload ticket, or from bytes handed
/// over directly by a trusted caller.
#[derive(Debug)]
pub struct CreateFile {
    pub site_id: i64,
    pub page_id: i64,
    pub name: String,
    pub uploaded_blob_id: String,
    pub direct_upload: Option<Vec<u8>>,
    pub revision_comments: String,
    pub user_id: i64,
}

/// The new file and its first revision.
#[derive(Debug, Clone, Copy, PartialEq, Eq, Structural)]
pub struct CreateFileOutput {
    pub file_id: i64,
    pub file_revision_id: i64,
    pub file_revision_number: i64,
}

/// Request to edit a file's name and/or content.
#[derive(Debug)]
pub struct EditFile {
    pub site_id: i64,
    pub page_id: i64,
    pub file_id: i64,
    pub user_id: i64,
    pub last_revision_id: i64,
    pub revision_comments: String,
    pub name: Maybe<String>,
    pub uploaded_blob_id: Maybe<String>,
    /// Bytes handed over directly by a trusted caller; used in place of the
    /// upload ticket when new content is given.
    pub direct_upload: Maybe<Vec<u8>>,
}

/// The revision that a mutation appended.
#[derive(Debug, Clone, Copy, PartialEq, Eq, Structural)]
pub struct EditFileOutput {
    pub file_revision_id: i64,
    pub file_revision_number: i64,
}

/// The file service: creation and mutation of files, each mutation
/// appending one revision.
#[derive(Debug)]
pub struct FileService;

/// Checks the caller's concurrency token against the latest revision.
pub fn check_last_revision(last_revision: &FileRevision, last_revision_id: i64) -> (r: Result<
    (),
    Error,
>)
    ensures
        r is Ok <==> last_revision.revision_id == last_revision_id,
        r is Err ==> r == Err::<(), Error>(Error::StaleConcurrencyToken),
{
    if last_revision.revision_id != last_revision_id {
        return Err(Error::StaleConcurrencyToken);
    }
    Ok(())
}

impl FileState {
    /// The live file `id` on page `page` of site `site`.
    pub open spec fn locate(self, site: i64, page: i64, id: i64) -> bool {
        &&& self.has_file(id)
        &&& self.file(id).is_live()
        &&& self.file(id).site_id == site
        &&& self.file(id).page_id == page
    }

    /// `new` is `self` with one revision appended to the file at position
    /// `i`, numbered next in its history and identified by the counter.
    pub open spec fn appended(
        self,
        new: FileState,
        i: int,
        t: RevisionType,
        user: i64,
        now: i64,
        comments: Seq<char>,
    ) -> bool {
        let old_revs = self.files@[i].revisions@;
        let rev = new.files@[i].revisions@.last();
        &&& new.files@.len() == self.files@.len()
        &&& forall|j: int| 0 <= j < self.files@.len() && j != i ==> new.files@[j] == self.files@[j]
        &&& new.next_revision_id == self.next_revision_id + 1
        &&& new.files@[i].file_id == self.files@[i].file_id
        &&& new.files@[i].site_id == self.files@[i].site_id
        &&& new.files@[i].created_at == self.files@[i].created_at
        &&& new.files@[i].revisions@.len() == old_revs.len() + 1
        &&& new.files@[i].revisions@.subrange(0, old_revs.len() as int) == old_revs
        &&& rev.revision_id == self.next_revision_id
        &&& rev.revision_number == old_revs.len() + 1
        &&& rev.revision_type == t
        &&& rev.created_by == user
        &&& rev.created_at == now
        &&& rev.comments@ == comments
        &&& rev.site_id == self.files@[i].site_id
    }
}

/// Whether revision `rev` records the file state `(name, page)` with the
/// given content.
pub open spec fn records(rev: FileRevision, name: Seq<char>, page: i64, digest: Seq<u8>, mime: Seq<char>, size: i64) -> bool {
    &&& rev.name@ == name
    &&& rev.page_id == page
    &&& rev.digest@ == digest
    &&& rev.mime@ == mime
    &&& rev.size == size
}

impl FileService {
    /// Fails with `EntityExists` if a live file other than `except` is named
    /// `name` on page `page_id`.
    pub fn check_conflicts(state: &FileState, page_id: i64, name: &String, except: i64) -> (r:
        Result<(), Error>)
        requires
            state.wf(),
        ensures
            r is Ok <==> !state.name_taken(page_id, name@, except as int),
            r is Err ==> r == Err::<(), Error>(Error::EntityExists),
    {
        let mut i: usize = 0;
        while i < state.files.len()
            invariant
                state.wf(),
                i <= state.files@.len(),
                forall|j: int|
                    0 <= j < i ==> !(j + 1 != except && (#[trigger] state.files@[j]).is_live()
                        && state.files@[j].page_id == page_id && state.files@[j].name@ == name@),
            decreases state.files@.len() - i,
        {
            let f = &state.files[i];
            if f.file_id != except && f.deleted_at.is_none() && f.page_id == page_id
                && f.name == *name {
                assert(state.files@[i as int].is_live());
                return Err(Error::EntityExists);
            }
            i = i + 1;
        }
        Ok(())
    }

    /// Position of the live file `file_id` on the given site and page.
    fn locate(state: &FileState, site_id: i64, page_id: i64, file_id: i64) -> (r: Result<
        usize,
        Error,
    >)
        requires
            state.wf(),
        ensures
            r is Ok <==> state.locate(site_id, page_id, file_id),
            r is Ok ==> r->Ok_0 == file_id - 1,
            r is Err ==> r == Err::<usize, Error>(Error::EntityNotFound),
    {
        if file_id < 1 || file_id as u64 > state.files.len() as u64 {
            return Err(Error::EntityNotFound);
        }
        let i = (file_id - 1) as usize;
        let f = &state.files[i];
        if f.deleted_at.is_some() || f.site_id != site_id || f.page_id != page_id {
            return Err(Error::EntityNotFound);
        }
        Ok(i)
    }

    /// Appends a revision to the file at position `i`, taking the next
    /// revision number and identifier.
    fn append_revision(
        state: &mut FileState,
        i: usize,
        revision_type: RevisionType,
        user_id: i64,
        now: i64,
        comments: String,
        name: String,
        page_id: i64,
        digest: Vec<u8>,
        mime: String,
        size: i64,
    ) -> (out: EditFileOutput)
        requires
            old(state).wf(),
            i < old(state).files@.len(),
            old(state).next_revision_id < i64::MAX,
        ensures
            final(state).wf(),
            old(state).appended(*final(state), i as int, revision_type, user_id, now, comments@),
            records(final(state).files@[i as int].revisions@.last(), name@, page_id, digest@, mime@, size),
            !final(state).files@[i as int].revisions@.last().digest_hidden,
            final(state).files@[i as int].name == old(state).files@[i as int].name,
            final(state).files@[i as int].page_id == old(state).files@[i as int].page_id,
            final(state).files@[i as int].deleted_at == old(state).files@[i as int].deleted_at,
            final(state).files@[i as int].updated_at == old(state).files@[i as int].updated_at,
            out.file_revision_id == old(state).next_revision_id,
            out.file_revision_number == old(state).files@[i as int].revisions@.len() + 1,
    {
        let n = state.files[i].revisions.len();
        proof {
            assert(state.files@[i as int].revisions@[n - 1].revision_number == n);
            assert(n <= state.files@[i as int].revisions@[n - 1].revision_id);
        }
        let revision_id = state.next_revision_id;
        let site_id = state.files[i].site_id;
        let rev = FileRevision {
            revision_id,
            revision_number: (n as i64) + 1,
            revision_type,
            created_at: now,
            created_by: user_id,
            site_id,
            page_id,
            name,
            digest,
            mime,
            size,
            comments,
            digest_hidden: false,
        };
        state.files[i].revisions.push(rev);
        state.next_revision_id = revision_id + 1;
        proof {
            let s = *state;
            let o = *old(state);
            assert(s.files@[i as int].revisions@.subrange(0, n as int) =~= o.files@[i as int].revisions@);
            assert forall|a: int, k: int|
                0 <= a < s.files@.len() && 0 <= k < s.files@[a].revisions@.len() implies {
                    &&& (#[trigger] s.files@[a].revisions@[k]).revision_number == k + 1
                    &&& k + 1 <= s.files@[a].revisions@[k].revision_id < s.next_revision_id
                } by {
                if a != i || k < n {
                    assert(s.files@[a].revisions@[k] == o.files@[a].revisions@[k]);
                }
            }
            assert forall|a: int, b: int|
                0 <= a < b < s.files@.len() && (#[trigger] s.files@[a]).is_live()
                    && (#[trigger] s.files@[b]).is_live() && s.files@[a].page_id
                    == s.files@[b].page_id implies s.files@[a].name@ != s.files@[b].name@ by {
                assert(o.files@[a].is_live() && o.files@[b].is_live());
            }
        }
        EditFileOutput { file_revision_id: revision_id, file_revision_number: (n as i64) + 1 }
    }

    /// Sets the name, page, deletion and update times of the file at
    /// position `i`, which must not clash with another live file.
    fn set_file_meta(
        state: &mut FileState,
        i: usize,
        name: String,
        page_id: i64,
        deleted_at: Option<i64>,
        updated_at: Option<i64>,
    )
        requires
            old(state).wf(),
            i < old(state).files@.len(),
            deleted_at is None ==> !old(state).name_taken(page_id, name@, i + 1),
        ensures
            final(state).wf(),
            final(state).next_revision_id == old(state).next_revision_id,
            final(state).files@.len() == old(state).files@.len(),
            forall|j: int|
                0 <= j < old(state).files@.len() && j != i ==> final(state).files@[j] == old(
                    state,
                ).files@[j],
            final(state).files@[i as int].revisions == old(state).files@[i as int].revisions,
            final(state).files@[i as int].file_id == old(state).files@[i as int].file_id,
            final(state).files@[i as int].site_id == old(state).files@[i as int].site_id,
            final(state).files@[i as int].created_at == old(state).files@[i as int].created_at,
            final(state).files@[i as int].name@ == name@,
            final(state).files@[i as int].page_id == page_id,
            final(state).files@[i as int].deleted_at == deleted_at,
            final(state).files@[i as int].updated_at == updated_at,
    {
        state.files[i].name = name;
        state.files[i].page_id = page_id;
        state.files[i].deleted_at = deleted_at;
        state.files[i].updated_at = updated_at;
        proof {
            let s = *state;
            let o = *old(state);
            assert forall|a: int, k: int|
                0 <= a < s.files@.len() && 0 <= k < s.files@[a].revisions@.len() implies {
                    &&& (#[trigger] s.files@[a].revisions@[k]).revision_number == k + 1
                    &&& k + 1 <= s.files@[a].revisions@[k].revision_id < s.next_revision_id
                } by {
                assert(s.files@[a].revisions@[k] == o.files@[a].revisions@[k]);
            }
            assert forall|a: int, b: int|
                0 <= a < b < s.files@.len() && (#[trigger] s.files@[a]).is_live()
                    && (#[trigger] s.files@[b]).is_live() && s.files@[a].page_id
                    == s.files@[b].page_id implies s.files@[a].name@ != s.files@[b].name@ by {
                if a == i {
                    assert(o.files@[b].file_id == b + 1);
                    assert(!(b + 1 != i + 1 && o.files@[b].is_live() && o.files@[b].page_id == page_id
                        && o.files@[b].name@ == name@));
                } else if b == i {
                    assert(o.files@[a].file_id == a + 1);
                    assert(!(a + 1 != i + 1 && o.files@[a].is_live() && o.files@[a].page_id == page_id
                        && o.files@[a].name@ == name@));
                }
            }
        }
    }

    /// Creates a file: validates and trims the name, checks that no live
    /// file on the page has it, finalizes the content (from the upload
    /// ticket, or from the bytes handed over directly), and records the
    /// first revision.
    pub fn create(db: &mut Database, input: CreateFile, now: i64, mime: &String) -> (r: Result<
        CreateFileOutput,
        Error,
    >)
        requires
            old(db).wf(),
            old(db).file.next_revision_id < i64::MAX,
            old(db).file.files@.len() + 1 < i64::MAX,
            input.direct_upload matches Some(d) ==> d@.len() <= i64::MAX,
        ensures
            final(db).wf(),
            create_post(*old(db), *final(db), input, now, mime@, r),
    {
        let mut name = copy_string(&input.name);
        check_file_name(&mut name)?;
        Self::check_conflicts(&db.file, input.page_id, &name, 0)?;
        let blob = match &input.direct_upload {
            None => BlobService::finish_upload(
                &mut db.blob,
                input.user_id,
                &input.uploaded_blob_id,
                now,
                mime,
            )?,
            Some(data) => BlobService::direct_upload(&mut db.blob, data, mime, now)?,
        };
        let n = db.file.files.len();
        let revision_id = db.file.next_revision_id;
        let rev = FileRevision {
            revision_id,
            revision_number: 1,
            revision_type: RevisionType::First,
            created_at: now,
            created_by: input.user_id,
            site_id: input.site_id,
            page_id: input.page_id,
            name: copy_string(&name),
            digest: blob.digest,
            mime: blob.mime,
            size: blob.size,
            comments: copy_string(&input.revision_comments),
            digest_hidden: false,
        };
        let mut revisions: Vec<FileRevision> = Vec::new();
        revisions.push(rev);
        let file_id = (n as i64) + 1;
        db.file.files.push(FileEntity {
            file_id,
            site_id: input.site_id,
            page_id: input.page_id,
            name,
            created_at: now,
            updated_at: None,
            deleted_at: None,
            revisions,
        });
        db.file.next_revision_id = revision_id + 1;
        proof {
            let s = db.file;
            let o = old(db).file;
            assert(s.files@.subrange(0, n as int) =~= o.files@);
            assert forall|a: int| 0 <= a < s.files@.len() implies (#[trigger] s.files@[a]).file_id == a + 1
                && s.files@[a].revisions@.len() >= 1 && s.files@[a].revisions@[0].revision_type == RevisionType::First by {
                if a < n {
                    assert(s.files@[a] == o.files@[a]);
                }
            }
            assert forall|a: int, k: int|
                0 <= a < s.files@.len() && 0 <= k < s.files@[a].revisions@.len() implies {
                    &&& (#[trigger] s.files@[a].revisions@[k]).revision_number == k + 1
                    &&& k + 1 <= s.files@[a].revisions@[k].revision_id < s.next_revision_id
                } by {
                if a < n {
                    assert(s.files@[a] == o.files@[a]);
                }
            }
            assert forall|a: int, b: int|
                0 <= a < b < s.files@.len() && (#[trigger] s.files@[a]).is_live()
                    && (#[trigger] s.files@[b]).is_live() && s.files@[a].page_id
                    == s.files@[b].page_id implies s.files@[a].name@ != s.files@[b].name@ by {
                if b == n {
                    assert(o.files@[a].file_id == a + 1);
                    assert(!(a + 1 != 0 && o.files@[a].is_live() && o.files@[a].page_id
                        == input.page_id && o.files@[a].name@ == s.files@[b].name@));
                }
            }
        }
        Ok(
            CreateFileOutput {
                file_id,
                file_revision_id: revision_id,
                file_revision_number: 1,
            },
        )
    }
}

impl CreateFile {
    /// What finalizing this request's content returns.
    pub open spec fn blob_result(self, blob: BlobState, now: i64, mime: Seq<char>) -> Result<
        FinalizeView,
        Error,
    > {
        match self.direct_upload {
            Some(d) => blob.store_result(d@, mime),
            None => blob.finish_result(self.user_id, self.uploaded_blob_id@, now, mime),
        }
    }

    /// How finalizing this request's content changes the blob state.
    pub open spec fn blob_effect(
        self,
        old: BlobState,
        new: BlobState,
        now: i64,
        mime: Seq<char>,
    ) -> bool {
        match self.direct_upload {
            Some(d) => {
                &&& old.store_effect(new, d@, mime, now)
                &&& new.config == old.config
                &&& new.pending@ == old.pending@
                &&& new.blacklist@ == old.blacklist@
                &&& new.uploads@ == old.uploads@
            },
            None => old.finish_effect(new, self.user_id, self.uploaded_blob_id@, now, mime),
        }
    }
}

impl Database {
    /// Nothing is changed.
    pub open spec fn unchanged(self, new: Database) -> bool {
        &&& self.blob.unchanged(new.blob)
        &&& new.file == self.file
        &&& new.users == self.users
    }
}

/// The outcome of `FileService::create`.
pub open spec fn create_post(
    old: Database,
    new: Database,
    input: CreateFile,
    now: i64,
    mime: Seq<char>,
    r: Result<CreateFileOutput, Error>,
) -> bool {
    let n = trim(input.name@);
    if !name_ok(n) {
        r == Err::<CreateFileOutput, Error>(Error::InvalidName) && old.unchanged(new)
    } else if old.file.name_taken(input.page_id, n, 0) {
        r == Err::<CreateFileOutput, Error>(Error::EntityExists) && old.unchanged(new)
    } else {
        &&& input.blob_effect(old.blob, new.blob, now, mime)
        &&& new.users == old.users
        &&& match input.blob_result(old.blob, now, mime) {
            Err(e) => r == Err::<CreateFileOutput, Error>(e) && new.file == old.file,
            Ok(b) => {
                let k = old.file.files@.len();
                let f = new.file.files@[k as int];
                &&& r == Ok::<CreateFileOutput, Error>(
                    CreateFileOutput {
                        file_id: (k + 1) as i64,
                        file_revision_id: old.file.next_revision_id,
                        file_revision_number: 1,
                    },
                )
                &&& new.file.next_revision_id == old.file.next_revision_id + 1
                &&& new.file.files@.len() == k + 1
                &&& new.file.files@.subrange(0, k as int) == old.file.files@
                &&& f.site_id == input.site_id
                &&& f.page_id == input.page_id
                &&& f.name@ == n
                &&& f.created_at == now
                &&& f.deleted_at is None
                &&& f.updated_at is None
                &&& f.revisions@.len() == 1
                &&& f.revisions@[0].revision_id == old.file.next_revision_id
                &&& f.revisions@[0].revision_type == RevisionType::First
                &&& f.revisions@[0].created_by == input.user_id
                &&& f.revisions@[0].created_at == now
                &&& f.revisions@[0].comments@ == input.revision_comments@
                &&& !f.revisions@[0].digest_hidden
                &&& records(f.revisions@[0], n, input.page_id, b.digest, b.mime, b.size as i64)
                &&& f.revisions@[0].size == b.size
            },
        }
    }
}

/// The name that an edit leaves the file with.
pub open spec fn edited_name(input: EditFile, current: Seq<char>) -> Seq<char> {
    match input.name {
        Maybe::Provided(n) => trim(n@),
        Maybe::Unset => current,
    }
}

/// How a successful edit changes the files: when the name or the content
/// changes, a `Regular` revision is appended and the file takes the new
/// name; otherwise nothing happens and no revision is reported.
pub open spec fn edit_applied(
    fs: FileState,
    nf: FileState,
    input: EditFile,
    blob: Option<FinalizeView>,
    now: i64,
    r: Result<Option<EditFileOutput>, Error>,
) -> bool {
    let f = fs.file(input.file_id);
    let i = input.file_id - 1;
    let latest = f.latest();
    let name = edited_name(input, f.name@);
    let changed = name != f.name@ || (blob is Some && blob->Some_0.digest != latest.digest@);
    if !changed {
        r == Ok::<Option<EditFileOutput>, Error>(None) && nf == fs
    } else {
        let rev = nf.files@[i].revisions@.last();
        &&& r == Ok::<Option<EditFileOutput>, Error>(
            Some(
                EditFileOutput {
                    file_revision_id: fs.next_revision_id,
                    file_revision_number: (latest.revision_number + 1) as i64,
                },
            ),
        )
        &&& fs.appended(nf, i, RevisionType::Regular, input.user_id, now, input.revision_comments@)
        &&& nf.files@[i].name@ == name
        &&& nf.files@[i].page_id == f.page_id
        &&& nf.files@[i].deleted_at == f.deleted_at
        &&& nf.files@[i].updated_at == Some(now)
        &&& match blob {
            Some(b) => records(rev, name, f.page_id, b.digest, b.mime, b.size as i64),
            None => records(rev, name, f.page_id, latest.digest@, latest.mime@, latest.size),
        }
    }
}

/// The outcome of `FileService::edit`.
pub open spec fn edit_post(
    old: Database,
    new: Database,
    input: EditFile,
    now: i64,
    mime: Seq<char>,
    r: Result<Option<EditFileOutput>, Error>,
) -> bool {
    let fs = old.file;
    if !fs.locate(input.site_id, input.page_id, input.file_id) {
        r == Err::<Option<EditFileOutput>, Error>(Error::EntityNotFound) && old.unchanged(new)
    } else if fs.file(input.file_id).latest().revision_id != input.last_revision_id {
        r == Err::<Option<EditFileOutput>, Error>(Error::StaleConcurrencyToken) && old.unchanged(
            new,
        )
    } else if input.name matches Maybe::Provided(n) && !name_ok(trim(n@)) {
        r == Err::<Option<EditFileOutput>, Error>(Error::InvalidName) && old.unchanged(new)
    } else if input.name matches Maybe::Provided(n) && fs.name_taken(
        input.page_id,
        trim(n@),
        input.file_id as int,
    ) {
        r == Err::<Option<EditFileOutput>, Error>(Error::EntityExists) && old.unchanged(new)
    } else {
        &&& new.users == old.users
        &&& match input.uploaded_blob_id {
            Maybe::Provided(_) => {
                &&& input.blob_effect(old.blob, new.blob, now, mime)
                &&& match input.blob_result(old.blob, now, mime) {
                    Err(e) => r == Err::<Option<EditFileOutput>, Error>(e) && new.file == old.file,
                    Ok(b) => edit_applied(fs, new.file, input, Some(b), now, r),
                }
            },
            Maybe::Unset => old.blob.unchanged(new.blob) && edit_applied(
                fs,
                new.file,
                input,
                None,
                now,
                r,
            ),
        }
    }
}

impl EditFile {
    /// What finalizing this edit's new content returns: the bytes handed
    /// over directly if there are any, else those of the upload ticket.
    pub open spec fn blob_result(self, blob: BlobState, now: i64, mime: Seq<char>) -> Result<
        FinalizeView,
        Error,
    > {
        match self.direct_upload {
            Maybe::Provided(d) => blob.store_result(d@, mime),
            Maybe::Unset => blob.finish_result(
                self.user_id,
                self.uploaded_blob_id->Provided_0@,
                now,
                mime,
            ),
        }
    }

    /// How finalizing this edit's new content changes the blob state.
    pub open spec fn blob_effect(
        self,
        old: BlobState,
        new: BlobState,
        now: i64,
        mime: Seq<char>,
    ) -> bool {
        match self.direct_upload {
            Maybe::Provided(d) => {
                &&& old.store_effect(new, d@, mime, now)
                &&& new.config == old.config
                &&& new.pending@ == old.pending@
                &&& new.blacklist@ == old.blacklist@
                &&& new.uploads@ == old.uploads@
            },
            Maybe::Unset => old.finish_effect(
                new,
                self.user_id,
                self.uploaded_blob_id->Provided_0@,
                now,
                mime,
            ),
        }
    }
}

impl FileService {
    /// Edits a file's name and/or content, appending a `Regular` revision.
    ///
    /// The file must be live on the given page, and `last_revision_id` must
    /// be its latest revision. A new name is validated and must not clash
    /// with another live file on the page. New content, announced by an
    /// upload ticket, is stored from the bytes handed over directly if there
    /// are any, else finalized from the ticket. Returns `None` when neither
    /// the name nor the content changes.
    pub fn edit(db: &mut Database, input: EditFile, now: i64, mime: &String) -> (r: Result<
        Option<EditFileOutput>,
        Error,
    >)
        requires
            old(db).wf(),
            old(db).file.next_revision_id < i64::MAX,
            input.direct_upload matches Maybe::Provided(d) ==> d@.len() <= i64::MAX,
        ensures
            final(db).wf(),
            edit_post(*old(db), *final(db), input, now, mime@, r),
    {
        let i = Self::locate(&db.file, input.site_id, input.page_id, input.file_id)?;
        let n = db.file.files[i].revisions.len();
        check_last_revision(&db.file.files[i].revisions[n - 1], input.last_revision_id)?;
        let new_name = match &input.name {
            Maybe::Provided(nm) => {
                let mut nm = copy_string(nm);
                check_file_name(&mut nm)?;
                Self::check_conflicts(&db.file, input.page_id, &nm, input.file_id)?;
                nm
            },
            Maybe::Unset => copy_string(&db.file.files[i].name),
        };
        let blob = match &input.uploaded_blob_id {
            Maybe::Provided(t) => Some(
                match &input.direct_upload {
                    Maybe::Provided(data) => BlobService::direct_upload(&mut db.blob, data, mime, now)?,
                    Maybe::Unset => BlobService::finish_upload(&mut db.blob, input.user_id, t, now, mime)?,
                },
            ),
            Maybe::Unset => None,
        };
        let (digest, bmime, size, new_content) = match blob {
            Some(b) => {
                let differs = !bytes_eq(
                    b.digest.as_slice(),
                    db.file.files[i].revisions[n - 1].digest.as_slice(),
                );
                (b.digest, b.mime, b.size, differs)
            },
            None => {
                let latest = &db.file.files[i].revisions[n - 1];
                (copy_bytes(&latest.digest), copy_string(&latest.mime), latest.size, false)
            },
        };
        let renamed = new_name != db.file.files[i].name;
        if !renamed && !new_content {
            return Ok(None);
        }
        let page_id = db.file.files[i].page_id;
        let deleted_at = db.file.files[i].deleted_at;
        let out = Self::append_revision(
            &mut db.file,
            i,
            RevisionType::Regular,
            input.user_id,
            now,
            copy_string(&input.revision_comments),
            copy_string(&new_name),
            page_id,
            digest,
            bmime,
            size,
        );
        proof {
            if renamed {
                assert(input.name is Provided);
            }
        }
        Self::set_file_meta(&mut db.file, i, new_name, page_id, deleted_at, Some(now));
        proof {
            let s = db.file;
            assert(s.files@[i as int].revisions@ == old(db).file.files@[i as int].revisions@.push(
                s.files@[i as int].revisions@.last(),
            )) by {
                assert(s.files@[i as int].revisions@ =~= old(db).file.files@[i as int].revisions@.push(
                    s.files@[i as int].revisions@.last(),
                ));
            }
        }
        Ok(Some(out))
    }
}

/// `nf` is `fs` with a revision of type `t` appended to the file at
/// position `i`, recording `(name, page)` and the given content, and with
/// the file's name, page and times set as given.
pub open spec fn mutated(
    fs: FileState,
    nf: FileState,
    i: int,
    t: RevisionType,
    user: i64,
    now: i64,
    comments: Seq<char>,
    name: Seq<char>,
    page: i64,
    digest: Seq<u8>,
    mime: Seq<char>,
    size: i64,
    deleted_at: Option<i64>,
    updated_at: Option<i64>,
) -> bool {
    &&& fs.appended(nf, i, t, user, now, comments)
    &&& records(nf.files@[i].revisions@.last(), name, page, digest, mime, size)
    &&& !nf.files@[i].revisions@.last().digest_hidden
    &&& nf.files@[i].name@ == name
    &&& nf.files@[i].page_id == page
    &&& nf.files@[i].deleted_at == deleted_at
    &&& nf.files@[i].updated_at == updated_at
}

/// Request to move a file to another page, optionally renaming it.
#[derive(Debug)]
pub struct MoveFile {
    pub name: Option<String>,
    pub site_id: i64,
    pub current_page_id: i64,
    pub destination_page_id: i64,
    pub file_id: i64,
    pub user_id: i64,
    pub last_revision_id: i64,
    pub revision_comments: String,
}

/// Request to delete (tombstone) a file.
#[derive(Debug)]
pub struct DeleteFile {
    pub site_id: i64,
    pub page_id: i64,
    pub file_id: i64,
    pub user_id: i64,
    pub last_revision_id: i64,
    pub revision_comments: String,
}

/// The tombstone revision of a deleted file.
#[derive(Debug, Clone, Copy, PartialEq, Eq, Structural)]
pub struct DeleteFileOutput {
    pub file_id: i64,
    pub file_revision_id: i64,
    pub file_revision_number: i64,
}

/// Request to restore a deleted file, optionally to another page or name.
#[derive(Debug)]
pub struct RestoreFile {
    pub new_page_id: Option<i64>,
    pub new_name: Option<String>,
    pub site_id: i64,
    pub page_id: i64,
    pub file_id: i64,
    pub user_id: i64,
    pub revision_comments: String,
}

/// The restored file and its resurrection revision.
#[derive(Debug)]
pub struct RestoreFileOutput {
    pub page_id: i64,
    pub file_id: i64,
    pub name: String,
    pub file_revision_id: i64,
    pub file_revision_number: i64,
}

/// Request to roll a file back to the state of one of its revisions.
#[derive(Debug)]
pub struct RollbackFile {
    pub site_id: i64,
    pub page_id: i64,
    pub file_id: i64,
    pub last_revision_id: i64,
    pub revision_number: i64,
    pub revision_comments: String,
    pub user_id: i64,
}

/// The name a move leaves the file with.
pub open spec fn moved_name(input: MoveFile, current: Seq<char>) -> Seq<char> {
    match input.name {
        Some(n) => trim(n@),
        None => trim(current),
    }
}

/// The outcome of `FileService::move_file`.
pub open spec fn move_post(old: Database, new: Database, input: MoveFile, now: i64, r: Result<
    Option<EditFileOutput>,
    Error,
>) -> bool {
    let fs = old.file;
    let f = fs.file(input.file_id);
    let name = moved_name(input, f.name@);
    if !fs.locate(input.site_id, input.current_page_id, input.file_id) {
        r == Err::<Option<EditFileOutput>, Error>(Error::EntityNotFound) && old.unchanged(new)
    } else if f.latest().revision_id != input.last_revision_id {
        r == Err::<Option<EditFileOutput>, Error>(Error::StaleConcurrencyToken) && old.unchanged(
            new,
        )
    } else if !name_ok(name) {
        r == Err::<Option<EditFileOutput>, Error>(Error::InvalidName) && old.unchanged(new)
    } else if fs.name_taken(input.destination_page_id, name, input.file_id as int) {
        r == Err::<Option<EditFileOutput>, Error>(Error::EntityExists) && old.unchanged(new)
    } else {
        &&& r == Ok::<Option<EditFileOutput>, Error>(
            Some(
                EditFileOutput {
                    file_revision_id: fs.next_revision_id,
                    file_revision_number: (f.latest().revision_number + 1) as i64,
                },
            ),
        )
        &&& old.blob.unchanged(new.blob)
        &&& new.users == old.users
        &&& mutated(fs, new.file, input.file_id - 1, RevisionType::Move, input.user_id, now,
            input.revision_comments@, name, input.destination_page_id, f.latest().digest@,
            f.latest().mime@, f.latest().size, f.deleted_at, Some(now))
    }
}

/// The outcome of deleting a file; with `erase`, the tombstone records the
/// empty blob's digest instead of the latest content.
pub open spec fn delete_post(
    old: Database,
    new: Database,
    input: DeleteFile,
    erase: bool,
    now: i64,
    r: Result<DeleteFileOutput, Error>,
) -> bool {
    let fs = old.file;
    let f = fs.file(input.file_id);
    if !fs.locate(input.site_id, input.page_id, input.file_id) {
        r == Err::<DeleteFileOutput, Error>(Error::EntityNotFound) && old.unchanged(new)
    } else if f.latest().revision_id != input.last_revision_id {
        r == Err::<DeleteFileOutput, Error>(Error::StaleConcurrencyToken) && old.unchanged(new)
    } else {
        &&& r == Ok::<DeleteFileOutput, Error>(
            DeleteFileOutput {
                file_id: input.file_id,
                file_revision_id: fs.next_revision_id,
                file_revision_number: (f.latest().revision_number + 1) as i64,
            },
        )
        &&& old.blob.unchanged(new.blob)
        &&& new.users == old.users
        &&& mutated(fs, new.file, input.file_id - 1, RevisionType::Tombstone, input.user_id, now,
            input.revision_comments@, f.name@, f.page_id, if erase {
            Seq::new(DIGEST_LENGTH as nat, |k: int| 0u8)
        } else {
            f.latest().digest@
        }, f.latest().mime@, f.latest().size, Some(now), f.updated_at)
    }
}

/// The page a restore moves the file to.
pub open spec fn restore_page(input: RestoreFile) -> i64 {
    match input.new_page_id {
        Some(p) => p,
        None => input.page_id,
    }
}

/// The name a restore gives the file.
pub open spec fn restore_name(input: RestoreFile, current: Seq<char>) -> Seq<char> {
    match input.new_name {
        Some(n) => trim(n@),
        None => trim(current),
    }
}

/// The outcome of `FileService::restore`.
pub open spec fn restore_post(
    old: Database,
    new: Database,
    input: RestoreFile,
    now: i64,
    r: Result<RestoreFileOutput, Error>,
) -> bool {
    let fs = old.file;
    let f = fs.file(input.file_id);
    let name = restore_name(input, f.name@);
    let page = restore_page(input);
    if !fs.has_file(input.file_id) || f.site_id != input.site_id || f.page_id != input.page_id {
        r == Err::<RestoreFileOutput, Error>(Error::EntityNotFound) && old.unchanged(new)
    } else if f.is_live() {
        r == Err::<RestoreFileOutput, Error>(Error::EntityNotDeleted) && old.unchanged(new)
    } else if !name_ok(name) {
        r == Err::<RestoreFileOutput, Error>(Error::InvalidName) && old.unchanged(new)
    } else if fs.name_taken(page, name, input.file_id as int) {
        r == Err::<RestoreFileOutput, Error>(Error::EntityExists) && old.unchanged(new)
    } else {
        &&& r is Ok
        &&& r->Ok_0.page_id == page
        &&& r->Ok_0.file_id == input.file_id
        &&& r->Ok_0.name@ == name
        &&& r->Ok_0.file_revision_id == fs.next_revision_id
        &&& r->Ok_0.file_revision_number == f.latest().revision_number + 1
        &&& old.blob.unchanged(new.blob)
        &&& new.users == old.users
        &&& mutated(fs, new.file, input.file_id - 1, RevisionType::Resurrection, input.user_id,
            now, input.revision_comments@, name, page, f.latest().digest@, f.latest().mime@,
            f.latest().size, None, Some(now))
    }
}

/// The outcome of `FileService::rollback`.
pub open spec fn rollback_post(
    old: Database,
    new: Database,
    input: RollbackFile,
    now: i64,
    r: Result<Option<EditFileOutput>, Error>,
) -> bool {
    let fs = old.file;
    let f = fs.file(input.file_id);
    let target = f.revisions@[input.revision_number - 1];
    if !fs.locate(input.site_id, input.page_id, input.file_id) {
        r == Err::<Option<EditFileOutput>, Error>(Error::EntityNotFound) && old.unchanged(new)
    } else if !(1 <= input.revision_number <= f.revisions@.len()) {
        r == Err::<Option<EditFileOutput>, Error>(Error::RevisionNotFound) && old.unchanged(new)
    } else if f.latest().revision_id != input.last_revision_id {
        r == Err::<Option<EditFileOutput>, Error>(Error::StaleConcurrencyToken) && old.unchanged(
            new,
        )
    } else if fs.name_taken(f.page_id, target.name@, input.file_id as int) {
        r == Err::<Option<EditFileOutput>, Error>(Error::EntityExists) && old.unchanged(new)
    } else {
        &&& r == Ok::<Option<EditFileOutput>, Error>(
            Some(
                EditFileOutput {
                    file_revision_id: fs.next_revision_id,
                    file_revision_number: (f.latest().revision_number + 1) as i64,
                },
            ),
        )
        &&& old.blob.unchanged(new.blob)
        &&& new.users == old.users
        &&& mutated(fs, new.file, input.file_id - 1, RevisionType::Rollback, input.user_id, now,
            input.revision_comments@, target.name@, f.page_id, target.digest@, target.mime@,
            target.size, f.deleted_at, Some(now))
    }
}

impl FileService {
    /// Appends a revision to the file at position `i` and sets its name,
    /// page and times.
    pub(crate) fn mutate(
        state: &mut FileState,
        i: usize,
        revision_type: RevisionType,
        user_id: i64,
        now: i64,
        comments: String,
        name: String,
        page_id: i64,
        digest: Vec<u8>,
        mime: String,
        size: i64,
        deleted_at: Option<i64>,
        updated_at: Option<i64>,
    ) -> (out: EditFileOutput)
        requires
            old(state).wf(),
            i < old(state).files@.len(),
            old(state).next_revision_id < i64::MAX,
            deleted_at is None ==> !old(state).name_taken(page_id, name@, i + 1),
        ensures
            final(state).wf(),
            mutated(*old(state), *final(state), i as int, revision_type, user_id, now, comments@,
                name@, page_id, digest@, mime@, size, deleted_at, updated_at),
            out.file_revision_id == old(state).next_revision_id,
            out.file_revision_number == old(state).files@[i as int].revisions@.len() + 1,
    {
        let ghost name_v = name@;
        let out = Self::append_revision(
            state,
            i,
            revision_type,
            user_id,
            now,
            comments,
            copy_string(&name),
            page_id,
            digest,
            mime,
            size,
        );
        proof {
            let s = *state;
            let o = *old(state);
            if deleted_at is None {
                assert forall|j: int|
                    0 <= j < s.files@.len() && j + 1 != i + 1 && (#[trigger] s.files@[j]).is_live()
                        && s.files@[j].page_id == page_id implies s.files@[j].name@ != name_v by {
                    assert(s.files@[j] == o.files@[j]);
                }
            }
        }
        Self::set_file_meta(state, i, name, page_id, deleted_at, updated_at);
        proof {
            let s = *state;
            let o = *old(state);
            assert(s.files@[i as int].revisions@.subrange(0, o.files@[i as int].revisions@.len() as int)
                == o.files@[i as int].revisions@);
        }
        out
    }

    /// Moves a file to another page, appending a `Move` revision.
    ///
    /// The file must be live on its current page and `last_revision_id` its
    /// latest revision; the (new or current) name is validated and must not
    /// clash with a live file on the destination page.
    pub fn move_file(db: &mut Database, input: MoveFile, now: i64) -> (r: Result<
        Option<EditFileOutput>,
        Error,
    >)
        requires
            old(db).wf(),
            old(db).file.next_revision_id < i64::MAX,
        ensures
            final(db).wf(),
            move_post(*old(db), *final(db), input, now, r),
    {
        let i = Self::locate(&db.file, input.site_id, input.current_page_id, input.file_id)?;
        let n = db.file.files[i].revisions.len();
        check_last_revision(&db.file.files[i].revisions[n - 1], input.last_revision_id)?;
        let mut name = match &input.name {
            Some(nm) => copy_string(nm),
            None => copy_string(&db.file.files[i].name),
        };
        check_file_name(&mut name)?;
        Self::check_conflicts(&db.file, input.destination_page_id, &name, input.file_id)?;
        let latest = &db.file.files[i].revisions[n - 1];
        let digest = copy_bytes(&latest.digest);
        let mime = copy_string(&latest.mime);
        let size = latest.size;
        let deleted_at = db.file.files[i].deleted_at;
        let out = Self::mutate(
            &mut db.file,
            i,
            RevisionType::Move,
            input.user_id,
            now,
            copy_string(&input.revision_comments),
            name,
            input.destination_page_id,
            digest,
            mime,
            size,
            deleted_at,
            Some(now),
        );
        Ok(Some(out))
    }

    /// Deletes (tombstones) a file.
    pub fn delete(db: &mut Database, input: DeleteFile, now: i64) -> (r: Result<
        DeleteFileOutput,
        Error,
    >)
        requires
            old(db).wf(),
            old(db).file.next_revision_id < i64::MAX,
        ensures
            final(db).wf(),
            delete_post(*old(db), *final(db), input, false, now, r),
    {
        Self::delete_inner(db, input, false, now)
    }

    /// Deletes (tombstones) a file, recording the empty blob's digest in the
    /// tombstone; used by hard deletion.
    pub fn delete_with_erased_s3_hash(db: &mut Database, input: DeleteFile, now: i64) -> (r:
        Result<DeleteFileOutput, Error>)
        requires
            old(db).wf(),
            old(db).file.next_revision_id < i64::MAX,
        ensures
            final(db).wf(),
            delete_post(*old(db), *final(db), input, true, now, r),
    {
        Self::delete_inner(db, input, true, now)
    }

    fn delete_inner(db: &mut Database, input: DeleteFile, erase: bool, now: i64) -> (r: Result<
        DeleteFileOutput,
        Error,
    >)
        requires
            old(db).wf(),
            old(db).file.next_revision_id < i64::MAX,
        ensures
            final(db).wf(),
            delete_post(*old(db), *final(db), input, erase, now, r),
    {
        let i = Self::locate(&db.file, input.site_id, input.page_id, input.file_id)?;
        let n = db.file.files[i].revisions.len();
        check_last_revision(&db.file.files[i].revisions[n - 1], input.last_revision_id)?;
        let latest = &db.file.files[i].revisions[n - 1];
        let digest = if erase {
            empty_digest()
        } else {
            copy_bytes(&latest.digest)
        };
        let mime = copy_string(&latest.mime);
        let size = latest.size;
        let name = copy_string(&db.file.files[i].name);
        let page_id = db.file.files[i].page_id;
        let updated_at = db.file.files[i].updated_at;
        let out = Self::mutate(
            &mut db.file,
            i,
            RevisionType::Tombstone,
            input.user_id,
            now,
            copy_string(&input.revision_comments),
            name,
            page_id,
            digest,
            mime,
            size,
            Some(now),
            updated_at,
        );
        proof {
            if erase {
                assert(digest@ =~= Seq::new(DIGEST_LENGTH as nat, |k: int| 0u8));
            }
        }
        Ok(
            DeleteFileOutput {
                file_id: input.file_id,
                file_revision_id: out.file_revision_id,
                file_revision_number: out.file_revision_number,
            },
        )
    }

    /// Restores a deleted file, appending a `Resurrection` revision.
    ///
    /// The file must exist on the given page and be deleted; the (new or
    /// current) name is validated and must not clash with a live file on the
    /// destination page.
    pub fn restore(db: &mut Database, input: RestoreFile, now: i64) -> (r: Result<
        RestoreFileOutput,
        Error,
    >)
        requires
            old(db).wf(),
            old(db).file.next_revision_id < i64::MAX,
        ensures
            final(db).wf(),
            restore_post(*old(db), *final(db), input, now, r),
    {
        if input.file_id < 1 || input.file_id as u64 > db.file.files.len() as u64 {
            return Err(Error::EntityNotFound);
        }
        let i = (input.file_id - 1) as usize;
        if db.file.files[i].site_id != input.site_id || db.file.files[i].page_id != input.page_id {
            return Err(Error::EntityNotFound);
        }
        if db.file.files[i].deleted_at.is_none() {
            return Err(Error::EntityNotDeleted);
        }
        let mut name = match &input.new_name {
            Some(nm) => copy_string(nm),
            None => copy_string(&db.file.files[i].name),
        };
        check_file_name(&mut name)?;
        let page_id = match input.new_page_id {
            Some(p) => p,
            None => input.page_id,
        };
        Self::check_conflicts(&db.file, page_id, &name, input.file_id)?;
        let n = db.file.files[i].revisions.len();
        let latest = &db.file.files[i].revisions[n - 1];
        let digest = copy_bytes(&latest.digest);
        let mime = copy_string(&latest.mime);
        let size = latest.size;
        let out = Self::mutate(
            &mut db.file,
            i,
            RevisionType::Resurrection,
            input.user_id,
            now,
            copy_string(&input.revision_comments),
            copy_string(&name),
            page_id,
            digest,
            mime,
            size,
            None,
            Some(now),
        );
        Ok(
            RestoreFileOutput {
                page_id,
                file_id: input.file_id,
                name,
                file_revision_id: out.file_revision_id,
                file_revision_number: out.file_revision_number,
            },
        )
    }

    /// Rolls a file back to the name and content of one of its revisions,
    /// appending a `Rollback` revision; the file stays on its page.
    pub fn rollback(db: &mut Database, input: RollbackFile, now: i64) -> (r: Result<
        Option<EditFileOutput>,
        Error,
    >)
        requires
            old(db).wf(),
            old(db).file.next_revision_id < i64::MAX,
        ensures
            final(db).wf(),
            rollback_post(*old(db), *final(db), input, now, r),
    {
        let i = Self::locate(&db.file, input.site_id, input.page_id, input.file_id)?;
        let n = db.file.files[i].revisions.len();
        if input.revision_number < 1 || input.revision_number as u64 > n as u64 {
            return Err(Error::RevisionNotFound);
        }
        check_last_revision(&db.file.files[i].revisions[n - 1], input.last_revision_id)?;
        let k = (input.revision_number - 1) as usize;
        let target = &db.file.files[i].revisions[k];
        let name = copy_string(&target.name);
        let digest = copy_bytes(&target.digest);
        let mime = copy_string(&target.mime);
        let size = target.size;
        let page_id = db.file.files[i].page_id;
        Self::check_conflicts(&db.file, page_id, &name, input.file_id)?;
        let deleted_at = db.file.files[i].deleted_at;
        let out = Self::mutate(
            &mut db.file,
            i,
            RevisionType::Rollback,
            input.user_id,
            now,
            copy_string(&input.revision_comments),
            name,
            page_id,
            digest,
            mime,
            size,
            deleted_at,
            Some(now),
        );
        Ok(Some(out))
    }
}

/// Two edits of one file that present the same concurrency token: when the
/// first appends a revision, that revision is numbered one past the latest,
/// and the second fails with `StaleConcurrencyToken`.
pub proof fn lemma_concurrent_edits(
    d0: Database,
    d1: Database,
    d2: Database,
    first: EditFile,
    second: EditFile,
    now: i64,
    mime: Seq<char>,
    r1: Result<Option<EditFileOutput>, Error>,
    r2: Result<Option<EditFileOutput>, Error>,
)
    requires
        d0.wf(),
        edit_post(d0, d1, first, now, mime, r1),
        r1 matches Ok(Some(_)),
        second.site_id == first.site_id,
        second.page_id == first.page_id,
        second.file_id == first.file_id,
        second.last_revision_id == first.last_revision_id,
        edit_post(d1, d2, second, now, mime, r2),
    ensures
        r1->Ok_0->Some_0.file_revision_number == d0.file.file(first.file_id).latest().revision_number
            + 1,
        r2 == Err::<Option<EditFileOutput>, Error>(Error::StaleConcurrencyToken),
{
    let fs = d0.file;
    let i = first.file_id - 1;
    let n = fs.files@[i].revisions@.len();
    assert(fs.files@[i].revisions@[n - 1].revision_id < fs.next_revision_id);
    assert(d1.file.files@[i].revisions@.last().revision_id == fs.next_revision_id);
}

/// In every well-formed state each file's revision numbers are exactly
/// `1..=N`, in order, with no gaps; every mutation preserves well-formedness.
pub proof fn lemma_revision_numbers_gapless(fs: FileState)
    requires
        fs.wf(),
    ensures
        forall|i: int|
            0 <= i < fs.files@.len() ==> (#[trigger] fs.files@[i]).revisions@.map_values(
                |r: FileRevision| r.revision_number as int,
            ) == Seq::new(fs.files@[i].revisions@.len(), |k: int| k + 1),
{
    assert forall|i: int| 0 <= i < fs.files@.len() implies (#[trigger] fs.files@[i]).revisions@.map_values(
        |r: FileRevision| r.revision_number as int,
    ) == Seq::new(fs.files@[i].revisions@.len(), |k: int| k + 1) by {
        assert(fs.files@[i].revisions@.map_values(|r: FileRevision| r.revision_number as int)
            =~= Seq::new(fs.files@[i].revisions@.len(), |k: int| k + 1));
    }
}

/// A file named by identifier or by name (slug).
#[derive(Debug, Clone)]
pub enum Reference {
    Id(i64),
    Slug(String),
}

/// Whether `f` is live on the given site and page and is the one `reference`
/// names.
pub open spec fn refers_to(f: FileEntity, site: i64, page: i64, reference: Reference) -> bool {
    &&& f.is_live()
    &&& f.site_id == site
    &&& f.page_id == page
    &&& match reference {
        Reference::Id(id) => f.file_id == id,
        Reference::Slug(name) => f.name@ == name@,
    }
}

/// The identifiers of the files on a page, in identifier order, keeping
/// only deleted files (`Some(true)`), only live ones (`Some(false)`), or all.
pub open spec fn listed(files: Seq<FileEntity>, site: i64, page: i64, deleted: Option<bool>) -> Seq<
    i64,
>
    decreases files.len(),
{
    if files.len() == 0 {
        Seq::empty()
    } else {
        let f = files.last();
        let keep = f.site_id == site && f.page_id == page && match deleted {
            Some(true) => !f.is_live(),
            Some(false) => f.is_live(),
            None => true,
        };
        listed(files.drop_last(), site, page, deleted) + if keep {
            seq![f.file_id]
        } else {
            Seq::empty()
        }
    }
}

impl FileService {
    /// The live file on the given page that `reference` names.
    pub fn get_optional<'a>(
        state: &'a FileState,
        site_id: i64,
        page_id: i64,
        reference: &Reference,
    ) -> (r: Option<&'a FileEntity>)
        ensures
            match r {
                Some(f) => exists|i: int|
                    0 <= i < state.files@.len() && state.files@[i] == *f && refers_to(
                        *f,
                        site_id,
                        page_id,
                        *reference,
                    ),
                None => forall|i: int|
                    0 <= i < state.files@.len() ==> !refers_to(
                        #[trigger] state.files@[i],
                        site_id,
                        page_id,
                        *reference,
                    ),
            },
    {
        let mut i: usize = 0;
        while i < state.files.len()
            invariant
                i <= state.files@.len(),
                forall|j: int|
                    0 <= j < i ==> !refers_to(#[trigger] state.files@[j], site_id, page_id, *reference),
            decreases state.files@.len() - i,
        {
            let f = &state.files[i];
            let named = match reference {
                Reference::Id(id) => f.file_id == *id,
                Reference::Slug(name) => f.name == *name,
            };
            if named && f.deleted_at.is_none() && f.site_id == site_id && f.page_id == page_id {
                return Some(f);
            }
            i = i + 1;
        }
        None
    }

    /// The live file on the given page that `reference` names; fails with
    /// `EntityNotFound` if there is none.
    pub fn get<'a>(state: &'a FileState, site_id: i64, page_id: i64, reference: &Reference) -> (r:
        Result<&'a FileEntity, Error>)
        ensures
            match r {
                Ok(f) => exists|i: int|
                    0 <= i < state.files@.len() && state.files@[i] == *f && refers_to(
                        *f,
                        site_id,
                        page_id,
                        *reference,
                    ),
                Err(e) => e == Error::EntityNotFound && forall|i: int|
                    0 <= i < state.files@.len() ==> !refers_to(
                        #[trigger] state.files@[i],
                        site_id,
                        page_id,
                        *reference,
                    ),
            },
    {
        match Self::get_optional(state, site_id, page_id, reference) {
            Some(f) => Ok(f),
            None => Err(Error::EntityNotFound),
        }
    }

    /// The identifiers of the files on a page (see `listed`).
    pub fn get_all(state: &FileState, site_id: i64, page_id: i64, deleted: Option<bool>) -> (r: Vec<
        i64,
    >)
        ensures
            r@ == listed(state.files@, site_id, page_id, deleted),
    {
        let mut out: Vec<i64> = Vec::new();
        let mut i: usize = 0;
        while i < state.files.len()
            invariant
                i <= state.files@.len(),
                out@ == listed(state.files@.subrange(0, i as int), site_id, page_id, deleted),
            decreases state.files@.len() - i,
        {
            let f = &state.files[i];
            let keep = f.site_id == site_id && f.page_id == page_id && match deleted {
                Some(true) => f.deleted_at.is_some(),
                Some(false) => f.deleted_at.is_none(),
                None => true,
            };
            if keep {
                out.push(f.file_id);
            }
            proof {
                let fs = state.files@.subrange(0, i + 1);
                assert(fs.drop_last() =~= state.files@.subrange(0, i as int));
                assert(out@ =~= listed(fs, site_id, page_id, deleted));
            }
            i = i + 1;
        }
        assert(state.files@.subrange(0, state.files@.len() as int) =~= state.files@);
        out
    }

    /// The identifier that `reference` names: an identifier as given, or
    /// that of the live file with that name on the page.
    pub fn get_id(state: &FileState, page_id: i64, reference: &Reference) -> (r: Result<i64, Error>)
        ensures
            match *reference {
                Reference::Id(id) => r == Ok::<i64, Error>(id),
                Reference::Slug(name) => match r {
                    Ok(id) => exists|i: int|
                        0 <= i < state.files@.len() && (#[trigger] state.files@[i]).file_id == id
                            && state.files@[i].is_live() && state.files@[i].page_id == page_id
                            && state.files@[i].name@ == name@,
                    Err(e) => e == Error::EntityNotFound && forall|i: int|
                        0 <= i < state.files@.len() ==> !((#[trigger] state.files@[i]).is_live()
                            && state.files@[i].page_id == page_id && state.files@[i].name@
                            == name@),
                },
            },
    {
        match reference {
            Reference::Id(id) => {
                Ok(*id)
            },
            Reference::Slug(name) => {
                let mut i: usize = 0;
                while i < state.files.len()
                    invariant
                        reference is Slug,
                        reference->Slug_0 == *name,
                        i <= state.files@.len(),
                        forall|j: int|
                            0 <= j < i ==> !((#[trigger] state.files@[j]).is_live()
                                && state.files@[j].page_id == page_id && state.files@[j].name@
                                == name@),
                    decreases state.files@.len() - i,
                {
                    let f = &state.files[i];
                    if f.deleted_at.is_none() && f.page_id == page_id && f.name == *name {
                        return Ok(f.file_id);
                    }
                    i = i + 1;
                }
                Err(Error::EntityNotFound)
            },
        }
    }

    /// The file with identifier `file_id`, if it exists and is live or
    /// `allow_deleted` is set.
    pub fn get_direct_optional<'a>(state: &'a FileState, file_id: i64, allow_deleted: bool) -> (r:
        Option<&'a FileEntity>)
        requires
            state.wf(),
        ensures
            match r {
                Some(f) => state.has_file(file_id) && *f == state.file(file_id) && (allow_deleted
                    || f.is_live()),
                None => !state.has_file(file_id) || (!allow_deleted && !state.file(
                    file_id,
                ).is_live()),
            },
    {
        if file_id < 1 || file_id as u64 > state.files.len() as u64 {
            return None;
        }
        let f = &state.files[(file_id - 1) as usize];
        if !allow_deleted && f.deleted_at.is_some() {
            return None;
        }
        Some(f)
    }

    /// Like `get_direct_optional`, failing with `EntityNotFound`.
    pub fn get_direct<'a>(state: &'a FileState, file_id: i64, allow_deleted: bool) -> (r: Result<
        &'a FileEntity,
        Error,
    >)
        requires
            state.wf(),
        ensures
            match r {
                Ok(f) => state.has_file(file_id) && *f == state.file(file_id) && (allow_deleted
                    || f.is_live()),
                Err(e) => e == Error::EntityNotFound && (!state.has_file(file_id) || (
                !allow_deleted && !state.file(file_id).is_live())),
            },
    {
        match Self::get_direct_optional(state, file_id, allow_deleted) {
            Some(f) => Ok(f),
            None => Err(Error::EntityNotFound),
        }
    }
}

impl Database {
    /// An empty service state.
    pub fn new(config: BlobConfig) -> (r: Database)
        ensures
            r.wf(),
            r.blob.config == config,
            r.blob.pending@.len() == 0,
            r.blob.blacklist@.len() == 0,
            r.blob.blobs@.len() == 0,
            r.blob.uploads@.len() == 0,
            r.file.files@.len() == 0,
            r.file.next_revision_id == 1,
            r.users@.len() == 0,
    {
        Database {
            blob: BlobService::new_state(config),
            file: FileState { files: Vec::new(), next_revision_id: 1 },
            users: Vec::new(),
        }
    }
}

/// The identifier of any revision but the latest is a stale concurrency
/// token: it differs from the latest revision's identifier.
pub proof fn lemma_older_revision_is_stale(fs: FileState, i: int, k: int)
    requires
        fs.wf(),
        fs.has_revision(i, k),
        k < fs.files@[i].revisions@.len() - 1,
    ensures
        fs.files@[i].revisions@[k].revision_id != fs.files@[i].latest().revision_id,
{
    let n = fs.files@[i].revisions@.len();
    assert(fs.has_revision(i, n - 1));
    assert(fs.files@[i].revisions@[k].revision_id != fs.files@[i].revisions@[n - 1].revision_id);
}

} // verus!
