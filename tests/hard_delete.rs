use deepwell::blob::{BlobService, StartBlobUpload};
use deepwell::digest::{blob_key, empty_digest, is_empty_blob_digest};
use deepwell::error::Error;
use deepwell::file::{CreateFile, DeleteFile, EditFile, FileService};
use deepwell::hard_delete::HardDelete;
use deepwell::maybe::Maybe;
use deepwell::model::{BlobConfig, Database, RevisionType, UserAvatar};

const SYSTEM: i64 = 1;
const ADMIN: i64 = 2;

fn db() -> Database {
    Database::new(BlobConfig {
        maximum_blob_size: 10_000,
        presigned_expiry_secs: 3600,
        presigned_path_length: 12,
    })
}

fn create(db: &mut Database, site: i64, page: i64, name: &str, data: &[u8]) -> deepwell::file::CreateFileOutput {
    FileService::create(
        db,
        CreateFile {
            site_id: site,
            page_id: page,
            name: name.to_string(),
            uploaded_blob_id: String::new(),
            direct_upload: Some(data.to_vec()),
            revision_comments: String::new(),
            user_id: 5,
        },
        1,
        &"text/plain".to_string(),
    )
    .unwrap()
}

/// Two files have the forbidden content as their latest revision; a third
/// had it in its history only; one user has it as profile picture.
fn populated() -> (Database, Vec<u8>) {
    let mut db = db();
    let bad = b"forbidden".to_vec();
    create(&mut db, 1, 10, "a.txt", &bad);
    create(&mut db, 1, 11, "b.txt", &bad);
    let c = create(&mut db, 2, 20, "c.txt", &bad);
    let slot = BlobService::start_upload_with(
        &mut db.blob,
        StartBlobUpload { user_id: 5, blob_size: 4 },
        "t".to_string(),
        "t",
        1,
    )
    .unwrap();
    BlobService::put_upload(&mut db.blob, slot.temp_path, b"fine".to_vec());
    FileService::edit(
        &mut db,
        EditFile {
            site_id: 2,
            page_id: 20,
            file_id: c.file_id,
            user_id: 5,
            last_revision_id: c.file_revision_id,
            revision_comments: String::new(),
            name: Maybe::Unset,
            uploaded_blob_id: Maybe::Provided("t".to_string()),
            direct_upload: Maybe::Unset,
        },
        2,
        &"text/plain".to_string(),
    )
    .unwrap()
    .unwrap();
    let d = db.file.files[0].revisions[0].digest.clone();
    db.users.push(UserAvatar { user_id: 100, avatar_digest: Some(d.clone()) });
    db.users.push(UserAvatar { user_id: 101, avatar_digest: None });
    (db, d)
}

#[test]
fn preview_reports_without_changes() {
    let (db, d) = populated();
    let blobs_before = db.blob.blobs.len();
    let out = BlobService::hard_delete_list(&db, &d).unwrap();
    assert_eq!(out.total_revisions, 3);
    assert_eq!(out.total_files, 3);
    assert_eq!(out.total_files_deleted, 2);
    assert_eq!(out.total_pages, 3);
    assert_eq!(out.total_sites, 2);
    assert_eq!(out.total_users, 1);
    assert_eq!(out.sample_file_ids, vec![1, 2, 3]);
    assert_eq!(out.sample_page_ids, vec![10, 11, 20]);
    assert_eq!(out.sample_site_ids, vec![1, 2]);
    assert_eq!(out.sample_user_ids, vec![100]);
    assert_eq!(db.blob.blobs.len(), blobs_before);
}

#[test]
fn preview_matches_commit() {
    let (mut db, d) = populated();
    let preview = BlobService::hard_delete_list(&db, &d).unwrap();
    let next_before = db.file.next_revision_id;
    let commit = BlobService::hard_delete_all(&mut db, HardDelete { s3_hash: d.clone(), user_id: ADMIN }, SYSTEM, 9).unwrap();
    assert_eq!(preview, commit);
    assert_eq!(db.file.next_revision_id, next_before + preview.total_files_deleted as i64);
}

#[test]
fn commit_purges_everything() {
    let (mut db, d) = populated();
    BlobService::hard_delete_all(&mut db, HardDelete { s3_hash: d.clone(), user_id: ADMIN }, SYSTEM, 9).unwrap();
    assert!(BlobService::on_blacklist(&db.blob, &d));
    assert_eq!(db.blob.blacklist[0].created_by, ADMIN);
    assert!(!BlobService::blob_exists(&db.blob, &d));
    for f in &db.file.files {
        for r in &f.revisions {
            assert_ne!(r.digest, d);
        }
    }
    // The two files whose latest revision held the content are tombstoned.
    for i in 0..2 {
        let f = &db.file.files[i];
        assert_eq!(f.deleted_at, Some(9));
        let tomb = f.revisions.last().unwrap();
        assert_eq!(tomb.revision_type, RevisionType::Tombstone);
        assert_eq!(tomb.created_by, SYSTEM);
        assert!(is_empty_blob_digest(&tomb.digest));
        assert_eq!(tomb.comments, format!("Hard delete {}", blob_key(&d)));
        assert!(f.revisions[0].digest_hidden);
        assert!(is_empty_blob_digest(&f.revisions[0].digest));
    }
    // The third file keeps its newer content and stays live.
    let c = &db.file.files[2];
    assert_eq!(c.deleted_at, None);
    assert_eq!(c.revisions.len(), 2);
    assert!(c.revisions[0].digest_hidden);
    assert!(!c.revisions[1].digest_hidden);
    assert_eq!(db.users[0].avatar_digest, None);
    // A second run finds nothing left to touch.
    let again = BlobService::hard_delete_list(&db, &d).unwrap();
    assert_eq!(again.total_revisions, 0);
    assert_eq!(again.total_users, 0);
}

#[test]
fn empty_blob_cannot_be_hard_deleted() {
    let (mut db, _) = populated();
    let e = empty_digest();
    assert_eq!(BlobService::hard_delete_list(&db, &e), Err(Error::BadRequest));
    let files_before = db.file.files[0].revisions.len();
    let r = BlobService::hard_delete_all(&mut db, HardDelete { s3_hash: e.clone(), user_id: ADMIN }, SYSTEM, 9);
    assert_eq!(r, Err(Error::BadRequest));
    assert_eq!(db.file.files[0].revisions.len(), files_before);
    assert!(!BlobService::on_blacklist(&db.blob, &e));
    assert!(BlobService::blob_exists(&db.blob, &e));
}

#[test]
fn samples_are_bounded() {
    let mut db = db();
    for i in 0..12 {
        create(&mut db, 1, 100 + i, "same.txt", b"dup");
    }
    let d = db.file.files[0].revisions[0].digest.clone();
    let out = BlobService::hard_delete_list(&db, &d).unwrap();
    assert_eq!(out.total_files, 12);
    assert_eq!(out.total_pages, 12);
    assert_eq!(out.sample_file_ids, (1..=10).collect::<Vec<i64>>());
    assert_eq!(out.sample_site_ids, vec![1]);
}

#[test]
fn samples_are_sorted() {
    let mut db = db();
    let a = create(&mut db, 1, 10, "a.txt", b"plain");
    create(&mut db, 1, 11, "b.txt", b"forbidden");
    let slot = BlobService::start_upload_with(
        &mut db.blob,
        StartBlobUpload { user_id: 5, blob_size: 9 },
        "t".to_string(),
        "t",
        1,
    )
    .unwrap();
    BlobService::put_upload(&mut db.blob, slot.temp_path, b"forbidden".to_vec());
    let edited = FileService::edit(
        &mut db,
        EditFile {
            site_id: 1,
            page_id: 10,
            file_id: a.file_id,
            user_id: 5,
            last_revision_id: a.file_revision_id,
            revision_comments: String::new(),
            name: Maybe::Unset,
            uploaded_blob_id: Maybe::Provided("t".to_string()),
            direct_upload: Maybe::Unset,
        },
        2,
        &"text/plain".to_string(),
    )
    .unwrap()
    .unwrap();
    assert_eq!(edited.file_revision_id, 3);
    let d = db.file.files[1].revisions[0].digest.clone();
    let preview = BlobService::hard_delete_list(&db, &d).unwrap();
    assert_eq!(preview.sample_revision_ids, vec![2, 3]);
    assert_eq!(preview.sample_file_ids, vec![1, 2]);
    assert_eq!(preview.sample_page_ids, vec![10, 11]);
    let commit = BlobService::hard_delete_all(&mut db, HardDelete { s3_hash: d, user_id: ADMIN }, SYSTEM, 9).unwrap();
    assert_eq!(preview, commit);
}

#[test]
fn samples_sorted_when_scan_order_descends() {
    let mut db = db();
    for i in 0..12 {
        create(&mut db, 1, 100 - i, "same.txt", b"dup");
    }
    let d = db.file.files[0].revisions[0].digest.clone();
    let out = BlobService::hard_delete_list(&db, &d).unwrap();
    assert_eq!(out.total_pages, 12);
    // Pages 89 to 100 hold the content: the sample is the ten smallest.
    assert_eq!(out.sample_page_ids, (89..=98).collect::<Vec<i64>>());
}

#[test]
fn deleted_files_are_tombstoned_too() {
    let mut db = db();
    let a = create(&mut db, 1, 10, "a.txt", b"forbidden");
    create(&mut db, 1, 11, "b.txt", b"forbidden");
    FileService::delete(
        &mut db,
        DeleteFile {
            site_id: 1,
            page_id: 10,
            file_id: a.file_id,
            user_id: 5,
            last_revision_id: a.file_revision_id,
            revision_comments: String::new(),
        },
        3,
    )
    .unwrap();
    let d = db.file.files[0].revisions[0].digest.clone();
    // The tombstone of the ordinary deletion keeps the digest.
    assert_eq!(db.file.files[0].revisions[1].digest, d);
    let preview = BlobService::hard_delete_list(&db, &d).unwrap();
    assert_eq!(preview.total_files_deleted, 2);
    let commit = BlobService::hard_delete_all(&mut db, HardDelete { s3_hash: d.clone(), user_id: ADMIN }, SYSTEM, 9).unwrap();
    assert_eq!(preview, commit);
    let f = &db.file.files[0];
    assert_eq!(f.revisions.len(), 3);
    assert_eq!(f.revisions[2].revision_type, RevisionType::Tombstone);
    assert_eq!(f.revisions[2].created_by, SYSTEM);
    assert!(is_empty_blob_digest(&f.revisions[2].digest));
    assert!(f.revisions[1].digest_hidden);
    assert_eq!(f.deleted_at, Some(9));
    assert_eq!(db.file.files[1].deleted_at, Some(9));
}
