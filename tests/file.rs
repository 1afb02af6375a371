use deepwell::blob::{BlobService, StartBlobUpload};
use deepwell::error::Error;
use deepwell::file::{
    check_last_revision, CreateFile, DeleteFile, EditFile, FileService, MoveFile, Reference,
    RestoreFile, RollbackFile,
};
use deepwell::maybe::Maybe;
use deepwell::model::{BlobConfig, Database, RevisionType};
use deepwell::name::{check_file_name, trim_name};

const SITE: i64 = 1;
const PAGE: i64 = 10;
const USER: i64 = 5;

fn db() -> Database {
    Database::new(BlobConfig {
        maximum_blob_size: 10_000,
        presigned_expiry_secs: 3600,
        presigned_path_length: 12,
    })
}

fn mime() -> String {
    "application/pdf".to_string()
}

/// Opens a slot, uploads `data` to it, and returns the ticket.
fn upload(db: &mut Database, ticket: &str, data: &[u8]) -> String {
    let out = BlobService::start_upload_with(
        &mut db.blob,
        StartBlobUpload { user_id: USER, blob_size: data.len() as u64 },
        ticket.to_string(),
        ticket,
        0,
    )
    .unwrap();
    BlobService::put_upload(&mut db.blob, out.temp_path, data.to_vec());
    out.pending_blob_id
}

fn create(db: &mut Database, page: i64, name: &str, data: &[u8]) -> Result<deepwell::file::CreateFileOutput, Error> {
    FileService::create(
        db,
        CreateFile {
            site_id: SITE,
            page_id: page,
            name: name.to_string(),
            uploaded_blob_id: String::new(),
            direct_upload: Some(data.to_vec()),
            revision_comments: "new".to_string(),
            user_id: USER,
        },
        1,
        &mime(),
    )
}

fn edit(file_id: i64, token: i64, name: Maybe<String>, upload: Maybe<String>) -> EditFile {
    EditFile {
        site_id: SITE,
        page_id: PAGE,
        file_id,
        user_id: USER,
        last_revision_id: token,
        revision_comments: "edit".to_string(),
        name,
        uploaded_blob_id: upload,
        direct_upload: Maybe::Unset,
    }
}

fn delete(file_id: i64, page: i64, token: i64) -> DeleteFile {
    DeleteFile {
        site_id: SITE,
        page_id: page,
        file_id,
        user_id: USER,
        last_revision_id: token,
        revision_comments: "delete".to_string(),
    }
}

fn restore(file_id: i64, page: i64, new_page: Option<i64>, new_name: Option<&str>) -> RestoreFile {
    RestoreFile {
        new_page_id: new_page,
        new_name: new_name.map(|n| n.to_string()),
        site_id: SITE,
        page_id: page,
        file_id,
        user_id: USER,
        revision_comments: "restore".to_string(),
    }
}

fn assert_gapless(db: &Database) {
    for f in &db.file.files {
        for (k, r) in f.revisions.iter().enumerate() {
            assert_eq!(r.revision_number, k as i64 + 1);
        }
    }
}

#[test]
fn report_scenario() {
    let mut db = db();
    let data = vec![42u8; 100];
    let ticket = upload(&mut db, "ticket", &data);
    let created = FileService::create(
        &mut db,
        CreateFile {
            site_id: SITE,
            page_id: PAGE,
            name: "report.pdf".to_string(),
            uploaded_blob_id: ticket,
            direct_upload: None,
            revision_comments: String::new(),
            user_id: USER,
        },
        1,
        &mime(),
    )
    .unwrap();
    assert_eq!(created.file_revision_number, 1);
    let f = &db.file.files[0];
    let d1 = f.revisions[0].digest.clone();
    assert_eq!(d1.len(), 64);
    assert_eq!(f.revisions[0].revision_type, RevisionType::First);
    assert_eq!(f.revisions[0].size, 100);
    assert_eq!(BlobService::get(&db.blob, &d1).unwrap(), data);
    let rev1 = created.file_revision_id;

    let edited = FileService::edit(
        &mut db,
        edit(created.file_id, rev1, Maybe::Provided("report-v2.pdf".to_string()), Maybe::Unset),
        2,
        &mime(),
    )
    .unwrap()
    .unwrap();
    assert_eq!(edited.file_revision_number, 2);
    assert_eq!(db.file.files[0].name, "report-v2.pdf");
    assert_eq!(db.file.files[0].revisions[1].revision_type, RevisionType::Regular);
    assert_eq!(db.file.files[0].revisions[1].digest, d1);
    let rev2 = edited.file_revision_id;

    let stale = FileService::delete(&mut db, delete(created.file_id, PAGE, rev1), 3);
    assert_eq!(stale.unwrap_err(), Error::StaleConcurrencyToken);

    let deleted = FileService::delete(&mut db, delete(created.file_id, PAGE, rev2), 3).unwrap();
    assert_eq!(deleted.file_revision_number, 3);
    assert_eq!(db.file.files[0].revisions[2].revision_type, RevisionType::Tombstone);
    assert_eq!(db.file.files[0].deleted_at, Some(3));

    let restored = FileService::restore(&mut db, restore(created.file_id, PAGE, None, None), 4).unwrap();
    assert_eq!(restored.file_revision_number, 4);
    assert_eq!(restored.name, "report-v2.pdf");
    assert_eq!(restored.page_id, PAGE);
    assert_eq!(db.file.files[0].revisions[3].revision_type, RevisionType::Resurrection);
    assert_eq!(db.file.files[0].deleted_at, None);
    assert_gapless(&db);
}

#[test]
fn restore_checks_name_conflicts() {
    let mut db = db();
    let a = create(&mut db, PAGE, "a.txt", b"1").unwrap();
    FileService::delete(&mut db, delete(a.file_id, PAGE, a.file_revision_id), 2).unwrap();
    create(&mut db, PAGE, "a.txt", b"2").unwrap();
    let r = FileService::restore(&mut db, restore(a.file_id, PAGE, None, None), 3);
    assert_eq!(r.unwrap_err(), Error::EntityExists);
    let r = FileService::restore(&mut db, restore(a.file_id, PAGE, Some(11), None), 3).unwrap();
    assert_eq!(r.page_id, 11);
    assert_eq!(db.file.files[0].page_id, 11);
    let r = FileService::restore(&mut db, restore(a.file_id, 11, None, None), 4);
    assert_eq!(r.unwrap_err(), Error::EntityNotDeleted);
    let r = FileService::restore(&mut db, restore(99, PAGE, None, None), 4);
    assert_eq!(r.unwrap_err(), Error::EntityNotFound);
}

#[test]
fn restore_under_new_name() {
    let mut db = db();
    let a = create(&mut db, PAGE, "a.txt", b"1").unwrap();
    FileService::delete(&mut db, delete(a.file_id, PAGE, a.file_revision_id), 2).unwrap();
    let r = FileService::restore(&mut db, restore(a.file_id, PAGE, None, Some(" b.txt ")), 3).unwrap();
    assert_eq!(r.name, "b.txt");
    assert_eq!(db.file.files[0].name, "b.txt");
    assert_eq!(db.file.files[0].revisions[2].name, "b.txt");
}

#[test]
fn concurrent_edits_conflict() {
    let mut db = db();
    let c = create(&mut db, PAGE, "f.txt", b"x").unwrap();
    let token = c.file_revision_id;
    let first = FileService::edit(&mut db, edit(c.file_id, token, Maybe::Provided("g.txt".to_string()), Maybe::Unset), 2, &mime());
    let second = FileService::edit(&mut db, edit(c.file_id, token, Maybe::Provided("h.txt".to_string()), Maybe::Unset), 2, &mime());
    assert_eq!(first.unwrap().unwrap().file_revision_number, 2);
    assert_eq!(second.unwrap_err(), Error::StaleConcurrencyToken);
    assert_eq!(db.file.files[0].name, "g.txt");
    assert_eq!(db.file.files[0].revisions.len(), 2);
}

#[test]
fn edit_with_new_content() {
    let mut db = db();
    let c = create(&mut db, PAGE, "f.txt", b"old").unwrap();
    let t = upload(&mut db, "t2", b"new content");
    let out = FileService::edit(&mut db, edit(c.file_id, c.file_revision_id, Maybe::Unset, Maybe::Provided(t)), 2, &mime())
        .unwrap()
        .unwrap();
    let rev = &db.file.files[0].revisions[1];
    assert_eq!(out.file_revision_number, 2);
    assert_eq!(rev.size, 11);
    assert_eq!(BlobService::get(&db.blob, &rev.digest).unwrap(), b"new content".to_vec());
    assert_eq!(db.file.files[0].updated_at, Some(2));
}

#[test]
fn edit_without_change_returns_none() {
    let mut db = db();
    let c = create(&mut db, PAGE, "f.txt", b"x").unwrap();
    let r = FileService::edit(&mut db, edit(c.file_id, c.file_revision_id, Maybe::Unset, Maybe::Unset), 2, &mime());
    assert_eq!(r, Ok(None));
    let r = FileService::edit(&mut db, edit(c.file_id, c.file_revision_id, Maybe::Provided("f.txt".to_string()), Maybe::Unset), 2, &mime());
    assert_eq!(r, Ok(None));
    assert_eq!(db.file.files[0].revisions.len(), 1);
}

#[test]
fn edit_errors() {
    let mut db = db();
    let c = create(&mut db, PAGE, "f.txt", b"x").unwrap();
    create(&mut db, PAGE, "g.txt", b"y").unwrap();
    let tok = c.file_revision_id;
    let e = |name: &str| Maybe::Provided(name.to_string());
    assert_eq!(FileService::edit(&mut db, edit(c.file_id, tok, e(""), Maybe::Unset), 2, &mime()), Err(Error::InvalidName));
    assert_eq!(FileService::edit(&mut db, edit(c.file_id, tok, e("g.txt"), Maybe::Unset), 2, &mime()), Err(Error::EntityExists));
    assert_eq!(FileService::edit(&mut db, edit(77, tok, e("z"), Maybe::Unset), 2, &mime()), Err(Error::EntityNotFound));
    assert_eq!(FileService::edit(&mut db, edit(c.file_id, tok + 100, e("z"), Maybe::Unset), 2, &mime()), Err(Error::StaleConcurrencyToken));
    assert_eq!(
        FileService::edit(&mut db, edit(c.file_id, tok, Maybe::Unset, Maybe::Provided("nope".to_string())), 2, &mime()),
        Err(Error::BlobNotFound)
    );
    assert_eq!(db.file.files[0].revisions.len(), 1);
}

#[test]
fn create_validates_names() {
    let mut db = db();
    assert_eq!(create(&mut db, PAGE, "", b"x").unwrap_err(), Error::InvalidName);
    assert_eq!(create(&mut db, PAGE, "   ", b"x").unwrap_err(), Error::InvalidName);
    assert_eq!(create(&mut db, PAGE, "a/b", b"x").unwrap_err(), Error::InvalidName);
    assert_eq!(create(&mut db, PAGE, "a\\b", b"x").unwrap_err(), Error::InvalidName);
    assert_eq!(create(&mut db, PAGE, "a\tb", b"x").unwrap_err(), Error::InvalidName);
    assert_eq!(create(&mut db, PAGE, &"n".repeat(256), b"x").unwrap_err(), Error::InvalidName);
    let ok = create(&mut db, PAGE, &"n".repeat(255), b"x").unwrap();
    assert_eq!(ok.file_id, 1);
    let c = create(&mut db, PAGE, "  spaced.txt \n", b"x").unwrap();
    assert_eq!(db.file.files[(c.file_id - 1) as usize].name, "spaced.txt");
    assert_eq!(create(&mut db, PAGE, "spaced.txt", b"y").unwrap_err(), Error::EntityExists);
    assert!(create(&mut db, PAGE + 1, "spaced.txt", b"y").is_ok());
}

#[test]
fn name_helpers() {
    let mut n = "\u{3000} tab\there \u{a0}".to_string();
    assert_eq!(check_file_name(&mut n), Err(Error::InvalidName));
    assert_eq!(n, "tab\there");
    let mut n = " fine.png ".to_string();
    assert_eq!(check_file_name(&mut n), Ok(()));
    assert_eq!(n, "fine.png");
    let mut n = "\u{85}x\u{9f}".to_string();
    assert_eq!(check_file_name(&mut n), Err(Error::InvalidName));
    assert_eq!(n, "x\u{9f}");
    // 128 two-byte characters make 256 bytes.
    let mut n = "é".repeat(128);
    assert_eq!(check_file_name(&mut n), Err(Error::InvalidName));
    let mut n = "é".repeat(127);
    assert_eq!(check_file_name(&mut n), Ok(()));
    assert_eq!(trim_name("  a b  "), "a b");
    assert_eq!(trim_name(""), "");
}

#[test]
fn move_between_pages() {
    let mut db = db();
    let a = create(&mut db, PAGE, "a.txt", b"1").unwrap();
    create(&mut db, 20, "a.txt", b"2").unwrap();
    let mv = |token: i64, name: Option<&str>| MoveFile {
        name: name.map(|n| n.to_string()),
        site_id: SITE,
        current_page_id: PAGE,
        destination_page_id: 20,
        file_id: a.file_id,
        user_id: USER,
        last_revision_id: token,
        revision_comments: "move".to_string(),
    };
    assert_eq!(FileService::move_file(&mut db, mv(a.file_revision_id, None), 2), Err(Error::EntityExists));
    assert_eq!(FileService::move_file(&mut db, mv(a.file_revision_id + 50, None), 2), Err(Error::StaleConcurrencyToken));
    let out = FileService::move_file(&mut db, mv(a.file_revision_id, Some("b.txt")), 2).unwrap().unwrap();
    assert_eq!(out.file_revision_number, 2);
    let f = &db.file.files[0];
    assert_eq!(f.page_id, 20);
    assert_eq!(f.name, "b.txt");
    assert_eq!(f.revisions[1].revision_type, RevisionType::Move);
    assert_eq!(f.revisions[1].page_id, 20);
    assert_eq!(FileService::move_file(&mut db, mv(out.file_revision_id, None), 3), Err(Error::EntityNotFound));
}

#[test]
fn rollback_to_earlier_revision() {
    let mut db = db();
    let c = create(&mut db, PAGE, "v1.txt", b"one").unwrap();
    let e = FileService::edit(&mut db, edit(c.file_id, c.file_revision_id, Maybe::Provided("v2.txt".to_string()), Maybe::Unset), 2, &mime())
        .unwrap()
        .unwrap();
    let rb = |number: i64, token: i64| RollbackFile {
        site_id: SITE,
        page_id: PAGE,
        file_id: c.file_id,
        last_revision_id: token,
        revision_number: number,
        revision_comments: "rollback".to_string(),
        user_id: USER,
    };
    assert_eq!(FileService::rollback(&mut db, rb(0, e.file_revision_id), 3), Err(Error::RevisionNotFound));
    assert_eq!(FileService::rollback(&mut db, rb(3, e.file_revision_id), 3), Err(Error::RevisionNotFound));
    assert_eq!(FileService::rollback(&mut db, rb(1, c.file_revision_id), 3), Err(Error::StaleConcurrencyToken));
    let out = FileService::rollback(&mut db, rb(1, e.file_revision_id), 3).unwrap().unwrap();
    assert_eq!(out.file_revision_number, 3);
    let f = &db.file.files[0];
    assert_eq!(f.name, "v1.txt");
    assert_eq!(f.page_id, PAGE);
    assert_eq!(f.revisions[2].revision_type, RevisionType::Rollback);
    assert_eq!(f.revisions[2].digest, f.revisions[0].digest);
    assert_gapless(&db);
}

#[test]
fn revision_numbers_stay_gapless() {
    let mut db = db();
    let c = create(&mut db, PAGE, "a.txt", b"1").unwrap();
    let mut token = c.file_revision_id;
    for i in 0..5 {
        let name = format!("a{i}.txt");
        token = FileService::edit(&mut db, edit(c.file_id, token, Maybe::Provided(name), Maybe::Unset), 2, &mime())
            .unwrap()
            .unwrap()
            .file_revision_id;
    }
    token = FileService::delete(&mut db, delete(c.file_id, PAGE, token), 3).unwrap().file_revision_id;
    let _ = token;
    FileService::restore(&mut db, restore(c.file_id, PAGE, None, None), 4).unwrap();
    create(&mut db, PAGE, "other.txt", b"2").unwrap();
    assert_eq!(db.file.files[0].revisions.len(), 8);
    assert_gapless(&db);
}

#[test]
fn lookups() {
    let mut db = db();
    let a = create(&mut db, PAGE, "a.txt", b"1").unwrap();
    let b = create(&mut db, PAGE, "b.txt", b"2").unwrap();
    FileService::delete(&mut db, delete(b.file_id, PAGE, b.file_revision_id), 3).unwrap();
    assert_eq!(FileService::get_id(&db.file, PAGE, &Reference::Slug("a.txt".to_string())), Ok(a.file_id));
    assert_eq!(FileService::get_id(&db.file, PAGE, &Reference::Slug("b.txt".to_string())), Err(Error::EntityNotFound));
    assert_eq!(FileService::get_id(&db.file, PAGE, &Reference::Id(42)), Ok(42));
    assert_eq!(FileService::get(&db.file, SITE, PAGE, &Reference::Id(a.file_id)).unwrap().name, "a.txt");
    assert!(FileService::get_optional(&db.file, SITE, PAGE, &Reference::Id(b.file_id)).is_none());
    assert!(FileService::get(&db.file, SITE + 1, PAGE, &Reference::Id(a.file_id)).is_err());
    assert_eq!(FileService::get_all(&db.file, SITE, PAGE, None), vec![1, 2]);
    assert_eq!(FileService::get_all(&db.file, SITE, PAGE, Some(true)), vec![2]);
    assert_eq!(FileService::get_all(&db.file, SITE, PAGE, Some(false)), vec![1]);
    assert!(FileService::get_direct(&db.file, b.file_id, false).is_err());
    assert!(FileService::get_direct(&db.file, b.file_id, true).is_ok());
    assert!(FileService::get_direct_optional(&db.file, 0, true).is_none());
}

#[test]
fn last_revision_check() {
    let mut db = db();
    let c = create(&mut db, PAGE, "a.txt", b"1").unwrap();
    let latest = &db.file.files[0].revisions[0];
    assert_eq!(check_last_revision(latest, c.file_revision_id), Ok(()));
    assert_eq!(check_last_revision(latest, c.file_revision_id + 1), Err(Error::StaleConcurrencyToken));
}

#[test]
fn edit_with_direct_content() {
    let mut db = db();
    let c = create(&mut db, PAGE, "f.txt", b"old").unwrap();
    let mut input = edit(c.file_id, c.file_revision_id, Maybe::Unset, Maybe::Provided(String::new()));
    input.direct_upload = Maybe::Provided(b"direct bytes".to_vec());
    let out = FileService::edit(&mut db, input, 2, &mime()).unwrap().unwrap();
    assert_eq!(out.file_revision_number, 2);
    let rev = &db.file.files[0].revisions[1];
    assert_eq!(rev.size, 12);
    assert_eq!(BlobService::get(&db.blob, &rev.digest).unwrap(), b"direct bytes".to_vec());
}
