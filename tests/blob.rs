use deepwell::blob::{BlobService, StartBlobUpload, EMPTY_BLOB_MIME, EMPTY_BLOB_TIMESTAMP};
use deepwell::digest::{blob_key, compute_digest, empty_digest, is_empty_blob_digest};
use deepwell::error::Error;
use deepwell::model::{BlobConfig, BlobState};

fn config() -> BlobConfig {
    BlobConfig {
        maximum_blob_size: 1000,
        presigned_expiry_secs: 60,
        presigned_path_length: 16,
    }
}

fn state() -> BlobState {
    BlobService::new_state(config())
}

/// Opens a slot for `user`, uploads `data` to it, and returns the ticket.
fn upload(state: &mut BlobState, user: i64, ticket: &str, data: &[u8]) -> String {
    let out = BlobService::start_upload_with(
        state,
        StartBlobUpload { user_id: user, blob_size: data.len() as u64 },
        ticket.to_string(),
        ticket,
        100,
    )
    .expect("start upload");
    BlobService::put_upload(state, out.temp_path.clone(), data.to_vec());
    out.pending_blob_id
}

fn sha512(data: &[u8]) -> Vec<u8> {
    <sha2::Sha512 as sha2::Digest>::digest(data).to_vec()
}

#[test]
fn start_upload_too_big() {
    let mut s = state();
    let r = BlobService::start_upload(&mut s, StartBlobUpload { user_id: 1, blob_size: 1001 }, 0);
    assert_eq!(r.unwrap_err(), Error::BlobTooBig);
    let r = BlobService::start_upload(&mut s, StartBlobUpload { user_id: 1, blob_size: u64::MAX }, 0);
    assert_eq!(r.unwrap_err(), Error::BlobTooBig);
    assert!(s.pending.is_empty());
}

#[test]
fn start_upload_generates_ticket_and_path() {
    let mut s = state();
    let out = BlobService::start_upload(&mut s, StartBlobUpload { user_id: 7, blob_size: 1000 }, 500)
        .expect("start");
    assert!(out.temp_path.starts_with("uploads/"));
    assert_eq!(out.temp_path.len(), "uploads/".len() + 16);
    assert!(out.temp_path["uploads/".len()..].chars().all(|c| c.is_ascii_alphanumeric()));
    assert!(!out.pending_blob_id.is_empty());
    assert_eq!(out.expires_at, 560);
    assert_eq!(s.pending.len(), 1);
    assert_eq!(s.pending[0].created_by, 7);
    assert_eq!(s.pending[0].expected_length, 1000);
    assert_eq!(s.pending[0].resolved_digest, None);
}

#[test]
fn start_upload_ticket_taken() {
    let mut s = state();
    upload(&mut s, 1, "t1", b"abc");
    let r = BlobService::start_upload_with(
        &mut s,
        StartBlobUpload { user_id: 1, blob_size: 3 },
        "t1".to_string(),
        "other",
        100,
    );
    assert_eq!(r.unwrap_err(), Error::BlobTicketTaken);
}

#[test]
fn finish_upload_stores_by_sha512() {
    let mut s = state();
    let data = b"hello world".to_vec();
    let t = upload(&mut s, 1, "t1", &data);
    let out = BlobService::finish_upload(&mut s, 1, &t, 110, &"text/plain".to_string()).expect("finish");
    assert_eq!(out.digest, sha512(&data));
    assert_eq!(out.digest.len(), 64);
    assert_eq!(out.mime, "text/plain");
    assert_eq!(out.size, 11);
    assert!(out.created);
    assert_eq!(s.blobs.len(), 1);
    assert!(s.uploads.is_empty());
    assert_eq!(s.pending[0].resolved_digest, Some(out.digest.clone()));
}

#[test]
fn dedup_two_tickets() {
    let mut s = state();
    let data = b"same bytes".to_vec();
    let t1 = upload(&mut s, 1, "t1", &data);
    let t2 = upload(&mut s, 2, "t2", &data);
    let first = BlobService::finish_upload(&mut s, 1, &t1, 110, &"a/b".to_string()).unwrap();
    let second = BlobService::finish_upload(&mut s, 2, &t2, 110, &"c/d".to_string()).unwrap();
    assert_eq!(first.digest, second.digest);
    assert!(first.created);
    assert!(!second.created);
    assert_eq!(second.mime, "a/b");
    assert_eq!(s.blobs.len(), 1);
    assert!(s.uploads.is_empty());
}

#[test]
fn round_trip() {
    for data in [Vec::new(), vec![0u8], b"some content".to_vec(), vec![7u8; 1000]] {
        let mut s = state();
        let t = upload(&mut s, 1, "t", &data);
        let out = BlobService::finish_upload(&mut s, 1, &t, 110, &"x/y".to_string()).unwrap();
        assert_eq!(BlobService::get(&s, &out.digest).unwrap(), data);
        assert_eq!(BlobService::get_optional(&s, &out.digest), Some(data.clone()));
    }
}

#[test]
fn empty_upload_is_sentinel() {
    let mut s = state();
    let t = upload(&mut s, 1, "t", b"");
    let out = BlobService::finish_upload(&mut s, 1, &t, 110, &"x/y".to_string()).unwrap();
    assert!(is_empty_blob_digest(&out.digest));
    assert_eq!(out.mime, EMPTY_BLOB_MIME);
    assert_eq!(out.size, 0);
    assert!(!out.created);
    assert!(s.blobs.is_empty());
}

#[test]
fn sentinel_always_present() {
    let s = state();
    let e = empty_digest();
    assert_eq!(e, vec![0u8; 64]);
    assert!(BlobService::blob_exists(&s, &e));
    assert_eq!(BlobService::get(&s, &e).unwrap(), Vec::<u8>::new());
    let m = BlobService::get_metadata_optional(&s, &e).unwrap();
    assert_eq!(m.mime, "inode/x-empty; charset=binary");
    assert_eq!(m.size, 0);
    assert_eq!(m.created_at, EMPTY_BLOB_TIMESTAMP);
    assert_eq!(compute_digest(&Vec::new()), e);
}

#[test]
fn missing_blob() {
    let s = state();
    let d = sha512(b"never stored");
    assert!(!BlobService::blob_exists(&s, &d));
    assert_eq!(BlobService::get(&s, &d).unwrap_err(), Error::BlobNotFound);
    assert!(BlobService::get_metadata_optional(&s, &d).is_none());
    assert_eq!(BlobService::get_maybe(&s, false, &d), Ok(None));
    assert_eq!(BlobService::get_maybe(&s, true, &d), Err(Error::BlobNotFound));
}

#[test]
fn get_maybe_fetches() {
    let mut s = state();
    let out = BlobService::direct_upload(&mut s, &b"abc".to_vec(), &"t/x".to_string(), 5).unwrap();
    assert_eq!(BlobService::get_maybe(&s, true, &out.digest), Ok(Some(b"abc".to_vec())));
    let m = BlobService::get_metadata_optional(&s, &out.digest).unwrap();
    assert_eq!((m.mime.as_str(), m.size, m.created_at), ("t/x", 3, 5));
}

#[test]
fn finish_upload_errors() {
    let mut s = state();
    let t = upload(&mut s, 1, "t", b"abc");
    let mime = "x/y".to_string();
    assert_eq!(BlobService::finish_upload(&mut s, 1, &"nope".to_string(), 110, &mime).unwrap_err(), Error::BlobNotFound);
    assert_eq!(BlobService::finish_upload(&mut s, 2, &t, 110, &mime).unwrap_err(), Error::BlobWrongUser);
    // The slot expires 60 seconds after it was opened at time 100.
    assert_eq!(BlobService::finish_upload(&mut s, 1, &t, 160, &mime).unwrap_err(), Error::BlobNotFound);
    assert_eq!(s.uploads.len(), 1);
}

#[test]
fn finish_upload_not_uploaded() {
    let mut s = state();
    let out = BlobService::start_upload_with(
        &mut s,
        StartBlobUpload { user_id: 1, blob_size: 3 },
        "t".to_string(),
        "tok",
        100,
    )
    .unwrap();
    assert_eq!(out.temp_path, "uploads/tok");
    let r = BlobService::finish_upload(&mut s, 1, &"t".to_string(), 110, &"x/y".to_string());
    assert_eq!(r.unwrap_err(), Error::BlobNotUploaded);
}

#[test]
fn finish_upload_size_mismatch() {
    let mut s = state();
    let out = BlobService::start_upload_with(
        &mut s,
        StartBlobUpload { user_id: 1, blob_size: 5 },
        "t".to_string(),
        "tok",
        100,
    )
    .unwrap();
    BlobService::put_upload(&mut s, out.temp_path, b"abc".to_vec());
    let r = BlobService::finish_upload(&mut s, 1, &"t".to_string(), 110, &"x/y".to_string());
    assert_eq!(r.unwrap_err(), Error::BlobSizeMismatch);
    assert!(s.uploads.is_empty());
    assert!(s.blobs.is_empty());
}

#[test]
fn finish_upload_twice_is_idempotent() {
    let mut s = state();
    let t = upload(&mut s, 1, "t", b"abcdef");
    let a = BlobService::finish_upload(&mut s, 1, &t, 110, &"x/y".to_string()).unwrap();
    let b = BlobService::finish_upload(&mut s, 1, &t, 111, &"other/type".to_string()).unwrap();
    assert_eq!(a.digest, b.digest);
    assert_eq!(b.mime, "x/y");
    assert_eq!(b.size, 6);
    assert!(!b.created);
    assert_eq!(s.blobs.len(), 1);
}

#[test]
fn cancel_upload_removes_slot_and_object() {
    let mut s = state();
    let t = upload(&mut s, 1, "t", b"abc");
    assert_eq!(BlobService::cancel_upload(&mut s, 2, &t, 110), Err(Error::BlobWrongUser));
    assert_eq!(BlobService::cancel_upload(&mut s, 1, &"x".to_string(), 110), Err(Error::BlobNotFound));
    assert_eq!(BlobService::cancel_upload(&mut s, 1, &t, 110), Ok(()));
    assert!(s.pending.is_empty());
    assert!(s.uploads.is_empty());
    assert_eq!(BlobService::cancel_upload(&mut s, 1, &t, 110), Err(Error::BlobNotFound));
}

#[test]
fn blacklist_operations() {
    let mut s = state();
    let d = sha512(b"bad");
    assert!(!BlobService::on_blacklist(&s, &d));
    BlobService::add_blacklist(&mut s, &d, 9, 1);
    BlobService::add_blacklist(&mut s, &d, 10, 2);
    assert!(BlobService::on_blacklist(&s, &d));
    assert_eq!(s.blacklist.len(), 1);
    assert_eq!(s.blacklist[0].created_by, 9);
    BlobService::remove_blacklist(&mut s, &d);
    assert!(!BlobService::on_blacklist(&s, &d));
    BlobService::remove_blacklist(&mut s, &d);
    assert!(s.blacklist.is_empty());
}

#[test]
fn blacklisted_content_is_refused() {
    let mut s = state();
    let data = b"bad".to_vec();
    BlobService::add_blacklist(&mut s, &sha512(&data), 9, 1);
    let t = upload(&mut s, 1, "t", &data);
    let r = BlobService::finish_upload(&mut s, 1, &t, 110, &"x/y".to_string());
    assert_eq!(r.unwrap_err(), Error::BlobBlacklisted);
    assert_eq!(
        BlobService::direct_upload(&mut s, &data, &"x/y".to_string(), 1).unwrap_err(),
        Error::BlobBlacklisted
    );
    assert!(s.blobs.is_empty());
}

#[test]
fn hard_delete_object() {
    let mut s = state();
    let out = BlobService::direct_upload(&mut s, &b"abc".to_vec(), &"x/y".to_string(), 1).unwrap();
    BlobService::hard_delete(&mut s, &empty_digest());
    assert_eq!(s.blobs.len(), 1);
    BlobService::hard_delete(&mut s, &out.digest);
    assert!(s.blobs.is_empty());
    BlobService::hard_delete(&mut s, &out.digest);
    assert!(!BlobService::blob_exists(&s, &out.digest));
}

#[test]
fn blob_key_is_lowercase_hex() {
    assert_eq!(blob_key(&[0xab, 0x01, 0xff, 0x00]), "ab01ff00");
    assert_eq!(blob_key(&[]), "");
    assert_eq!(blob_key(&sha512(b"")), hex::encode(sha512(b"")));
}

#[test]
fn blob_get_with_metadata() {
    let mut s = state();
    let out = BlobService::direct_upload(&mut s, &b"abcd".to_vec(), &"image/png".to_string(), 77).unwrap();
    let got = BlobService::blob_get(&s, &out.digest).unwrap();
    assert_eq!(got.data, b"abcd".to_vec());
    assert_eq!((got.mime.as_str(), got.size, got.created_at), ("image/png", 4, 77));
    assert_eq!(BlobService::get_metadata(&s, &out.digest).unwrap().size, 4);
    assert_eq!(BlobService::blob_get(&s, &sha512(b"zz")).unwrap_err(), Error::BlobNotFound);
    let empty = BlobService::blob_get(&s, &empty_digest()).unwrap();
    assert_eq!((empty.data.len(), empty.size, empty.created_at), (0, 0, EMPTY_BLOB_TIMESTAMP));
}
