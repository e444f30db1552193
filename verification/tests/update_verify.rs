//! Update engine and verification engine behaviour.

use ubl::ops::{compress_files, list_container, FileInput};
use ubl::report::{verify_container, EntryStatus};
use ubl::update::{read_container, update_archive, update_container, UpdateOp};

fn sample_container() -> Vec<u8> {
    let files = vec![
        FileInput { path: b"a.txt".to_vec(), data: b"alpha".to_vec() },
        FileInput { path: b"b.txt".to_vec(), data: b"beta".to_vec() },
        FileInput { path: b"c.txt".to_vec(), data: b"gamma".to_vec() },
    ];
    compress_files(&files)
}

fn names(container: &[u8]) -> Vec<String> {
    let mut v: Vec<String> = list_container(container)
        .unwrap()
        .into_iter()
        .map(|row| row.name)
        .collect();
    v.sort();
    v
}

#[test]
fn remove_deletes_entry() {
    let c = sample_container();
    let c2 = update_container(&c, &UpdateOp::Remove(b"b.txt".to_vec())).unwrap();
    assert_eq!(names(&c2), vec!["a.txt".to_string(), "c.txt".to_string()]);
}

#[test]
fn remove_is_idempotent() {
    // Removing the same path twice yields the same mapping as one removal.
    let c = sample_container();
    let once = update_container(&c, &UpdateOp::Remove(b"b.txt".to_vec())).unwrap();
    let twice = update_container(&once, &UpdateOp::Remove(b"b.txt".to_vec())).unwrap();
    assert_eq!(names(&once), names(&twice));
    let rows_once = list_container(&once).unwrap();
    let rows_twice = list_container(&twice).unwrap();
    for (a, b) in rows_once.iter().zip(rows_twice.iter()) {
        assert_eq!(a.path, b.path);
        assert_eq!(a.original_size, b.original_size);
        assert_eq!(a.compressed_size, b.compressed_size);
    }
}

#[test]
fn remove_of_absent_path_is_not_an_error() {
    let c = sample_container();
    let c2 = update_container(&c, &UpdateOp::Remove(b"missing".to_vec())).unwrap();
    assert_eq!(names(&c2), vec!["a.txt".to_string(), "b.txt".to_string(), "c.txt".to_string()]);
}

#[test]
fn upsert_overwrites_and_lists_once() {
    // However many prior records named the path, after an upsert the listing
    // shows exactly one entry for it.
    let files = vec![
        FileInput { path: b"dup".to_vec(), data: b"first".to_vec() },
        FileInput { path: b"dup".to_vec(), data: b"second".to_vec() },
        FileInput { path: b"other".to_vec(), data: b"x".to_vec() },
    ];
    let c = compress_files(&files);
    let upsert = UpdateOp::Upsert(vec![FileInput {
        path: b"dup".to_vec(),
        data: b"fresh content".to_vec(),
    }]);
    let c2 = update_container(&c, &upsert).unwrap();
    let rows = list_container(&c2).unwrap();
    let dup_rows: Vec<_> = rows.iter().filter(|r| r.path == b"dup").collect();
    assert_eq!(dup_rows.len(), 1);
    assert_eq!(dup_rows[0].original_size, b"fresh content".len() as u64);
}

#[test]
fn upsert_adds_new_entry() {
    let c = sample_container();
    let upsert = UpdateOp::Upsert(vec![FileInput {
        path: b"d.txt".to_vec(),
        data: b"delta".to_vec(),
    }]);
    let c2 = update_container(&c, &upsert).unwrap();
    assert_eq!(
        names(&c2),
        vec!["a.txt".to_string(), "b.txt".to_string(), "c.txt".to_string(), "d.txt".to_string()]
    );
}

#[test]
fn update_of_encrypted_archive() {
    let files = vec![FileInput { path: b"a.txt".to_vec(), data: b"alpha".to_vec() }];
    let archive = ubl::update::compress_archive(&files, Some("pw")).unwrap();
    let upsert = UpdateOp::Upsert(vec![FileInput {
        path: b"b.txt".to_vec(),
        data: b"beta".to_vec(),
    }]);
    let archive2 = update_archive(&archive, &upsert, Some("pw")).unwrap();
    let container = read_container(&archive2, Some("pw")).unwrap();
    assert_eq!(names(&container), vec!["a.txt".to_string(), "b.txt".to_string()]);
}

#[test]
fn shallow_verify_digests_stored_bytes() {
    let c = sample_container();
    let report = verify_container(&c, false).unwrap();
    assert_eq!(report.entries.len(), 3);
    assert!(!report.any_corrupted);
    for entry in &report.entries {
        assert_eq!(entry.status, EntryStatus::Intact);
        assert_eq!(entry.digest.len(), 32);
    }
}

#[test]
fn known_digest_of_empty_payload() {
    // An entry with an empty payload: the shallow digest must be the
    // well-known digest of the empty byte string. Fails if the digest
    // wrapper handed its input back.
    let mut bytes = Vec::new();
    bytes.extend_from_slice(&1u32.to_le_bytes());
    bytes.push(b'e');
    bytes.extend_from_slice(&0u64.to_le_bytes());
    bytes.extend_from_slice(&0u64.to_le_bytes());
    let report = verify_container(&bytes, false).unwrap();
    assert_eq!(
        ubl::display::hex_string(&report.entries[0].digest),
        "e3b0c44298fc1c149afbf4c8996fb92427ae41e4649b934ca495991b7852b855"
    );
}

#[test]
fn deep_verify_flags_corrupted_payload() {
    // Corrupting one byte inside a compressed payload: shallow verification
    // still digests the stored bytes as they are, deep verification must
    // flag the entry whose decompression fails.
    let files = vec![FileInput { path: b"a.txt".to_vec(), data: b"some file content".to_vec() }];
    let mut c = compress_files(&files);
    assert!(!verify_container(&c, true).unwrap().any_corrupted);
    let pos = 4 + b"a.txt".len() + 8 + 8; // first payload byte: the frame header
    c[pos] ^= 0xff;
    let shallow = verify_container(&c, false).unwrap();
    assert!(!shallow.any_corrupted);
    assert_eq!(shallow.entries[0].status, EntryStatus::Intact);
    let deep = verify_container(&c, true).unwrap();
    assert!(deep.any_corrupted);
    assert_eq!(deep.entries[0].status, EntryStatus::Corrupted);
    assert_eq!(deep.entries[0].digest.len(), 0);
}

#[test]
fn deep_verify_digests_recovered_bytes() {
    let files = vec![FileInput { path: b"a.txt".to_vec(), data: b"raw bytes here".to_vec() }];
    let c = compress_files(&files);
    let deep = verify_container(&c, true).unwrap();
    let shallow = verify_container(&c, false).unwrap();
    assert_eq!(deep.entries[0].status, EntryStatus::Intact);
    // Deep digests the raw bytes, shallow the compressed frame: different.
    assert_ne!(deep.entries[0].digest, shallow.entries[0].digest);
}
