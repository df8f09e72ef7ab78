use rustgit::index::EntryMetadata;
use rustgit::index::Index;
use rustgit::index::IndexFormatError;
use rustgit::oid::ObjectId;

fn metadata(n: u32) -> EntryMetadata {
    EntryMetadata {
        ctime_seconds: n,
        ctime_nanoseconds: n + 1,
        mtime_seconds: n + 2,
        mtime_nanoseconds: n + 3,
        dev: n + 4,
        ino: n + 5,
        mode: 0o100644,
        uid: n + 6,
        gid: n + 7,
        file_size: n + 8,
    }
}

fn entries_of(index: &Index) -> Vec<(Vec<u8>, [u8; 20], EntryMetadata)> {
    index
        .iter()
        .iter()
        .map(|e| (e.path.clone(), e.oid.0, e.metadata))
        .collect()
}

#[test]
fn index_round_trip() {
    let mut index = Index::new();
    index.add(b"src/main.rs".to_vec(), ObjectId::from_data(b"1"), metadata(1));
    index.add(b"Cargo.toml".to_vec(), ObjectId::from_data(b"2"), metadata(2));
    index.add(b"src/lib.rs".to_vec(), ObjectId::from_data(b"3"), metadata(3));

    let mut bytes: Vec<u8> = Vec::new();
    index.write_to(&mut bytes);

    let back = Index::parse(&bytes).unwrap();
    assert_eq!(entries_of(&index), entries_of(&back));
}

#[test]
fn index_entries_sorted_by_path() {
    let mut index = Index::new();
    index.add(b"b".to_vec(), ObjectId::from_data(b"1"), metadata(1));
    index.add(b"a".to_vec(), ObjectId::from_data(b"2"), metadata(2));
    index.add(b"c".to_vec(), ObjectId::from_data(b"3"), metadata(3));
    let paths: Vec<Vec<u8>> = index.iter().iter().map(|e| e.path.clone()).collect();
    assert_eq!(paths, vec![b"a".to_vec(), b"b".to_vec(), b"c".to_vec()]);
}

#[test]
fn index_add_replaces_by_path() {
    let mut index = Index::new();
    index.add(b"a".to_vec(), ObjectId::from_data(b"1"), metadata(1));
    index.add(b"a".to_vec(), ObjectId::from_data(b"2"), metadata(2));
    let all = entries_of(&index);
    assert_eq!(all.len(), 1);
    assert_eq!(all[0].1, ObjectId::from_data(b"2").0);
}

#[test]
fn index_boundary_path_lengths() {
    // every padding case: path lengths 0 through 8
    for len in 0usize..=8 {
        let mut index = Index::new();
        let path: Vec<u8> = std::iter::repeat(b'x').take(len).collect();
        index.add(path, ObjectId::from_data(b"p"), metadata(9));
        let mut bytes: Vec<u8> = Vec::new();
        index.write_to(&mut bytes);
        // the whole entry is padded to a multiple of 8
        assert_eq!((bytes.len() - 12) % 8, 0, "path length {}", len);
        let back = Index::parse(&bytes).unwrap();
        assert_eq!(entries_of(&index), entries_of(&back), "path length {}", len);
    }
}

#[test]
fn index_signature_and_version_checked() {
    let mut index = Index::new();
    index.add(b"a".to_vec(), ObjectId::from_data(b"1"), metadata(1));
    let mut bytes: Vec<u8> = Vec::new();
    index.write_to(&mut bytes);

    let mut bad_sig = bytes.clone();
    bad_sig[0] = b'X';
    assert!(matches!(
        Index::parse(&bad_sig),
        Err(IndexFormatError::BadSignature)
    ));

    let mut bad_version = bytes.clone();
    bad_version[7] = 3;
    assert!(matches!(
        Index::parse(&bad_version),
        Err(IndexFormatError::UnsupportedVersion)
    ));

    let truncated = &bytes[..bytes.len() - 1];
    assert!(matches!(
        Index::parse(truncated),
        Err(IndexFormatError::Truncated)
    ));

    assert!(matches!(
        Index::parse(b"DIR"),
        Err(IndexFormatError::Truncated)
    ));
}

#[test]
fn empty_index_file() {
    let index = Index::new();
    let mut bytes: Vec<u8> = Vec::new();
    index.write_to(&mut bytes);
    assert_eq!(&bytes[..8], b"DIRC\x00\x00\x00\x02");
    assert_eq!(bytes.len(), 12);
    let back = Index::parse(&bytes).unwrap();
    assert_eq!(back.iter().len(), 0);
}
