use rustgit::object::blob::Blob;
use rustgit::object::commit::Author;
use rustgit::object::commit::Commit;
use rustgit::object::commit::Timestamp;
use rustgit::object::parse_header;
use rustgit::object::read_tree_object;
use rustgit::object::tree::TreeEntry;
use rustgit::object::Object;
use rustgit::object::ObjectBuffer;
use rustgit::object::ObjectReadError;
use rustgit::object::ObjectType;
use rustgit::oid::ObjectId;

#[test]
fn object_buffer_layout() {
    let buf = ObjectBuffer::new(ObjectType::Blob, b"hello");
    assert_eq!(buf.data(), b"blob 5\0hello");

    let buf = ObjectBuffer::new(ObjectType::Commit, b"");
    assert_eq!(buf.data(), b"commit 0\0");
}

#[test]
fn header_parses_back() {
    let buf = ObjectBuffer::new(ObjectType::Tree, b"xyz");
    // the header runs up to and including the NUL
    let data = buf.data();
    let nul = data.iter().position(|&c| c == 0).unwrap();
    let header = parse_header(&data[..=nul]).unwrap();
    assert!(matches!(header.typ, ObjectType::Tree));
    assert_eq!(header.size, 3);
}

#[test]
fn header_errors() {
    assert!(matches!(
        parse_header(b"blob5\0"),
        Err(ObjectReadError::MissingSpaceSeparator)
    ));
    assert!(matches!(
        parse_header(b"blobby 5\0"),
        Err(ObjectReadError::UnknownObjectType)
    ));
    assert!(matches!(
        parse_header(b"blob x\0"),
        Err(ObjectReadError::ParseNumError(_))
    ));
}

#[test]
fn object_type_parse() {
    assert!(matches!(ObjectType::parse(b"blob"), Some(ObjectType::Blob)));
    assert!(matches!(ObjectType::parse(b"tree"), Some(ObjectType::Tree)));
    assert!(matches!(
        ObjectType::parse(b"commit"),
        Some(ObjectType::Commit)
    ));
    assert!(ObjectType::parse(b"blobs").is_none());
    assert!(ObjectType::parse(b"").is_none());
}

#[test]
fn blob_to_buffer() {
    let blob = Blob::new(b"contents\n".to_vec());
    assert_eq!(blob.to_buffer().data(), b"blob 9\0contents\n");
}

fn sample_tree() -> rustgit::object::Tree {
    let mut tree = rustgit::object::Tree::new();
    let blob_oid = ObjectId::from_data(b"a file");
    tree.push_entry(TreeEntry {
        name: b"a".to_vec(),
        oid: blob_oid,
        mode: 0o100644,
    });
    tree.push_entry(TreeEntry {
        name: b"b.txt".to_vec(),
        oid: ObjectId::from_data(b"other"),
        mode: 0o100755,
    });
    tree
}

#[test]
fn tree_round_trip() {
    let tree = sample_tree();
    let buffer = tree.to_buffer();
    let back = read_tree_object(buffer.data()).unwrap();
    let original = tree.iter();
    let decoded = back.iter();
    assert_eq!(original.len(), decoded.len());
    for (a, b) in original.iter().zip(decoded.iter()) {
        assert_eq!(a.name, b.name);
        assert_eq!(a.oid.0, b.oid.0);
        assert_eq!(a.mode, b.mode);
    }
}

#[test]
fn tree_wire_format() {
    let mut tree = rustgit::object::Tree::new();
    let oid = ObjectId([0xabu8; 20]);
    tree.push_entry(TreeEntry {
        name: b"file".to_vec(),
        oid,
        mode: 0o100644,
    });
    let buffer = tree.to_buffer();
    let mut expected: Vec<u8> = Vec::new();
    expected.extend_from_slice(b"tree 32\0100644 file\0");
    expected.extend_from_slice(&[0xab; 20]);
    assert_eq!(buffer.data(), &expected[..]);
}

#[test]
fn read_tree_object_rejects_non_tree() {
    let blob = ObjectBuffer::new(ObjectType::Blob, b"hi");
    assert!(matches!(
        read_tree_object(blob.data()),
        Err(ObjectReadError::MismatchObjectType(ObjectType::Tree, ObjectType::Blob))
    ));
}

#[test]
fn commit_wire_format() {
    let tree = ObjectId::from_data(b"the tree");
    let parent = ObjectId::from_data(b"the parent");
    let author = Author {
        name: "Jane Doe".to_string(),
        email: "jane@doe.com".to_string(),
        time: Timestamp {
            seconds: 1243040974,
            tz_negative: true,
            tz_hours: 7,
            tz_minutes: 0,
        },
    };
    let commit = Commit::new(tree, Some(parent), author, "initial commit".to_string());
    let buffer = commit.to_buffer();

    let tree_hex = String::from_utf8(tree.to_hex_string().0.to_vec()).unwrap();
    let parent_hex = String::from_utf8(parent.to_hex_string().0.to_vec()).unwrap();
    let body = format!(
        "tree {}\nparent {}\nauthor Jane Doe <jane@doe.com> 1243040974 -0700\ncommitter Jane Doe <jane@doe.com> 1243040974 -0700\n\ninitial commit\n",
        tree_hex, parent_hex
    );
    let expected = format!("commit {}\0{}", body.len(), body);
    assert_eq!(buffer.data(), expected.as_bytes());
}

#[test]
fn commit_without_parent_has_no_parent_line() {
    let tree = ObjectId::from_data(b"the tree");
    let author = Author {
        name: "A".to_string(),
        email: "a@b.c".to_string(),
        time: Timestamp {
            seconds: 0,
            tz_negative: false,
            tz_hours: 0,
            tz_minutes: 0,
        },
    };
    let commit = Commit::new(tree, None, author, "m".to_string());
    let data = commit.to_buffer();
    let text = String::from_utf8(data.data().to_vec()).unwrap();
    assert!(!text.contains("parent"));
    assert!(text.contains("author A <a@b.c> 0 +0000\n"));
}
