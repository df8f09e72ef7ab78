use std::io::Read;

use rustgit::database::inflate_object;
use rustgit::hash::Sha1Hash;
use rustgit::object::blob::Blob;
use rustgit::object::split_object;
use rustgit::object::Object;
use rustgit::object::ObjectBuffer;
use rustgit::object::ObjectType;
use rustgit::oid::ObjectId;
use rustgit::Repository;

fn repo() -> Repository {
    Repository::open(b"work".to_vec(), b"work/.git".to_vec())
}

#[test]
fn object_path_fan_out() {
    let repo = repo();
    let oid = ObjectId::from_unvalidated_sh1_hex_string("3b18e512dba79e4c8300dd08aeb37f8e728b8dad")
        .unwrap();
    let path = repo.database.object_path_from_oid(oid);
    assert_eq!(
        &path[..],
        b"work/.git/objects/3b/18e512dba79e4c8300dd08aeb37f8e728b8dad" as &[u8]
    );
    let same = repo.object_path_from_hash(Sha1Hash(oid.0));
    assert_eq!(path, same);
}

#[test]
fn compressed_bytes_inflate_back() {
    let repo = repo();
    let buffer = ObjectBuffer::new(ObjectType::Blob, b"hello world\n");
    let oid = ObjectId::from_object_buffer(&buffer);
    let write = repo.write_object_buffer(oid, &buffer);

    let mut decoder = flate2::read::ZlibDecoder::new(&write.bytes[..]);
    let mut inflated = Vec::new();
    decoder.read_to_end(&mut inflated).unwrap();
    assert_eq!(&inflated[..], buffer.data());
}

#[test]
fn stored_object_reads_back() {
    let repo = repo();
    let buffer = ObjectBuffer::new(ObjectType::Blob, b"hello world\n");
    let oid = ObjectId::from_object_buffer(&buffer);
    let write = repo.write_object_buffer(oid, &buffer);

    // the library's read side: inflate, then split at the header NUL
    let data = inflate_object(&write.bytes).unwrap();
    assert_eq!(&data[..], buffer.data());
    let (header, content) = split_object(&data).unwrap();
    assert!(matches!(header.typ, ObjectType::Blob));
    assert_eq!(header.size, 12);
    assert_eq!(&content[..], b"hello world\n");

    // garbage is not a zlib stream
    assert!(inflate_object(b"not compressed").is_err());
}

#[test]
fn idempotent_store_write() {
    // writing the same (oid, buffer) twice computes identical bytes and path
    let repo = repo();
    let buffer = ObjectBuffer::new(ObjectType::Blob, b"hello world\n");
    let oid = ObjectId::from_object_buffer(&buffer);
    let first = repo.write_object_buffer(oid, &buffer);
    let buffer_again = ObjectBuffer::new(ObjectType::Blob, b"hello world\n");
    let second = repo.write_object_buffer(oid, &buffer_again);
    assert_eq!(first.path, second.path);
    assert_eq!(first.bytes, second.bytes);
}

#[test]
fn write_object_derives_id_by_hashing() {
    let repo = repo();
    let blob = Blob::new(b"hello world\n".to_vec());
    let (oid, write) = repo.write_object(&blob);
    assert_eq!(
        &oid.to_hex_string().0[..],
        b"3b18e512dba79e4c8300dd08aeb37f8e728b8dad"
    );
    assert_eq!(
        &write.path[..],
        b"work/.git/objects/3b/18e512dba79e4c8300dd08aeb37f8e728b8dad" as &[u8]
    );
    // and the bytes are the compressed buffer, not the raw one
    assert_ne!(&write.bytes[..], blob.to_buffer().data());
}
