use rustgit::hash::Sha1Hash;
use rustgit::object::ObjectBuffer;
use rustgit::object::ObjectType;
use rustgit::oid::ObjectId;
use rustgit::oid::SHA1ValidationError;
use rustgit::oid::Sha1HashHexString;

#[test]
fn hash_from_object() {
    let blob = ObjectBuffer::new(ObjectType::Blob, "hello world\n".as_bytes());

    assert_eq!(
        &Sha1Hash::from_object(&blob).to_hex_string().0[..],
        b"3b18e512dba79e4c8300dd08aeb37f8e728b8dad"
    );
}

#[test]
fn from_object_buffer() {
    let blob = ObjectBuffer::new(ObjectType::Blob, "hello world\n".as_bytes());

    assert_eq!(
        &ObjectId::from_object_buffer(&blob).to_hex_string().0[..],
        b"3b18e512dba79e4c8300dd08aeb37f8e728b8dad"
    );
}

#[test]
fn hash_from_unvalidated_hex_string() {
    assert!(Sha1Hash::from_unvalidated_hex_string("asdfs").is_err());
    assert!(Sha1Hash::from_unvalidated_hex_string("0f46").is_err());

    const HASH: &str = "0f46983e0baf73ba9bf82a7317223d2eebc728d8";
    assert_eq!(
        &Sha1Hash::from_unvalidated_hex_string(HASH)
            .unwrap()
            .to_hex_string()
            .0[..],
        HASH.as_bytes()
    );
}

#[test]
fn oid_from_unvalidated_hex_string() {
    assert!(ObjectId::from_unvalidated_sh1_hex_string("asdfs").is_err());
    assert!(ObjectId::from_unvalidated_sh1_hex_string("0f46").is_err());

    const HASH: &str = "0f46983e0baf73ba9bf82a7317223d2eebc728d8";
    assert_eq!(
        &ObjectId::from_unvalidated_sh1_hex_string(HASH)
            .unwrap()
            .to_hex_string()
            .0[..],
        HASH.as_bytes()
    );
}

#[test]
fn hex_error_kinds() {
    // odd length or a non-hex byte: invalid hex
    assert!(matches!(
        ObjectId::from_unvalidated_sh1_hex_string("zz"),
        Err(SHA1ValidationError::InvalidHexString(_))
    ));
    // valid hex of the wrong length: not a digest
    assert!(matches!(
        ObjectId::from_unvalidated_sh1_hex_string("0f46"),
        Err(SHA1ValidationError::SHA1Error(_))
    ));
}

#[test]
fn hash_is_deterministic() {
    let a = Sha1Hash::from_data(b"some bytes");
    let b = Sha1Hash::from_data(b"some bytes");
    assert_eq!(a.0, b.0);
    let c = ObjectId::from_data(b"some bytes");
    assert_eq!(a.0, c.0);
}

#[test]
fn blob_vector_with_newline() {
    let blob = ObjectBuffer::new(ObjectType::Blob, b"hello world\n");
    let oid = ObjectId::from_object_buffer(&blob);
    assert_eq!(
        &oid.to_hex_string().0[..],
        b"3b18e512dba79e4c8300dd08aeb37f8e728b8dad"
    );
}

#[test]
fn blob_vector_without_newline() {
    let blob = ObjectBuffer::new(ObjectType::Blob, b"hello world");
    let oid = ObjectId::from_object_buffer(&blob);
    assert_eq!(
        &oid.to_hex_string().0[..],
        b"95d09f2b10159347eece71399a7e2e907ea3df4f"
    );
}

#[test]
fn hex_round_trip() {
    let oid = ObjectId::from_data(b"anything at all");
    let hex = oid.to_hex_string();
    let back = ObjectId::from_unvalidated_sh1_hex_string(std::str::from_utf8(&hex.0).unwrap())
        .unwrap();
    assert_eq!(oid.0, back.0);
}

#[test]
fn hex_string_from_str() {
    // one trailing whitespace byte is tolerated
    let s = "0f46983e0baf73ba9bf82a7317223d2eebc728d8\n";
    let h = Sha1HashHexString::from_str(s).unwrap();
    assert_eq!(&h.0[..], &s.as_bytes()[..40]);

    assert!(Sha1HashHexString::from_str("too short").is_err());
    assert!(Sha1HashHexString::from_u8_slice(b"0f46").is_err());
}

#[test]
fn hex_string_rejects_non_hex() {
    // 40 bytes, none of them hex digits: a validation error, never coerced
    let forty_z = [b'z'; 40];
    assert!(matches!(
        Sha1HashHexString::from_u8_slice(&forty_z),
        Err(SHA1ValidationError::InvalidHexString(_))
    ));
    let s = String::from_utf8(forty_z.to_vec()).unwrap();
    assert!(matches!(
        Sha1HashHexString::from_str(&s),
        Err(SHA1ValidationError::InvalidHexString(_))
    ));
    // the wrong length is the other failure, carrying the input
    assert!(matches!(
        Sha1HashHexString::from_u8_slice(b"0f46"),
        Err(SHA1ValidationError::SHA1Error(m)) if m == b"0f46".to_vec()
    ));
    // upper-case hex digits are accepted
    let upper = "0F46983E0BAF73BA9BF82A7317223D2EEBC728D8";
    let h = Sha1HashHexString::from_str(upper).unwrap();
    assert_eq!(&h.0[..], upper.as_bytes());
}
