//! The object model: the three record kinds and their canonical byte
//! encodings, built on the common `"<type> <length>\0"` header convention.

use vstd::prelude::*;

pub mod blob;
pub mod commit;
pub mod header;
pub mod tree;

pub use blob::Blob;
pub use commit::Author;
pub use commit::Commit;
pub use commit::Timestamp;
pub use header::parse_header;
pub use header::split_object;
pub use header::ObjectHeader;
pub use tree::read_tree_object;
pub use tree::Tree;
pub use tree::TreeEntry;

verus! {

use crate::parse_util::dec_bytes;
use crate::parse_util::ParseU64Error;

#[derive(Eq, PartialEq, Copy, Clone, Debug, Structural)]
pub enum ObjectType {
    Blob,
    Tree,
    Commit,
}

/// The ASCII name of an object type, as written in object headers.
pub open spec fn type_bytes(typ: ObjectType) -> Seq<u8> {
    match typ {
        ObjectType::Blob => seq![98u8, 108u8, 111u8, 98u8],
        ObjectType::Tree => seq![116u8, 114u8, 101u8, 101u8],
        ObjectType::Commit => seq![99u8, 111u8, 109u8, 109u8, 105u8, 116u8],
    }
}

pub open spec fn spec_parse_object_type(s: Seq<u8>) -> Option<ObjectType> {
    if s == type_bytes(ObjectType::Blob) {
        Some(ObjectType::Blob)
    } else if s == type_bytes(ObjectType::Tree) {
        Some(ObjectType::Tree)
    } else if s == type_bytes(ObjectType::Commit) {
        Some(ObjectType::Commit)
    } else {
        None
    }
}

impl ObjectType {
    /// Recognize a type token: exactly `blob`, `tree` or `commit`.
    pub fn parse(bytes: &[u8]) -> (r: Option<ObjectType>)
        ensures
            r == spec_parse_object_type(bytes@),
    {
        if bytes.len() == 4 && bytes[0] == 98 && bytes[1] == 108 && bytes[2] == 111 && bytes[3]
            == 98 {
            assert(bytes@ =~= type_bytes(ObjectType::Blob));
            Some(ObjectType::Blob)
        } else if bytes.len() == 4 && bytes[0] == 116 && bytes[1] == 114 && bytes[2] == 101
            && bytes[3] == 101 {
            assert(bytes@ =~= type_bytes(ObjectType::Tree));
            Some(ObjectType::Tree)
        } else if bytes.len() == 6 && bytes[0] == 99 && bytes[1] == 111 && bytes[2] == 109
            && bytes[3] == 109 && bytes[4] == 105 && bytes[5] == 116 {
            assert(bytes@ =~= type_bytes(ObjectType::Commit));
            Some(ObjectType::Commit)
        } else {
            proof {
                if bytes@ == type_bytes(ObjectType::Blob) {
                    assert(bytes@.len() == 4 && bytes@[0] == 98 && bytes@[1] == 108 && bytes@[2]
                        == 111 && bytes@[3] == 98);
                }
                if bytes@ == type_bytes(ObjectType::Tree) {
                    assert(bytes@.len() == 4 && bytes@[0] == 116 && bytes@[1] == 114 && bytes@[2]
                        == 101 && bytes@[3] == 101);
                }
                if bytes@ == type_bytes(ObjectType::Commit) {
                    assert(bytes@.len() == 6 && bytes@[0] == 99 && bytes@[1] == 111 && bytes@[2]
                        == 109 && bytes@[3] == 109 && bytes@[4] == 105 && bytes@[5] == 116);
                }
            }
            None
        }
    }
}

/// Errors while decoding an object read back from the store.
#[derive(Debug, Clone, Copy, PartialEq, Eq, Structural)]
pub enum ObjectReadError {
    /// Expected the first object type, found the second.
    MismatchObjectType(ObjectType, ObjectType),
    /// The object bytes miss a `\0` separator between header and content.
    HeaderReadError,
    /// The object bytes miss a space separator where one is due.
    MissingSpaceSeparator,
    UnknownObjectType,
    /// A decimal or octal numeral in the object could not be parsed.
    ParseNumError(ParseU64Error),
    /// The object's content ended before an entry was complete.
    ContentReadError,
}

/// An object that has a canonical buffer encoding.
pub trait Object {
    /// The encoded bytes this object serializes to.
    spec fn buffer_bytes(&self) -> Seq<u8>;

    /// Convert the object to an in-memory buffer.
    fn to_buffer(&self) -> (r: ObjectBuffer)
        ensures
            r@ == self.buffer_bytes(),
    ;
}

/// In-memory byte representation of an encoded object:
/// `"<type> <byte-length>\0"` followed by the content.
pub struct ObjectBuffer {
    data: Vec<u8>,
}

impl View for ObjectBuffer {
    type V = Seq<u8>;

    closed spec fn view(&self) -> Seq<u8> {
        self.data@
    }
}

/// The canonical encoding: ASCII type name, a space, the decimal content
/// length, a NUL byte, then the content itself.
pub open spec fn spec_object_buffer(typ: ObjectType, content: Seq<u8>) -> Seq<u8> {
    type_bytes(typ) + seq![32u8] + dec_bytes(content.len()) + seq![0u8] + content
}

pub(crate) fn push_type_bytes(out: &mut Vec<u8>, typ: ObjectType)
    ensures
        final(out)@ == old(out)@ + type_bytes(typ),
{
    match typ {
        ObjectType::Blob => {
            out.push(98);
            out.push(108);
            out.push(111);
            out.push(98);
        },
        ObjectType::Tree => {
            out.push(116);
            out.push(114);
            out.push(101);
            out.push(101);
        },
        ObjectType::Commit => {
            out.push(99);
            out.push(111);
            out.push(109);
            out.push(109);
            out.push(105);
            out.push(116);
        },
    }
    assert(final(out)@ =~= old(out)@ + type_bytes(typ));
}

impl ObjectBuffer {
    /// Given the type of object and the content bytes, build the encoded
    /// object buffer.
    pub fn new(typ: ObjectType, content: &[u8]) -> (r: Self)
        ensures
            r@ == spec_object_buffer(typ, content@),
    {
        let mut data: Vec<u8> = Vec::new();
        push_type_bytes(&mut data, typ);
        data.push(32);
        crate::parse_util::push_dec(&mut data, content.len());
        data.push(0);
        data.extend_from_slice(content);
        assert(data@ =~= spec_object_buffer(typ, content@));
        ObjectBuffer { data }
    }

    pub fn data(&self) -> (r: &[u8])
        ensures
            r@ == self@,
    {
        self.data.as_slice()
    }
}

} // verus!
