//! The common object header `"<type> <decimal length>\0"` and its parser.

use vstd::prelude::*;

verus! {

use crate::object::spec_object_buffer;
use crate::object::spec_parse_object_type;
use crate::object::type_bytes;
use crate::object::ObjectReadError;
use crate::object::ObjectType;
use crate::parse_util::dec_bytes;
use crate::parse_util::lemma_dec_bytes_digits;
use crate::parse_util::lemma_parse_dec_round_trip;
use crate::parse_util::spec_parse_usize;
use crate::utils::first_index_of;
use crate::utils::lemma_first_index_of_is;

#[derive(Debug, Copy, Clone, PartialEq, Eq, Structural)]
pub struct ObjectHeader {
    pub typ: ObjectType,
    pub size: usize,
}

/// Parsing a header buffer that runs up to and including the NUL terminator:
/// the final byte is dropped, the rest splits at its first space into a type
/// token and a decimal content length.
pub open spec fn spec_parse_header(buffer: Seq<u8>) -> Result<ObjectHeader, ObjectReadError>
    recommends
        buffer.len() > 0,
{
    let body = buffer.drop_last();
    match first_index_of(body, 32u8) {
        None => Err(ObjectReadError::MissingSpaceSeparator),
        Some(sep) => {
            let typ_b = body.take(sep);
            let size_b = body.skip(sep + 1);
            match spec_parse_object_type(typ_b) {
                None => Err(ObjectReadError::UnknownObjectType),
                Some(t) => match spec_parse_usize(size_b) {
                    Err(e) => Err(ObjectReadError::ParseNumError(e)),
                    Ok(sz) => Ok(ObjectHeader { typ: t, size: sz }),
                },
            }
        },
    }
}

/// Parse an object header from the bytes read up to and including the first
/// NUL: an unknown type token or a missing space separator is a parse error,
/// and so is a non-digit in the length.
pub fn parse_header(buffer: &[u8]) -> (r: Result<ObjectHeader, ObjectReadError>)
    requires
        buffer@.len() > 0,
    ensures
        r == spec_parse_header(buffer@),
{
    let body = crate::utils::remove_last(buffer);
    assert(body@ =~= buffer@.drop_last());
    match crate::utils::find_byte(body, 32) {
        None => Err(ObjectReadError::MissingSpaceSeparator),
        Some(sep) => {
            proof {
                crate::utils::lemma_first_index_of(body@, 32u8);
            }
            let blen = body.len();
            assert(sep < blen);
            let typ_b = vstd::slice::slice_subrange(body, 0, sep);
            let size_b = vstd::slice::slice_subrange(body, sep + 1, blen);
            assert(typ_b@ =~= body@.take(sep as int));
            assert(size_b@ =~= body@.skip(sep as int + 1));
            match ObjectType::parse(typ_b) {
                None => Err(ObjectReadError::UnknownObjectType),
                Some(t) => match crate::parse_util::parse_usize(size_b) {
                    Err(e) => Err(ObjectReadError::ParseNumError(e)),
                    Ok(sz) => Ok(ObjectHeader { typ: t, size: sz }),
                },
            }
        },
    }
}

/// The length of the header inside an encoded object buffer, terminating NUL
/// included.
pub open spec fn spec_header_len(typ: ObjectType, content: Seq<u8>) -> int {
    (type_bytes(typ).len() + 1 + dec_bytes(content.len()).len() + 1) as int
}

/// Law: inside an encoded object buffer, the first NUL ends the header, the
/// header parses back to the type and content length it was built from, and
/// the bytes after it are exactly the content.
pub proof fn lemma_parse_header_round_trip(typ: ObjectType, content: Seq<u8>)
    requires
        content.len() <= usize::MAX,
    ensures
        ({
            let buf = spec_object_buffer(typ, content);
            let hl = spec_header_len(typ, content);
            &&& buf.len() == hl + content.len()
            &&& first_index_of(buf, 0u8) == Some(hl - 1)
            &&& spec_parse_header(buf.take(hl)) == Ok::<ObjectHeader, ObjectReadError>(
                ObjectHeader { typ, size: content.len() as usize },
            )
            &&& buf.skip(hl) == content
        }),
{
    let buf = spec_object_buffer(typ, content);
    let tl = type_bytes(typ).len() as int;
    let dl = dec_bytes(content.len()).len() as int;
    let hl = spec_header_len(typ, content);
    lemma_dec_bytes_digits(content.len());

    // no NUL before the terminator
    assert forall|j: int| 0 <= j < hl - 1 implies buf[j] != 0u8 by {
        if j < tl {
            assert(buf[j] == type_bytes(typ)[j]);
        } else if j == tl {
            assert(buf[j] == 32u8);
        } else {
            assert(buf[j] == dec_bytes(content.len())[j - tl - 1]);
        }
    }
    assert(buf[hl - 1] == 0u8);
    lemma_first_index_of_is(buf, 0u8, hl - 1);

    let header = buf.take(hl);
    let body = header.drop_last();
    assert(body =~= type_bytes(typ) + seq![32u8] + dec_bytes(content.len()));

    // first space sits right after the type name
    assert forall|j: int| 0 <= j < tl implies body[j] != 32u8 by {
        assert(body[j] == type_bytes(typ)[j]);
    }
    assert(body[tl] == 32u8);
    lemma_first_index_of_is(body, 32u8, tl);

    assert(body.take(tl) =~= type_bytes(typ));
    assert(body.skip(tl + 1) =~= dec_bytes(content.len()));

    // the type token parses back to the type it names
    assert(spec_parse_object_type(type_bytes(typ)) == Some(typ)) by {
        match typ {
            ObjectType::Blob => {},
            ObjectType::Tree => {
                assert(type_bytes(ObjectType::Tree)[0] != type_bytes(ObjectType::Blob)[0]);
            },
            ObjectType::Commit => {
                assert(type_bytes(ObjectType::Commit).len() != type_bytes(
                    ObjectType::Blob,
                ).len());
                assert(type_bytes(ObjectType::Commit).len() != type_bytes(
                    ObjectType::Tree,
                ).len());
            },
        }
    }
    lemma_parse_dec_round_trip(content.len() as usize);
    assert(dec_bytes(content.len() as usize as nat) == dec_bytes(content.len()));

    assert(buf.skip(hl) =~= content);
}

} // verus!

verus! {

/// Splitting a full object buffer at its first NUL into header and content;
/// with no NUL the whole buffer is read as the header, as a reader at
/// end-of-input would.
pub open spec fn spec_split_object(data: Seq<u8>) -> Result<
    (ObjectHeader, Seq<u8>),
    ObjectReadError,
> {
    if data.len() == 0 {
        Err(ObjectReadError::MissingSpaceSeparator)
    } else {
        let header_buf = match first_index_of(data, 0u8) {
            Some(p) => data.take(p + 1),
            None => data,
        };
        let content = match first_index_of(data, 0u8) {
            Some(p) => data.skip(p + 1),
            None => Seq::<u8>::empty(),
        };
        match spec_parse_header(header_buf) {
            Err(e) => Err(e),
            Ok(h) => Ok((h, content)),
        }
    }
}

/// Split decoded object bytes at the header NUL and parse the header.
pub fn split_object(data: &[u8]) -> (r: Result<(ObjectHeader, Vec<u8>), ObjectReadError>)
    ensures
        match spec_split_object(data@) {
            Ok(hc) => r matches Ok(p) && p.0 == hc.0 && p.1@ == hc.1,
            Err(e) => r == Err::<(ObjectHeader, Vec<u8>), _>(e),
        },
{
    if data.len() == 0 {
        return Err(ObjectReadError::MissingSpaceSeparator);
    }
    let (header_buf, content) = match crate::utils::find_byte(data, 0) {
        Some(p) => {
            proof {
                crate::utils::lemma_first_index_of(data@, 0u8);
            }
            let h = vstd::slice::slice_subrange(data, 0, p + 1);
            let c = vstd::slice::slice_subrange(data, p + 1, data.len());
            assert(h@ =~= data@.take(p as int + 1));
            assert(c@ =~= data@.skip(p as int + 1));
            (h, c)
        },
        None => {
            let c = vstd::slice::slice_subrange(data, data.len(), data.len());
            assert(c@ =~= Seq::<u8>::empty());
            (data, c)
        },
    };
    match parse_header(header_buf) {
        Err(e) => Err(e),
        Ok(h) => Ok((h, vstd::slice::slice_to_vec(content))),
    }
}

} // verus!
