//! The object database under `objects/`: deterministic fan-out paths and the
//! compressed bytes a store write persists. The filesystem half of a write —
//! skip when the file exists, create the fan-out directory, write the bytes —
//! stays with the caller; the store's idempotence rests on the path and bytes
//! alone.

use std::io::Read;
use vstd::prelude::*;

verus! {

use crate::hex::hex_bytes;
use crate::oid::ObjectId;

/// The zlib (deflate) compression of a byte sequence at the default level.
/// Its value is fixed by the `flate2` crate and depends on the input alone.
pub uninterp spec fn zlib_deflate(data: Seq<u8>) -> Seq<u8>;

/// The zlib decompression of a byte sequence: `None` on a malformed stream.
/// Its value is fixed by the algorithm and depends on the input alone.
pub uninterp spec fn zlib_inflate(data: Seq<u8>) -> Option<Seq<u8>>;

/// Relies on `flate2::read::ZlibEncoder` over an in-memory slice at
/// `Compression::default()`: reading it to the end yields the complete
/// compressed stream, a function of the input bytes alone, and zlib is
/// lossless — decompressing the stream gives the input back. Reading from a
/// slice into a vector cannot fail.
#[verifier::external_body]
pub(crate) fn zlib_compress(data: &[u8]) -> (r: Vec<u8>)
    ensures
        r@ == zlib_deflate(data@),
        zlib_inflate(r@) == Some(data@),
{
    let mut encoder = flate2::read::ZlibEncoder::new(data, flate2::Compression::default());
    let mut output = Vec::new();
    encoder.read_to_end(&mut output).expect("reading compressed bytes from memory cannot fail");
    output
}

/// Relies on `flate2::read::ZlibDecoder` over an in-memory slice: reading it
/// to the end yields the full decompressed stream, a function of the input
/// bytes alone; a malformed stream reports an error instead.
#[verifier::external_body]
fn zlib_decompress(data: &[u8]) -> (r: Option<Vec<u8>>)
    ensures
        match r {
            Some(v) => zlib_inflate(data@) == Some(v@),
            None => zlib_inflate(data@) is None,
        },
{
    let mut decoder = flate2::read::ZlibDecoder::new(data);
    let mut output = Vec::new();
    match decoder.read_to_end(&mut output) {
        Ok(_) => Some(output),
        Err(_) => None,
    }
}

/// Decode the compressed bytes of a stored object back into the full object
/// buffer; a stream that does not inflate surfaces as the header read
/// failing, as it would for a reader over the store.
pub fn inflate_object(compressed: &[u8]) -> (r: Result<
    Vec<u8>,
    crate::object::ObjectReadError,
>)
    ensures
        match zlib_inflate(compressed@) {
            Some(d) => r matches Ok(v) && v@ == d,
            None => r == Err::<Vec<u8>, _>(crate::object::ObjectReadError::HeaderReadError),
        },
{
    match zlib_decompress(compressed) {
        Some(v) => Ok(v),
        None => Err(crate::object::ObjectReadError::HeaderReadError),
    }
}

/// A failed store write: the offending path and what the filesystem said.
#[derive(Debug)]
pub struct DatabaseWriteError {
    path: Vec<u8>,
    message: String,
}

impl View for DatabaseWriteError {
    /// The offending path and the message, as one pair.
    type V = (Seq<u8>, Seq<char>);

    closed spec fn view(&self) -> (Seq<u8>, Seq<char>) {
        (self.path@, self.message@)
    }
}

impl DatabaseWriteError {
    pub fn new(path: Vec<u8>, message: String) -> (r: Self)
        ensures
            r@ == (path@, message@),
    {
        DatabaseWriteError { path, message }
    }

    pub fn path(&self) -> (r: &Vec<u8>)
        ensures
            r@ == self@.0,
    {
        &self.path
    }
}

/// The object database root: `<git-dir>/objects`.
pub struct Database {
    objects_dir: Vec<u8>,
}

impl View for Database {
    type V = Seq<u8>;

    closed spec fn view(&self) -> Seq<u8> {
        self.objects_dir@
    }
}

/// `"/objects"` as bytes.
pub open spec fn objects_suffix() -> Seq<u8> {
    seq![47u8, 111u8, 98u8, 106u8, 101u8, 99u8, 116u8, 115u8]
}

/// The two-level fan-out path of an object: the store root, the first two
/// hex digits of the id as a directory, the remaining 38 as the file name.
pub open spec fn spec_object_path(objects_dir: Seq<u8>, digest: Seq<u8>) -> Seq<u8> {
    objects_dir + seq![47u8] + hex_bytes(digest).take(2) + seq![47u8] + hex_bytes(digest).skip(2)
}

impl Database {
    pub fn open(git_dir: &[u8]) -> (r: Self)
        ensures
            r@ == git_dir@ + objects_suffix(),
    {
        let mut objects_dir = vstd::slice::slice_to_vec(git_dir);
        objects_dir.push(47);
        objects_dir.push(111);
        objects_dir.push(98);
        objects_dir.push(106);
        objects_dir.push(101);
        objects_dir.push(99);
        objects_dir.push(116);
        objects_dir.push(115);
        assert(objects_dir@ =~= git_dir@ + objects_suffix());
        Database { objects_dir }
    }

    /// The on-disk path of an object: pure computation, no filesystem.
    pub fn object_path_from_oid(&self, oid: ObjectId) -> (r: Vec<u8>)
        ensures
            r@ == spec_object_path(self@, oid.0@),
    {
        let hex = crate::hex::hex_encode_20(&oid.0);
        let mut path = vstd::slice::slice_to_vec(self.objects_dir.as_slice());
        path.push(47);
        path.push(hex[0]);
        path.push(hex[1]);
        path.push(47);
        let mut i: usize = 2;
        while i < 40
            invariant
                2 <= i <= 40,
                hex@ == hex_bytes(oid.0@),
                path@ == self@ + seq![47u8] + hex_bytes(oid.0@).take(2) + seq![47u8] + hex_bytes(
                    oid.0@,
                ).subrange(2, i as int),
            decreases 40 - i,
        {
            path.push(hex[i]);
            assert(path@ =~= self@ + seq![47u8] + hex_bytes(oid.0@).take(2) + seq![47u8]
                + hex_bytes(oid.0@).subrange(2, i as int + 1));
            i += 1;
        }
        assert(path@ =~= spec_object_path(self@, oid.0@));
        path
    }
}

/// Law: a store write is a function of the object alone — the same id and
/// buffer give the same target path and the same on-disk bytes, so writing a
/// pair twice lays down identical bytes.
pub proof fn lemma_store_write_deterministic(
    dir: Seq<u8>,
    oid1: ObjectId,
    buf1: Seq<u8>,
    oid2: ObjectId,
    buf2: Seq<u8>,
)
    requires
        oid1 == oid2,
        buf1 == buf2,
    ensures
        spec_object_path(dir, oid1.0@) == spec_object_path(dir, oid2.0@),
        zlib_deflate(buf1) == zlib_deflate(buf2),
{
}

} // verus!
