//! The repository handle: the directories a repository lives in, and the
//! store-write computations on top of the object database.

use vstd::prelude::*;

verus! {

use crate::database::spec_object_path;
use crate::database::zlib_deflate;
use crate::database::Database;
use crate::digest::sha1_of;
use crate::hash::Sha1Hash;
use crate::object::Object;
use crate::object::ObjectBuffer;
use crate::oid::ObjectId;

/// Abstraction for a repository: its working directory and its `.git`
/// directory, both as byte paths.
pub struct Repository {
    pub repository_dir: Vec<u8>,
    pub git_dir: Vec<u8>,
    pub database: Database,
}

#[derive(Copy, Clone, Debug)]
pub enum RepositorySearchError {
    /// Not a git repository (nor any of the parent directories).
    NotARepository,
}

/// Everything one object-store write needs from the logic: the fan-out path
/// and the compressed bytes. The caller skips the write when the path
/// already exists, which keeps writes idempotent, and otherwise creates the
/// parent directory and lays the bytes down.
pub struct StoreWrite {
    pub path: Vec<u8>,
    pub bytes: Vec<u8>,
}

impl Repository {
    /// Open an existing repository from its two directories.
    pub fn open(repository_dir: Vec<u8>, git_dir: Vec<u8>) -> (r: Repository)
        ensures
            r.repository_dir@ == repository_dir@,
            r.git_dir@ == git_dir@,
            r.database@ == git_dir@ + crate::database::objects_suffix(),
    {
        let database = Database::open(git_dir.as_slice());
        Repository { repository_dir, git_dir, database }
    }

    /// The store write for an already encoded object: the path derived from
    /// the id, the buffer compressed.
    pub fn write_object_buffer(&self, oid: ObjectId, object_buffer: &ObjectBuffer) -> (w:
        StoreWrite)
        ensures
            w.path@ == spec_object_path(self.database@, oid.0@),
            w.bytes@ == zlib_deflate(object_buffer@),
    {
        let path = self.database.object_path_from_oid(oid);
        let bytes = crate::database::zlib_compress(object_buffer.data());
        StoreWrite { path, bytes }
    }

    /// Encode an object, derive its id by hashing the buffer, and compute
    /// its store write.
    pub fn write_object<T: Object>(&self, object: &T) -> (r: (ObjectId, StoreWrite))
        ensures
            r.0.0@ == sha1_of(object.buffer_bytes()),
            r.1.path@ == spec_object_path(self.database@, r.0.0@),
            r.1.bytes@ == zlib_deflate(object.buffer_bytes()),
    {
        let buffer = object.to_buffer();
        let oid = ObjectId::from_object_buffer(&buffer);
        let w = self.write_object_buffer(oid, &buffer);
        (oid, w)
    }

    /// The fan-out path of a raw digest: pure computation, no filesystem.
    pub fn object_path_from_hash(&self, object_hash: Sha1Hash) -> (r: Vec<u8>)
        ensures
            r@ == spec_object_path(self.database@, object_hash.0@),
    {
        self.database.object_path_from_oid(ObjectId(object_hash.0))
    }
}

} // verus!
