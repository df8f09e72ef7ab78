//! The lockfile protocol's pure parts: the `.lock` path beside a target and
//! the classification of a failed exclusive create. The file handle itself,
//! the exclusive create and the atomic rename are filesystem work and stay
//! with the caller.

use vstd::prelude::*;

verus! {

/// Why a lock could not be taken: the `.lock` file already exists —
/// contention, reported distinctly so callers abort rather than retry — or
/// some other I/O failure.
#[derive(Debug, Clone, Copy, PartialEq, Eq, Structural)]
pub enum LockfileErrorKind {
    LockTaken,
    Io,
}

#[derive(Debug)]
pub struct LockfileError {
    path: Vec<u8>,
    kind: LockfileErrorKind,
}

impl View for LockfileError {
    /// The lock path and the failure kind.
    type V = (Seq<u8>, LockfileErrorKind);

    closed spec fn view(&self) -> (Seq<u8>, LockfileErrorKind) {
        (self.path@, self.kind)
    }
}

impl LockfileError {
    /// Classify a failed exclusive create: an already-existing file means
    /// the lock is taken; anything else is plain I/O failure.
    pub fn from_io(already_exists: bool, path: Vec<u8>) -> (r: Self)
        ensures
            r@ == (path@, if already_exists {
                LockfileErrorKind::LockTaken
            } else {
                LockfileErrorKind::Io
            }),
    {
        let kind = if already_exists {
            LockfileErrorKind::LockTaken
        } else {
            LockfileErrorKind::Io
        };
        LockfileError { path, kind }
    }

    pub fn kind(&self) -> (r: LockfileErrorKind)
        ensures
            r == self@.1,
    {
        self.kind
    }

    pub fn path(&self) -> (r: &Vec<u8>)
        ensures
            r@ == self@.0,
    {
        &self.path
    }
}

/// The lock guarding a path lives beside it: the path with `.lock` appended.
pub fn lock_path_for(path: &[u8]) -> (r: Vec<u8>)
    ensures
        r@ == path@ + seq![46u8, 108u8, 111u8, 99u8, 107u8],
{
    let mut p = vstd::slice::slice_to_vec(path);
    p.push(46);
    p.push(108);
    p.push(111);
    p.push(99);
    p.push(107);
    assert(p@ =~= path@ + seq![46u8, 108u8, 111u8, 99u8, 107u8]);
    p
}

} // verus!
