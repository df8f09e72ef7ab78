//! Porcelain-level write helpers built on the object store computations.

use vstd::prelude::*;

verus! {

use crate::database::spec_object_path;
use crate::database::zlib_deflate;
use crate::digest::sha1_of;
use crate::object::commit::commit_content_bytes;
use crate::object::commit::AuthorModel;
use crate::object::commit::CommitModel;
use crate::object::spec_object_buffer;
use crate::object::Author;
use crate::object::Commit;
use crate::object::ObjectType;
use crate::oid::ObjectId;
use crate::repository::Repository;
use crate::repository::StoreWrite;

pub struct CommitTreeArgs {
    pub parent_commit_sha: Option<ObjectId>,
    pub message: String,
    pub tree_sha: ObjectId,
}

/// The commit a `commit-tree` produces over the given arguments and author.
pub open spec fn spec_commit_tree_model(
    tree: Seq<u8>,
    parent: Option<Seq<u8>>,
    author: AuthorModel,
    message: Seq<char>,
) -> Seq<u8> {
    spec_object_buffer(
        ObjectType::Commit,
        commit_content_bytes(CommitModel { tree, parent, author, message }),
    )
}

/// Build the commit object for a tree and compute its store write; the
/// author is threaded in explicitly rather than read from ambient state.
/// Returns the commit's id beside the write.
pub fn commit_tree(repository: &Repository, args: CommitTreeArgs, author: Author) -> (r: (
    ObjectId,
    StoreWrite,
))
    ensures
        ({
            let buffer = spec_commit_tree_model(
                args.tree_sha.0@,
                match args.parent_commit_sha {
                    Some(p) => Some(p.0@),
                    None => None::<Seq<u8>>,
                },
                author@,
                args.message@,
            );
            &&& r.0.0@ == sha1_of(buffer)
            &&& r.1.path@ == spec_object_path(repository.database@, r.0.0@)
            &&& r.1.bytes@ == zlib_deflate(buffer)
        }),
{
    let ghost gtree = args.tree_sha.0@;
    let ghost gparent = match args.parent_commit_sha {
        Some(p) => Some(p.0@),
        None => None::<Seq<u8>>,
    };
    let ghost gauthor = author@;
    let ghost gmessage = args.message@;
    let commit = Commit::new(args.tree_sha, args.parent_commit_sha, author, args.message);
    proof {
        assert(commit@ == CommitModel {
            tree: gtree,
            parent: gparent,
            author: gauthor,
            message: gmessage,
        });
    }
    repository.write_object(&commit)
}

} // verus!
