//! A commit: a snapshot pointer — one tree, at most one parent (linear
//! history only), an author, a message — encoded as newline-delimited text.

use vstd::prelude::*;

verus! {

use vstd::string::StringSliceAdditionalSpecFns;
use vstd::utf8::encode_utf8;

use crate::hex::hex_bytes;
use crate::object::spec_object_buffer;
use crate::object::Object;
use crate::object::ObjectBuffer;
use crate::object::ObjectType;
use crate::oid::ObjectId;
use crate::parse_util::dec_bytes;

/// A timestamp with its timezone offset, held as plain values: seconds since
/// the epoch and the offset written as `±HHMM`.
#[derive(Debug, Clone, Copy, PartialEq, Eq, Structural)]
pub struct Timestamp {
    pub seconds: u64,
    pub tz_negative: bool,
    pub tz_hours: u8,
    pub tz_minutes: u8,
}

#[derive(Debug, Clone)]
pub struct Author {
    pub name: String,
    pub email: String,
    pub time: Timestamp,
}

/// Two zero-padded decimal digits.
pub open spec fn two_digits(n: u8) -> Seq<u8>
    recommends
        n < 100,
{
    seq![(48 + n / 10) as u8, (48 + n % 10) as u8]
}

/// The timestamp as written in an author line: seconds, a space, the signed
/// four-digit offset.
pub open spec fn timestamp_bytes(t: Timestamp) -> Seq<u8> {
    dec_bytes(t.seconds as nat) + seq![32u8] + seq![if t.tz_negative {
        45u8
    } else {
        43u8
    }] + two_digits(t.tz_hours) + two_digits(t.tz_minutes)
}

/// The mathematical shadow of an author.
pub struct AuthorModel {
    pub name: Seq<char>,
    pub email: Seq<char>,
    pub time: Timestamp,
}

impl View for Author {
    type V = AuthorModel;

    open spec fn view(&self) -> AuthorModel {
        AuthorModel { name: self.name@, email: self.email@, time: self.time }
    }
}

/// One author line's text: `{name} <{email}> {seconds} {offset}`.
pub open spec fn author_bytes(a: AuthorModel) -> Seq<u8> {
    encode_utf8(a.name) + seq![32u8, 60u8] + encode_utf8(a.email) + seq![62u8, 32u8]
        + timestamp_bytes(a.time)
}

/// In-memory representation of a commit object.
pub struct Commit {
    tree: ObjectId,
    parent_commit: Option<ObjectId>,
    author: Author,
    message: String,
}

/// The mathematical shadow of a commit.
pub struct CommitModel {
    pub tree: Seq<u8>,
    pub parent: Option<Seq<u8>>,
    pub author: AuthorModel,
    pub message: Seq<char>,
}

impl View for Commit {
    type V = CommitModel;

    closed spec fn view(&self) -> CommitModel {
        CommitModel {
            tree: self.tree.0@,
            parent: match self.parent_commit {
                Some(p) => Some(p.0@),
                None => None,
            },
            author: self.author@,
            message: self.message@,
        }
    }
}

/// The text body of a commit: the tree line, the optional parent line, the
/// author and identical committer lines, a blank line, the message, a final
/// newline.
pub open spec fn commit_content_bytes(c: CommitModel) -> Seq<u8> {
    seq![116u8, 114u8, 101u8, 101u8, 32u8] + hex_bytes(c.tree) + seq![10u8] + (match c.parent {
        None => Seq::<u8>::empty(),
        Some(p) => seq![112u8, 97u8, 114u8, 101u8, 110u8, 116u8, 32u8] + hex_bytes(p) + seq![10u8],
    }) + seq![97u8, 117u8, 116u8, 104u8, 111u8, 114u8, 32u8] + author_bytes(c.author) + seq![10u8]
        + seq![99u8, 111u8, 109u8, 109u8, 105u8, 116u8, 116u8, 101u8, 114u8, 32u8] + author_bytes(
        c.author,
    ) + seq![10u8] + seq![10u8] + encode_utf8(c.message) + seq![10u8]
}

impl Commit {
    pub fn new(tree: ObjectId, parent_commit: Option<ObjectId>, author: Author, message: String)
        -> (r: Self)
        ensures
            r@.tree == tree.0@,
            r@.parent == (match parent_commit {
                Some(p) => Some(p.0@),
                None => None::<Seq<u8>>,
            }),
            r@.author == author@,
            r@.message == message@,
    {
        Commit { tree, parent_commit, author, message }
    }
}

fn push_two_digits(out: &mut Vec<u8>, n: u8)
    ensures
        final(out)@ == old(out)@ + two_digits(n),
{
    out.push(48 + n / 10);
    out.push(48 + n % 10);
    assert(final(out)@ =~= old(out)@ + two_digits(n));
}

fn push_author(out: &mut Vec<u8>, a: &Author)
    ensures
        final(out)@ == old(out)@ + author_bytes(a@),
{
    out.extend_from_slice(a.name.as_str().as_bytes());
    out.push(32);
    out.push(60);
    out.extend_from_slice(a.email.as_str().as_bytes());
    out.push(62);
    out.push(32);
    crate::parse_util::push_dec_u64(out, a.time.seconds);
    out.push(32);
    if a.time.tz_negative {
        out.push(45);
    } else {
        out.push(43);
    }
    push_two_digits(out, a.time.tz_hours);
    push_two_digits(out, a.time.tz_minutes);
    assert(final(out)@ =~= old(out)@ + author_bytes(a@));
}

fn push_hex_oid(out: &mut Vec<u8>, oid: ObjectId)
    ensures
        final(out)@ == old(out)@ + hex_bytes(oid.0@),
{
    let hex = crate::hex::hex_encode_20(&oid.0);
    out.extend_from_slice(hex.as_slice());
}

impl Object for Commit {
    open spec fn buffer_bytes(&self) -> Seq<u8> {
        spec_object_buffer(ObjectType::Commit, commit_content_bytes(self@))
    }

    #[verifier::rlimit(100)]
    fn to_buffer(&self) -> (r: ObjectBuffer)
        ensures
            r@ == self.buffer_bytes(),
    {
        let mut content: Vec<u8> = Vec::new();
        content.push(116);
        content.push(114);
        content.push(101);
        content.push(101);
        content.push(32);
        push_hex_oid(&mut content, self.tree);
        content.push(10);
        match &self.parent_commit {
            Some(parent) => {
                content.push(112);
                content.push(97);
                content.push(114);
                content.push(101);
                content.push(110);
                content.push(116);
                content.push(32);
                push_hex_oid(&mut content, *parent);
                content.push(10);
            },
            None => {},
        }
        content.push(97);
        content.push(117);
        content.push(116);
        content.push(104);
        content.push(111);
        content.push(114);
        content.push(32);
        push_author(&mut content, &self.author);
        content.push(10);
        content.push(99);
        content.push(111);
        content.push(109);
        content.push(109);
        content.push(105);
        content.push(116);
        content.push(116);
        content.push(101);
        content.push(114);
        content.push(32);
        push_author(&mut content, &self.author);
        content.push(10);
        content.push(10);
        content.extend_from_slice(self.message.as_str().as_bytes());
        content.push(10);
        assert(content@ =~= commit_content_bytes(self@));
        ObjectBuffer::new(ObjectType::Commit, content.as_slice())
    }
}

} // verus!
