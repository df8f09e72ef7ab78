//! References: named, possibly indirect pointers to object ids, resolved
//! against a snapshot of the repository's ref files.

use vstd::prelude::*;

verus! {

use crate::hex::hex_decoded;
use crate::oid::is_oid_hex;
use crate::oid::HexIdIssue;
use crate::oid::ObjectId;
use crate::oid::SHA1ValidationError;
use crate::utils::bytes_eq;
use crate::utils::spec_trim;

/// A ref: a variable that holds a single object identifier.
#[derive(Debug, Clone, PartialEq, Eq)]
pub enum Ref {
    /// A peeled reference holds an object id directly.
    Peeled(ObjectId),
    /// A symbolic reference holds a fully-qualified ref name.
    Symbolic(Vec<u8>),
}

/// The mathematical shadow of a `Ref`.
pub enum RefModel {
    Peeled(Seq<u8>),
    Symbolic(Seq<u8>),
}

impl View for Ref {
    type V = RefModel;

    open spec fn view(&self) -> RefModel {
        match self {
            Ref::Peeled(oid) => RefModel::Peeled(oid.0@),
            Ref::Symbolic(name) => RefModel::Symbolic(name@),
        }
    }
}

#[derive(Debug)]
pub enum ReferenceError {
    /// The named ref has no backing file: expected in a fresh repository,
    /// where callers treat it as "no parent commit".
    NotExist(Vec<u8>),
    /// A filesystem failure, attached by the caller that read the files.
    IOError(String),
    /// Ref content that does not parse as a 40-digit hex id.
    SHA1Error(SHA1ValidationError),
}

/// A snapshot of the ref store: ref names paired with their file contents,
/// as read from under the repository's git directory.
pub struct RefTable {
    pub entries: Vec<(Vec<u8>, Vec<u8>)>,
}

impl View for RefTable {
    type V = Seq<(Vec<u8>, Vec<u8>)>;

    open spec fn view(&self) -> Seq<(Vec<u8>, Vec<u8>)> {
        self.entries@
    }
}

/// The content of the first entry under a name, if any.
pub open spec fn ref_lookup(t: Seq<(Vec<u8>, Vec<u8>)>, name: Seq<u8>) -> Option<Seq<u8>>
    decreases t.len(),
{
    if t.len() == 0 {
        None
    } else if t[0].0@ == name {
        Some(t[0].1@)
    } else {
        ref_lookup(t.drop_first(), name)
    }
}

proof fn lemma_ref_lookup_at(t: Seq<(Vec<u8>, Vec<u8>)>, name: Seq<u8>, i: int)
    requires
        0 <= i < t.len(),
        t[i].0@ == name,
        forall|j: int| 0 <= j < i ==> (#[trigger] t[j].0)@ != name,
    ensures
        ref_lookup(t, name) == Some(t[i].1@),
    decreases i,
{
    if i > 0 {
        assert(forall|j: int| 0 <= j < t.len() - 1 ==> t.drop_first()[j] == t[j + 1]);
        lemma_ref_lookup_at(t.drop_first(), name, i - 1);
    }
}

proof fn lemma_ref_lookup_none(t: Seq<(Vec<u8>, Vec<u8>)>, name: Seq<u8>)
    requires
        forall|j: int| 0 <= j < t.len() ==> (#[trigger] t[j].0)@ != name,
    ensures
        ref_lookup(t, name) == None::<Seq<u8>>,
    decreases t.len(),
{
    if t.len() > 0 {
        assert(forall|j: int| 0 <= j < t.len() - 1 ==> t.drop_first()[j] == t[j + 1]);
        lemma_ref_lookup_none(t.drop_first(), name);
    }
}

impl RefTable {
    /// Find the content stored under a name.
    pub fn lookup(&self, name: &[u8]) -> (r: Option<&Vec<u8>>)
        ensures
            match r {
                Some(c) => ref_lookup(self@, name@) == Some(c@),
                None => ref_lookup(self@, name@) is None,
            },
    {
        let mut i: usize = 0;
        while i < self.entries.len()
            invariant
                0 <= i <= self.entries@.len(),
                forall|j: int| 0 <= j < i ==> (#[trigger] self.entries@[j].0)@ != name@,
            decreases self.entries@.len() - i,
        {
            let pair = &self.entries[i];
            if bytes_eq(pair.0.as_slice(), name) {
                proof {
                    lemma_ref_lookup_at(self@, name@, i as int);
                }
                return Some(&pair.1);
            }
            i += 1;
        }
        proof {
            lemma_ref_lookup_none(self@, name@);
        }
        None
    }
}

/// The marker that makes a ref symbolic: `"ref: "`.
pub open spec fn ref_marker() -> Seq<u8> {
    seq![114u8, 101u8, 102u8, 58u8, 32u8]
}

pub open spec fn starts_with_ref_marker(content: Seq<u8>) -> bool {
    content.len() >= 5 && content.take(5) == ref_marker()
}

/// Parsing ref file content: the marker makes it symbolic, naming the
/// trimmed remainder; anything else must be a 40-digit hex id, trimmed.
/// `None` stands for malformed hex.
pub open spec fn spec_parse_ref(content: Seq<u8>) -> Option<RefModel> {
    if starts_with_ref_marker(content) {
        Some(RefModel::Symbolic(spec_trim(content.skip(5))))
    } else {
        let h = spec_trim(content);
        if is_oid_hex(h) {
            Some(RefModel::Peeled(hex_decoded(h)))
        } else {
            None
        }
    }
}

/// Parse the content of one ref file.
pub fn parse_ref_content(content: &[u8]) -> (r: Result<Ref, SHA1ValidationError>)
    ensures
        match spec_parse_ref(content@) {
            Some(m) => r matches Ok(rf) && rf@ == m,
            None => r is Err,
        },
        ({
            // which validation failure, carrying the offending trimmed bytes
            let h = spec_trim(content@);
            &&& (!starts_with_ref_marker(content@) && (h.len() % 2 != 0
                || !crate::hex::all_hex_digits(h))) ==> (r matches Err(e)
                && e matches SHA1ValidationError::InvalidHexString(m) && m@ == h)
            &&& (!starts_with_ref_marker(content@) && h.len() % 2 == 0
                && crate::hex::all_hex_digits(h) && h.len() != 40) ==> (r matches Err(e)
                && e matches SHA1ValidationError::SHA1Error(m) && m@ == h)
        }),
{
    if content.len() >= 5 && content[0] == 114 && content[1] == 101 && content[2] == 102
        && content[3] == 58 && content[4] == 32 {
        assert(content@.take(5) =~= ref_marker());
        let rest = vstd::slice::slice_subrange(content, 5, content.len());
        assert(rest@ =~= content@.skip(5));
        let name = vstd::slice::slice_to_vec(crate::utils::trim_ascii(rest));
        Ok(Ref::Symbolic(name))
    } else {
        proof {
            if starts_with_ref_marker(content@) {
                assert(content@[0] == content@.take(5)[0]);
                assert(content@[1] == content@.take(5)[1]);
                assert(content@[2] == content@.take(5)[2]);
                assert(content@[3] == content@.take(5)[3]);
                assert(content@[4] == content@.take(5)[4]);
            }
        }
        let h = crate::utils::trim_ascii(content);
        match crate::oid::oid_from_hex_bytes(h) {
            Ok(oid) => Ok(Ref::Peeled(oid)),
            Err(HexIdIssue::NotHex) => Err(
                SHA1ValidationError::InvalidHexString(vstd::slice::slice_to_vec(h)),
            ),
            Err(HexIdIssue::WrongLength) => Err(
                SHA1ValidationError::SHA1Error(vstd::slice::slice_to_vec(h)),
            ),
        }
    }
}

/// What peeling resolves to, stepping through the snapshot with bounded
/// fuel: the chain ends at an id, runs into a missing name, or hits content
/// that does not parse. Exhausted fuel — a cycle longer than the table —
/// counts as missing, a case the design leaves unspecified.
pub enum SpecPeel {
    Done(Seq<u8>),
    NotExist(Seq<u8>),
    Invalid,
}

pub open spec fn spec_peel(t: Seq<(Vec<u8>, Vec<u8>)>, r: RefModel, fuel: nat) -> SpecPeel
    decreases fuel,
{
    match r {
        RefModel::Peeled(d) => SpecPeel::Done(d),
        RefModel::Symbolic(name) => {
            if fuel == 0 {
                SpecPeel::NotExist(name)
            } else {
                match ref_lookup(t, name) {
                    None => SpecPeel::NotExist(name),
                    Some(content) => match spec_parse_ref(content) {
                        None => SpecPeel::Invalid,
                        Some(inner) => spec_peel(t, inner, (fuel - 1) as nat),
                    },
                }
            }
        },
    }
}

use crate::repository::Repository;

impl Repository {
    /// Find the reference stored under a name in the snapshot; absent file
    /// means `None`, content is parsed as symbolic or peeled.
    pub fn try_find_reference(&self, refs: &RefTable, name: &[u8]) -> (r: Result<
        Option<Ref>,
        ReferenceError,
    >)
        ensures
            match ref_lookup(refs@, name@) {
                None => r matches Ok(o) && o is None,
                Some(content) => match spec_parse_ref(content) {
                    Some(m) => r matches Ok(o) && o matches Some(rf) && rf@ == m,
                    None => r matches Err(e) && e matches ReferenceError::SHA1Error(_),
                },
            },
    {
        match refs.lookup(name) {
            None => Ok(None),
            Some(content) => match parse_ref_content(content.as_slice()) {
                Ok(rf) => Ok(Some(rf)),
                Err(e) => Err(ReferenceError::SHA1Error(e)),
            },
        }
    }

    /// Follow a reference through the snapshot until an id: a missing name
    /// surfaces "does not exist" — in a fresh repository the normal state —
    /// and a chain longer than the table (a cycle) does too, rather than
    /// looping.
    #[verifier::loop_isolation(false)]
    pub fn peel_reference(&self, refs: &RefTable, reference: &Ref) -> (r: Result<
        ObjectId,
        ReferenceError,
    >)
        requires
            refs@.len() < usize::MAX,
        ensures
            match spec_peel(refs@, reference@, refs@.len() + 1) {
                SpecPeel::Done(d) => r matches Ok(oid) && oid.0@ == d,
                SpecPeel::NotExist(n) => r matches Err(e) && e matches ReferenceError::NotExist(m)
                    && m@ == n,
                SpecPeel::Invalid => r matches Err(e) && e matches ReferenceError::SHA1Error(_),
            },
    {
        let ghost target = spec_peel(refs@, reference@, refs@.len() + 1);
        let mut current_name: Vec<u8>;
        match reference {
            Ref::Peeled(oid) => {
                return Ok(*oid);
            },
            Ref::Symbolic(name) => {
                current_name = vstd::slice::slice_to_vec(name.as_slice());
            },
        }
        let mut fuel: usize = refs.entries.len() + 1;
        loop
            invariant
                spec_peel(refs@, RefModel::Symbolic(current_name@), fuel as nat) == target,
            decreases fuel,
        {
            proof {
                reveal_with_fuel(spec_peel, 3);
            }
            if fuel == 0 {
                return Err(ReferenceError::NotExist(current_name));
            }
            match refs.lookup(current_name.as_slice()) {
                None => {
                    return Err(ReferenceError::NotExist(current_name));
                },
                Some(content) => match parse_ref_content(content.as_slice()) {
                    Err(e) => {
                        return Err(ReferenceError::SHA1Error(e));
                    },
                    Ok(Ref::Peeled(oid)) => {
                        return Ok(oid);
                    },
                    Ok(Ref::Symbolic(next)) => {
                        current_name = next;
                        fuel = fuel - 1;
                    },
                },
            }
        }
    }
}

} // verus!
