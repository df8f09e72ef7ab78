//! HEAD: the distinguished ref naming the checked-out branch or commit,
//! resolved against a ref snapshot.

use vstd::prelude::*;

verus! {

use crate::oid::ObjectId;
use crate::references::ref_lookup;
use crate::references::spec_parse_ref;
use crate::references::spec_peel;
use crate::references::Ref;
use crate::references::RefModel;
use crate::references::RefTable;
use crate::references::ReferenceError;
use crate::references::SpecPeel;
use crate::repository::Repository;

/// The three states of HEAD.
#[derive(Debug, Clone, PartialEq, Eq)]
pub enum Head {
    /// A normal branch with history: the branch name and what it holds.
    Symbolic { name: Vec<u8>, reference: Ref },
    /// The branch ref file does not exist yet: a repository without commits.
    Unborn(Vec<u8>),
    /// HEAD itself stores a peeled id.
    Detached(ObjectId),
}

/// The mathematical shadow of a `Head`.
pub enum HeadModel {
    Symbolic(Seq<u8>, RefModel),
    Unborn(Seq<u8>),
    Detached(Seq<u8>),
}

impl View for Head {
    type V = HeadModel;

    open spec fn view(&self) -> HeadModel {
        match self {
            Head::Symbolic { name, reference } => HeadModel::Symbolic(name@, reference@),
            Head::Unborn(name) => HeadModel::Unborn(name@),
            Head::Detached(oid) => HeadModel::Detached(oid.0@),
        }
    }
}

impl Head {
    /// The ref name HEAD goes through, if it goes through one.
    pub fn referent_name(&self) -> (r: Option<&Vec<u8>>)
        ensures
            match self@ {
                HeadModel::Symbolic(name, _) => r matches Some(n) && n@ == name,
                HeadModel::Unborn(name) => r matches Some(n) && n@ == name,
                HeadModel::Detached(_) => r is None,
            },
    {
        match self {
            Head::Symbolic { name, .. } => Some(name),
            Head::Unborn(name) => Some(name),
            Head::Detached(_) => None,
        }
    }

    /// HEAD points to a yet-to-be-created reference: the state of a new
    /// repository without a commit.
    pub fn is_unborn(&self) -> (r: bool)
        ensures
            r == (self@ matches HeadModel::Unborn(_)),
    {
        matches!(self, Head::Unborn(_))
    }
}

/// The ASCII name `HEAD`.
pub open spec fn head_name() -> Seq<u8> {
    seq![72u8, 69u8, 65u8, 68u8]
}

pub(crate) fn head_name_bytes() -> (r: Vec<u8>)
    ensures
        r@ == head_name(),
{
    let mut v: Vec<u8> = Vec::new();
    v.push(72);
    v.push(69);
    v.push(65);
    v.push(68);
    assert(v@ =~= head_name());
    v
}

/// The state of HEAD over a snapshot: detached when it holds an id; through
/// a name, either the resolved branch or — with no backing file — the
/// unborn branch. `None` stands for content that does not parse.
pub open spec fn spec_head(t: Seq<(Vec<u8>, Vec<u8>)>) -> Option<HeadModel>
    recommends
        ref_lookup(t, head_name()) is Some,
{
    match spec_parse_ref(ref_lookup(t, head_name()).unwrap()) {
        None => None,
        Some(RefModel::Peeled(d)) => Some(HeadModel::Detached(d)),
        Some(RefModel::Symbolic(name)) => match ref_lookup(t, name) {
            None => Some(HeadModel::Unborn(name)),
            Some(c2) => match spec_parse_ref(c2) {
                None => None,
                Some(inner) => Some(HeadModel::Symbolic(name, inner)),
            },
        },
    }
}

/// What resolving HEAD to an id yields: HEAD's content parsed, then peeled.
pub open spec fn spec_head_id(t: Seq<(Vec<u8>, Vec<u8>)>, fuel: nat) -> SpecPeel
    recommends
        ref_lookup(t, head_name()) is Some,
{
    match spec_parse_ref(ref_lookup(t, head_name()).unwrap()) {
        None => SpecPeel::Invalid,
        Some(m) => spec_peel(t, m, fuel),
    }
}

impl Repository {
    /// Retrieve the state of the HEAD reference. The snapshot must hold
    /// HEAD: every initialized repository writes it.
    pub fn head(&self, refs: &RefTable) -> (r: Result<Head, ReferenceError>)
        requires
            ref_lookup(refs@, head_name()) is Some,
        ensures
            match spec_head(refs@) {
                Some(h) => r matches Ok(hd) && hd@ == h,
                None => r matches Err(e) && e matches ReferenceError::SHA1Error(_),
            },
    {
        let hn = head_name_bytes();
        let head_ref = match self.try_find_reference(refs, hn.as_slice()) {
            Ok(Some(rf)) => rf,
            Ok(None) => {
                proof {
                    assert(false);
                }
                return Err(ReferenceError::NotExist(hn));
            },
            Err(e) => {
                return Err(e);
            },
        };
        match head_ref {
            Ref::Peeled(oid) => Ok(Head::Detached(oid)),
            Ref::Symbolic(name) => {
                match self.try_find_reference(refs, name.as_slice()) {
                    Ok(Some(reference)) => Ok(Head::Symbolic { name, reference }),
                    Ok(None) => Ok(Head::Unborn(name)),
                    Err(e) => Err(e),
                }
            },
        }
    }

    /// Retrieve and resolve the object id HEAD points at. In a freshly
    /// created repository this fails with "does not exist" rather than
    /// returning a default id.
    pub fn head_id(&self, refs: &RefTable) -> (r: Result<ObjectId, ReferenceError>)
        requires
            ref_lookup(refs@, head_name()) is Some,
            refs@.len() < usize::MAX,
        ensures
            match spec_head_id(refs@, refs@.len() + 1) {
                SpecPeel::Done(d) => r matches Ok(oid) && oid.0@ == d,
                SpecPeel::NotExist(n) => r matches Err(e) && e matches ReferenceError::NotExist(m)
                    && m@ == n,
                SpecPeel::Invalid => r matches Err(e) && e matches ReferenceError::SHA1Error(_),
            },
    {
        let hn = head_name_bytes();
        let head_ref = match self.try_find_reference(refs, hn.as_slice()) {
            Ok(Some(rf)) => rf,
            Ok(None) => {
                proof {
                    assert(false);
                }
                return Err(ReferenceError::NotExist(hn));
            },
            Err(e) => {
                return Err(e);
            },
        };
        self.peel_reference(refs, &head_ref)
    }
}

/// The content an initialized repository writes into HEAD:
/// `"ref: refs/heads/main\n"`.
pub open spec fn fresh_head_content() -> Seq<u8> {
    seq![
        114u8, 101u8, 102u8, 58u8, 32u8, 114u8, 101u8, 102u8, 115u8, 47u8, 104u8, 101u8, 97u8,
        100u8, 115u8, 47u8, 109u8, 97u8, 105u8, 110u8, 10u8,
    ]
}

/// The branch name it points at: `refs/heads/main`.
pub open spec fn main_branch_name() -> Seq<u8> {
    seq![
        114u8, 101u8, 102u8, 115u8, 47u8, 104u8, 101u8, 97u8, 100u8, 115u8, 47u8, 109u8, 97u8,
        105u8, 110u8,
    ]
}

/// Law: in a freshly initialized repository — HEAD holding
/// `"ref: refs/heads/main\n"` and no file for that branch yet — `head`
/// reports the unborn branch `refs/heads/main`, and peeling HEAD ends in
/// "does not exist" for that name, never in a default id.
pub proof fn lemma_unborn_head(t: Seq<(Vec<u8>, Vec<u8>)>, fuel: nat)
    requires
        ref_lookup(t, head_name()) == Some(fresh_head_content()),
        ref_lookup(t, main_branch_name()) is None,
        fuel >= 1,
    ensures
        spec_head(t) == Some(HeadModel::Unborn(main_branch_name())),
        spec_head_id(t, fuel) == SpecPeel::NotExist(main_branch_name()),
{
    let c = fresh_head_content();
    assert(c.take(5) =~= crate::references::ref_marker());
    let rest = c.skip(5);
    assert(rest.len() == 16);
    // trimming strips exactly the final newline
    assert(crate::utils::spec_trim_start(rest) == rest) by {
        assert(!crate::utils::spec_is_ascii_whitespace(rest[0]));
    }
    assert(crate::utils::spec_trim_end(rest) == main_branch_name()) by {
        reveal_with_fuel(crate::utils::spec_trim_end, 3);
        assert(crate::utils::spec_is_ascii_whitespace(rest[15]));
        assert(rest.drop_last() =~= main_branch_name());
        let m = main_branch_name();
        assert(!crate::utils::spec_is_ascii_whitespace(m[14]));
    }
    assert(spec_parse_ref(c) == Some(RefModel::Symbolic(main_branch_name())));
    reveal_with_fuel(spec_peel, 2);
}

} // verus!
