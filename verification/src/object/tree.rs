//! A tree object: an ordered directory listing. Serialization writes, per
//! entry sorted by name, `"<octal mode> <name>\0"` followed by the raw
//! 20-byte id; the builder at the bottom groups a flat path mapping into
//! nested trees.

use vstd::prelude::*;

verus! {

use crate::object::header::spec_header_len;
use crate::object::header::spec_parse_header;
use crate::object::header::lemma_parse_header_round_trip;
use crate::object::spec_object_buffer;
use crate::object::Object;
use crate::object::ObjectBuffer;
use crate::object::ObjectReadError;
use crate::object::ObjectType;
use crate::oid::ObjectId;
use crate::parse_util::lemma_oct_bytes_digits;
use crate::parse_util::lemma_parse_oct_round_trip;
use crate::parse_util::oct_bytes;
use crate::parse_util::spec_parse_oct_u32;
use crate::utils::find_byte;
use crate::utils::first_index_of;
use crate::utils::lemma_first_index_of;
use crate::utils::lemma_first_index_of_is;

/// One entry of a tree: a file or subdirectory name (no `/` inside), the id
/// of the object it names, and its mode bits.
#[derive(Clone, Debug, PartialEq, Eq)]
pub struct TreeEntry {
    pub name: Vec<u8>,
    pub oid: ObjectId,
    pub mode: u32,
}

/// The mathematical shadow of a `TreeEntry`.
pub struct TreeEntryModel {
    pub name: Seq<u8>,
    pub oid: Seq<u8>,
    pub mode: u32,
}

impl View for TreeEntry {
    type V = TreeEntryModel;

    open spec fn view(&self) -> TreeEntryModel {
        TreeEntryModel { name: self.name@, oid: self.oid.0@, mode: self.mode }
    }
}

/// The serialization of one entry.
pub open spec fn tree_entry_bytes(e: TreeEntryModel) -> Seq<u8> {
    oct_bytes(e.mode as nat) + seq![32u8] + e.name + seq![0u8] + e.oid
}

/// The serialization of a whole entry list, in order.
pub open spec fn tree_body_bytes(entries: Seq<TreeEntryModel>) -> Seq<u8>
    decreases entries.len(),
{
    if entries.len() == 0 {
        Seq::empty()
    } else {
        tree_entry_bytes(entries[0]) + tree_body_bytes(entries.drop_first())
    }
}

pub proof fn lemma_tree_body_snoc(entries: Seq<TreeEntryModel>, e: TreeEntryModel)
    ensures
        tree_body_bytes(entries.push(e)) == tree_body_bytes(entries) + tree_entry_bytes(e),
    decreases entries.len(),
{
    reveal_with_fuel(tree_body_bytes, 3);
    if entries.len() == 0 {
        assert(entries.push(e) =~= seq![e]);
        assert(seq![e].drop_first() =~= Seq::<TreeEntryModel>::empty());
        assert(tree_body_bytes(entries.push(e)) =~= tree_body_bytes(entries) + tree_entry_bytes(
            e,
        ));
    } else {
        assert(entries.push(e)[0] == entries[0]);
        assert(entries.push(e).drop_first() =~= entries.drop_first().push(e));
        lemma_tree_body_snoc(entries.drop_first(), e);
        assert(tree_body_bytes(entries.push(e)) =~= tree_body_bytes(entries) + tree_entry_bytes(
            e,
        ));
    }
}

/// In-memory representation of a tree object.
pub struct Tree {
    entries: Vec<TreeEntry>,
}

impl View for Tree {
    type V = Seq<TreeEntryModel>;

    closed spec fn view(&self) -> Seq<TreeEntryModel> {
        Seq::new(self.entries@.len(), |i: int| self.entries@[i]@)
    }
}

impl Tree {
    pub fn new() -> (r: Self)
        ensures
            r@ == Seq::<TreeEntryModel>::empty(),
    {
        let t = Tree { entries: Vec::new() };
        proof {
            assert(t@ =~= Seq::<TreeEntryModel>::empty());
        }
        t
    }

    /// The entries of the tree, in serialization order.
    pub fn iter(&self) -> (r: &Vec<TreeEntry>)
        ensures
            r@.len() == self@.len(),
            forall|i: int| 0 <= i < r@.len() ==> #[trigger] r@[i]@ == self@[i],
    {
        &self.entries
    }

    /// Append an entry; the caller keeps the ordering invariant.
    pub fn push_entry(&mut self, e: TreeEntry)
        ensures
            final(self)@ == old(self)@.push(e@),
    {
        self.entries.push(e);
        proof {
            assert(final(self)@ =~= old(self)@.push(e@));
        }
    }
}

impl Default for Tree {
    fn default() -> (r: Self)
        ensures
            r@ == Seq::<TreeEntryModel>::empty(),
    {
        Tree::new()
    }
}

impl Object for Tree {
    open spec fn buffer_bytes(&self) -> Seq<u8> {
        spec_object_buffer(ObjectType::Tree, tree_body_bytes(self@))
    }

    fn to_buffer(&self) -> (r: ObjectBuffer)
        ensures
            r@ == self.buffer_bytes(),
    {
        let mut content: Vec<u8> = Vec::new();
        let mut i: usize = 0;
        assert(content@ =~= tree_body_bytes(self@.take(0))) by {
            assert(self@.take(0) =~= Seq::<TreeEntryModel>::empty());
        }
        while i < self.entries.len()
            invariant
                0 <= i <= self.entries@.len(),
                self@.len() == self.entries@.len(),
                content@ == tree_body_bytes(self@.take(i as int)),
            decreases self.entries@.len() - i,
        {
            let e = &self.entries[i];
            crate::parse_util::push_oct(&mut content, e.mode);
            content.push(32);
            content.extend_from_slice(e.name.as_slice());
            content.push(0);
            content.extend_from_slice(e.oid.0.as_slice());
            proof {
                lemma_tree_body_snoc(self@.take(i as int), self@[i as int]);
                assert(self@.take(i as int + 1) =~= self@.take(i as int).push(self@[i as int]));
                assert(content@ =~= tree_body_bytes(self@.take(i as int + 1)));
            }
            i += 1;
        }
        assert(self@.take(self.entries@.len() as int) =~= self@);
        ObjectBuffer::new(ObjectType::Tree, content.as_slice())
    }
}

/// Parsing a tree's content: NUL-terminated `"<mode> <name>"` records each
/// followed by a fixed 20-byte id, until the end of the bytes; an empty
/// leading token ends the list early. A record that is cut short or holds
/// a malformed mode is reported as an error rather than aborting.
pub open spec fn spec_parse_tree_items(data: Seq<u8>) -> Result<
    Seq<TreeEntryModel>,
    ObjectReadError,
>
    decreases data.len(),
    via spec_parse_tree_items_decreases
{
    if data.len() == 0 {
        Ok(Seq::empty())
    } else {
        match first_index_of(data, 0u8) {
            None => Err(ObjectReadError::ContentReadError),
            Some(p) => {
                if p == 0 {
                    Ok(Seq::empty())
                } else {
                    let token = data.take(p);
                    match first_index_of(token, 32u8) {
                        None => Err(ObjectReadError::MissingSpaceSeparator),
                        Some(sp) => {
                            let name = token.skip(sp + 1);
                            match spec_parse_oct_u32(token.take(sp)) {
                                Err(e) => Err(ObjectReadError::ParseNumError(e)),
                                Ok(mode) => {
                                    if data.len() < p + 21 {
                                        Err(ObjectReadError::ContentReadError)
                                    } else {
                                        match spec_parse_tree_items(data.skip(p + 21)) {
                                            Err(e) => Err(e),
                                            Ok(tail) => Ok(
                                                seq![
                                                    TreeEntryModel {
                                                        name,
                                                        oid: data.subrange(p + 1, p + 21),
                                                        mode,
                                                    },
                                                ] + tail,
                                            ),
                                        }
                                    }
                                },
                            }
                        },
                    }
                }
            },
        }
    }
}

#[via_fn]
proof fn spec_parse_tree_items_decreases(data: Seq<u8>) {
    lemma_first_index_of(data, 0u8);
}

/// The model entries a list of exec entries stands for.
pub open spec fn entries_view(v: Seq<TreeEntry>) -> Seq<TreeEntryModel> {
    Seq::new(v.len(), |i: int| v[i]@)
}

fn parse_tree_items(data: &[u8]) -> (r: Result<Vec<TreeEntry>, ObjectReadError>)
    ensures
        (r matches Ok(v) ==> spec_parse_tree_items(data@) == Ok::<_, ObjectReadError>(
            entries_view(v@),
        )),
        (r matches Err(e) ==> spec_parse_tree_items(data@) == Err::<Seq<TreeEntryModel>, _>(e)),
    decreases data@.len(),
{
    if data.len() == 0 {
        let v: Vec<TreeEntry> = Vec::new();
        assert(entries_view(v@) =~= Seq::<TreeEntryModel>::empty());
        return Ok(v);
    }
    match find_byte(data, 0) {
        None => Err(ObjectReadError::ContentReadError),
        Some(p) => {
            proof {
                lemma_first_index_of(data@, 0u8);
            }
            if p == 0 {
                let v: Vec<TreeEntry> = Vec::new();
                assert(entries_view(v@) =~= Seq::<TreeEntryModel>::empty());
                Ok(v)
            } else {
                let token = vstd::slice::slice_subrange(data, 0, p);
                assert(token@ =~= data@.take(p as int));
                match find_byte(token, 32) {
                    None => Err(ObjectReadError::MissingSpaceSeparator),
                    Some(sp) => {
                        proof {
                            lemma_first_index_of(token@, 32u8);
                        }
                        let mode_b = vstd::slice::slice_subrange(token, 0, sp);
                        let name_b = vstd::slice::slice_subrange(token, sp + 1, token.len());
                        assert(mode_b@ =~= token@.take(sp as int));
                        assert(name_b@ =~= token@.skip(sp as int + 1));
                        match crate::parse_util::parse_oct_u32(mode_b) {
                            Err(e) => Err(ObjectReadError::ParseNumError(e)),
                            Ok(mode) => {
                                if data.len() - (p + 1) < 20 {
                                    assert(data@.len() < p + 21);
                                    Err(ObjectReadError::ContentReadError)
                                } else {
                                    let oid_b = vstd::slice::slice_subrange(data, p + 1, p + 21);
                                    let mut oid: [u8; 20] = [0u8; 20];
                                    let mut k: usize = 0;
                                    while k < 20
                                        invariant
                                            0 <= k <= 20,
                                            oid_b@.len() == 20,
                                            forall|j: int| 0 <= j < k ==> oid@[j] == oid_b@[j],
                                        decreases 20 - k,
                                    {
                                        oid[k] = oid_b[k];
                                        k += 1;
                                    }
                                    assert(oid@ =~= data@.subrange(p as int + 1, p as int + 21));
                                    let name = vstd::slice::slice_to_vec(name_b);
                                    let rest = vstd::slice::slice_subrange(data, p + 21, data.len());
                                    assert(rest@ =~= data@.skip(p as int + 21));
                                    match parse_tree_items(rest) {
                                        Err(e) => Err(e),
                                        Ok(mut tail) => {
                                            let entry = TreeEntry { name, oid: ObjectId(oid), mode };
                                            let ghost ge = entry@;
                                            let ghost gtail = entries_view(tail@);
                                            tail.insert(0, entry);
                                            assert(entries_view(tail@) =~= seq![ge] + gtail);
                                            Ok(tail)
                                        },
                                    }
                                }
                            },
                        }
                    },
                }
            }
        },
    }
}

/// What decoding a full tree object means: split the buffer at its first NUL
/// into header and content, check the header names a tree, then read the
/// entry records.
pub open spec fn spec_read_tree_object(data: Seq<u8>) -> Result<
    Seq<TreeEntryModel>,
    ObjectReadError,
> {
    if data.len() == 0 {
        Err(ObjectReadError::MissingSpaceSeparator)
    } else {
        let header_buf = match first_index_of(data, 0u8) {
            Some(p) => data.take(p + 1),
            None => data,
        };
        match spec_parse_header(header_buf) {
            Err(e) => Err(e),
            Ok(h) => {
                if h.typ != ObjectType::Tree {
                    Err(ObjectReadError::MismatchObjectType(ObjectType::Tree, h.typ))
                } else {
                    spec_parse_tree_items(
                        match first_index_of(data, 0u8) {
                            Some(p) => data.skip(p + 1),
                            None => Seq::empty(),
                        },
                    )
                }
            },
        }
    }
}

/// Decode a tree object from its full buffer bytes, header included.
pub fn read_tree_object(data: &[u8]) -> (r: Result<Tree, ObjectReadError>)
    ensures
        (r matches Ok(t) ==> spec_read_tree_object(data@) == Ok::<_, ObjectReadError>(t@)),
        (r matches Err(e) ==> spec_read_tree_object(data@) == Err::<Seq<TreeEntryModel>, _>(e)),
{
    if data.len() == 0 {
        return Err(ObjectReadError::MissingSpaceSeparator);
    }
    let (header_buf, content) = match find_byte(data, 0) {
        Some(p) => {
            proof {
                lemma_first_index_of(data@, 0u8);
            }
            let h = vstd::slice::slice_subrange(data, 0, p + 1);
            let c = vstd::slice::slice_subrange(data, p + 1, data.len());
            assert(h@ =~= data@.take(p as int + 1));
            assert(c@ =~= data@.skip(p as int + 1));
            (h, c)
        },
        None => {
            let c = vstd::slice::slice_subrange(data, data.len(), data.len());
            assert(c@ =~= Seq::<u8>::empty());
            (data, c)
        },
    };
    match crate::object::header::parse_header(header_buf) {
        Err(e) => Err(e),
        Ok(h) => {
            if !matches!(h.typ, ObjectType::Tree) {
                return Err(ObjectReadError::MismatchObjectType(ObjectType::Tree, h.typ));
            }
            match parse_tree_items(content) {
                Err(e) => Err(e),
                Ok(v) => {
                    let t = Tree { entries: v };
                    assert(t@ =~= entries_view(t.entries@));
                    Ok(t)
                },
            }
        },
    }
}

/// An entry that tree decoding can reproduce: a 20-byte id and a name free of
/// NUL bytes.
pub open spec fn decodable_entry(e: TreeEntryModel) -> bool {
    &&& e.oid.len() == 20
    &&& forall|i: int| 0 <= i < e.name.len() ==> e.name[i] != 0u8
}

proof fn lemma_parse_tree_items_round_trip(entries: Seq<TreeEntryModel>)
    requires
        forall|i: int| 0 <= i < entries.len() ==> decodable_entry(#[trigger] entries[i]),
    ensures
        spec_parse_tree_items(tree_body_bytes(entries)) == Ok::<_, ObjectReadError>(entries),
    decreases entries.len(),
{
    reveal_with_fuel(spec_parse_tree_items, 2);
    if entries.len() == 0 {
        assert(entries =~= Seq::<TreeEntryModel>::empty());
        assert(tree_body_bytes(entries).len() == 0);
    } else {
        let e = entries[0];
        let body = tree_body_bytes(entries);
        let rest = tree_body_bytes(entries.drop_first());
        let ob = oct_bytes(e.mode as nat);
        let ol = ob.len() as int;
        lemma_oct_bytes_digits(e.mode as nat);
        let p = ol + 1 + e.name.len() as int;
        assert(body =~= tree_entry_bytes(e) + rest);

        // the first NUL terminates the first record's token
        assert forall|j: int| 0 <= j < p implies body[j] != 0u8 by {
            if j < ol {
                assert(body[j] == ob[j]);
            } else if j == ol {
                assert(body[j] == 32u8);
            } else {
                assert(body[j] == e.name[j - ol - 1]);
            }
        }
        assert(body[p] == 0u8);
        lemma_first_index_of_is(body, 0u8, p);

        let token = body.take(p);
        // the first space terminates the octal mode
        assert forall|j: int| 0 <= j < ol implies token[j] != 32u8 by {
            assert(token[j] == ob[j]);
        }
        assert(token[ol] == 32u8);
        lemma_first_index_of_is(token, 32u8, ol);
        assert(token.take(ol) =~= ob);
        assert(token.skip(ol + 1) =~= e.name);
        lemma_parse_oct_round_trip(e.mode);

        assert(body.len() >= p + 21);
        assert(body.subrange(p + 1, p + 21) =~= e.oid);
        assert(body.skip(p + 21) =~= rest);

        lemma_parse_tree_items_round_trip(entries.drop_first());
        assert(seq![e] + entries.drop_first() =~= entries);
        assert(TreeEntryModel {
            name: token.skip(ol + 1),
            oid: body.subrange(p + 1, p + 21),
            mode: e.mode,
        } == e);
        assert(spec_parse_tree_items(body) == Ok::<_, ObjectReadError>(
            seq![e] + entries.drop_first(),
        ));
    }
}

/// Law: decoding inverts encoding — a tree whose entries carry 20-byte ids
/// and NUL-free names reads back from its buffer as an equal structure.
pub proof fn lemma_tree_round_trip(entries: Seq<TreeEntryModel>)
    requires
        forall|i: int| 0 <= i < entries.len() ==> decodable_entry(#[trigger] entries[i]),
        tree_body_bytes(entries).len() <= usize::MAX,
    ensures
        spec_read_tree_object(spec_object_buffer(ObjectType::Tree, tree_body_bytes(entries)))
            == Ok::<_, ObjectReadError>(entries),
{
    let content = tree_body_bytes(entries);
    let buf = spec_object_buffer(ObjectType::Tree, content);
    let hl = spec_header_len(ObjectType::Tree, content);
    lemma_parse_header_round_trip(ObjectType::Tree, content);
    assert(buf.len() > 0);
    assert(first_index_of(buf, 0u8) == Some(hl - 1));
    assert(buf.take(hl) =~= buf.take((hl - 1) + 1));
    assert(buf.skip(hl) =~= buf.skip((hl - 1) + 1));
    assert(spec_parse_header(buf.take((hl - 1) + 1)) == Ok::<_, ObjectReadError>(
        crate::object::ObjectHeader { typ: ObjectType::Tree, size: content.len() as usize },
    ));
    lemma_parse_tree_items_round_trip(entries);
    assert(buf.skip((hl - 1) + 1) == content);
    assert(spec_parse_tree_items(buf.skip((hl - 1) + 1)) == Ok::<_, ObjectReadError>(entries));
}

} // verus!

// ---------------------------------------------------------------------------
// The tree builder: a nested, name-keyed map built from flat paths. A key
// either names a leaf entry directly or, with a synthetic trailing slash
// used only for ordering, a nested builder.
// ---------------------------------------------------------------------------

verus! {

use crate::digest::sha1_of;

/// Strict byte-lexicographic order.
pub open spec fn lex_less(a: Seq<u8>, b: Seq<u8>) -> bool
    decreases a.len(),
{
    if b.len() == 0 {
        false
    } else if a.len() == 0 {
        true
    } else if a[0] < b[0] {
        true
    } else if a[0] > b[0] {
        false
    } else {
        lex_less(a.drop_first(), b.drop_first())
    }
}

/// Law: the order is a strict total order — exactly one of `a < b`,
/// `a == b`, `b < a` holds.
pub proof fn lemma_lex_trichotomy(a: Seq<u8>, b: Seq<u8>)
    ensures
        lex_less(a, b) ==> !lex_less(b, a) && a != b,
        lex_less(b, a) ==> !lex_less(a, b) && a != b,
        !lex_less(a, b) && !lex_less(b, a) ==> a == b,
    decreases a.len(),
{
    if a.len() > 0 && b.len() > 0 && a[0] == b[0] {
        lemma_lex_trichotomy(a.drop_first(), b.drop_first());
        if !lex_less(a, b) && !lex_less(b, a) {
            assert(a.drop_first() == b.drop_first());
            assert(a =~= b) by {
                assert(forall|i: int| 1 <= i < a.len() ==> a[i] == a.drop_first()[i - 1]);
                assert(forall|i: int| 1 <= i < b.len() ==> b[i] == b.drop_first()[i - 1]);
            }
        }
    }
}

pub proof fn lemma_lex_transitive(a: Seq<u8>, b: Seq<u8>, c: Seq<u8>)
    requires
        lex_less(a, b),
        lex_less(b, c),
    ensures
        lex_less(a, c),
    decreases a.len(),
{
    if a.len() > 0 && b.len() > 0 && c.len() > 0 && a[0] == b[0] && b[0] == c[0] {
        lemma_lex_transitive(a.drop_first(), b.drop_first(), c.drop_first());
    }
}

/// Compare two byte strings lexicographically.
pub(crate) fn lex_less_bytes(a: &[u8], b: &[u8]) -> (r: bool)
    ensures
        r == lex_less(a@, b@),
    decreases a@.len(),
{
    let mut i: usize = 0;
    assert(a@.skip(0) =~= a@);
    assert(b@.skip(0) =~= b@);
    loop
        invariant
            0 <= i <= a@.len(),
            i <= b@.len(),
            lex_less(a@, b@) == lex_less(a@.skip(i as int), b@.skip(i as int)),
        decreases a@.len() - i,
    {
        assert(a@.skip(i as int).len() == a@.len() - i);
        assert(b@.skip(i as int).len() == b@.len() - i);
        if i >= b.len() {
            return false;
        }
        if i >= a.len() {
            return true;
        }
        assert(a@.skip(i as int)[0] == a@[i as int]);
        assert(b@.skip(i as int)[0] == b@[i as int]);
        if a[i] < b[i] {
            return true;
        }
        if a[i] > b[i] {
            return false;
        }
        assert(a@.skip(i as int).drop_first() =~= a@.skip(i as int + 1));
        assert(b@.skip(i as int).drop_first() =~= b@.skip(i as int + 1));
        i += 1;
    }
}

/// The entries of a builder level: a sorted association list from key to
/// either a leaf entry or a nested builder.
pub enum TreeBuilderEntry {
    Blob(TreeEntry),
    Tree(TreeBuilder),
}

/// Auxiliary structure to build a tree hierarchy from a flat list of entries.
pub struct TreeBuilder {
    entries: Vec<(Vec<u8>, TreeBuilderEntry)>,
}

/// The mathematical shadow of one builder slot.
pub enum BuilderEntryModel {
    Blob(TreeEntryModel),
    Dir(Seq<(Seq<u8>, BuilderEntryModel)>),
}

pub open spec fn builder_entry_view(e: TreeBuilderEntry) -> BuilderEntryModel
    decreases e,
{
    match e {
        TreeBuilderEntry::Blob(t) => BuilderEntryModel::Blob(t@),
        TreeBuilderEntry::Tree(b) => BuilderEntryModel::Dir(builder_view(b)),
    }
}

pub closed spec fn builder_view(b: TreeBuilder) -> Seq<(Seq<u8>, BuilderEntryModel)>
    decreases b,
{
    builder_list_view(b.entries@)
}

pub open spec fn builder_list_view(l: Seq<(Vec<u8>, TreeBuilderEntry)>) -> Seq<
    (Seq<u8>, BuilderEntryModel),
>
    decreases l,
{
    if l.len() == 0 {
        Seq::empty()
    } else {
        builder_list_view(l.drop_last()).push((l.last().0@, builder_entry_view(l.last().1)))
    }
}

pub proof fn lemma_builder_list_view(l: Seq<(Vec<u8>, TreeBuilderEntry)>)
    ensures
        builder_list_view(l).len() == l.len(),
        forall|i: int|
            0 <= i < l.len() ==> #[trigger] builder_list_view(l)[i] == (
                l[i].0@,
                builder_entry_view(l[i].1),
            ),
    decreases l,
{
    if l.len() > 0 {
        lemma_builder_list_view(l.drop_last());
        assert(forall|i: int| 0 <= i < l.len() - 1 ==> l.drop_last()[i] == l[i]);
    }
}

/// A key that can stand in a tree: non-empty, no slash, no NUL.
pub open spec fn valid_component(s: Seq<u8>) -> bool {
    s.len() > 0 && forall|i: int| 0 <= i < s.len() ==> s[i] != 47u8 && s[i] != 0u8
}

pub open spec fn keys_sorted(l: Seq<(Seq<u8>, BuilderEntryModel)>) -> bool {
    forall|i: int, j: int| 0 <= i < j < l.len() ==> lex_less(l[i].0, l[j].0)
}

/// Shape of every slot: a leaf is keyed by its own valid name; a directory
/// key carries the trailing slash, strips to a valid name, and its nested
/// level is well-formed in turn.
pub open spec fn entries_wf(l: Seq<(Seq<u8>, BuilderEntryModel)>) -> bool
    decreases l,
{
    if l.len() == 0 {
        true
    } else {
        entries_wf(l.drop_last()) && {
            let key = l.last().0;
            match l.last().1 {
                BuilderEntryModel::Blob(t) => valid_component(key) && t.name == key && t.oid.len()
                    == 20,
                BuilderEntryModel::Dir(sub) => key.len() >= 2 && key[key.len() - 1] == 47u8
                    && valid_component(key.take(key.len() - 1)) && keys_sorted(sub) && entries_wf(
                    sub,
                ),
            }
        }
    }
}

/// The shape one slot must have, as `entries_wf` demands of each.
pub open spec fn slot_wf(key: Seq<u8>, e: BuilderEntryModel) -> bool {
    match e {
        BuilderEntryModel::Blob(t) => valid_component(key) && t.name == key && t.oid.len() == 20,
        BuilderEntryModel::Dir(sub) => key.len() >= 2 && key[key.len() - 1] == 47u8
            && valid_component(key.take(key.len() - 1)) && keys_sorted(sub) && entries_wf(sub),
    }
}

pub proof fn lemma_entries_wf_from_index(l: Seq<(Seq<u8>, BuilderEntryModel)>)
    requires
        forall|i: int| 0 <= i < l.len() ==> slot_wf(#[trigger] l[i].0, l[i].1),
    ensures
        entries_wf(l),
    decreases l,
{
    if l.len() > 0 {
        assert(forall|i: int| 0 <= i < l.len() - 1 ==> l.drop_last()[i] == l[i]);
        lemma_entries_wf_from_index(l.drop_last());
        assert(slot_wf(l.last().0, l.last().1));
    }
}

/// The sibling-ordering invariant of the whole builder, preserved exactly:
/// keys at every level are strictly sorted, directories sorting with their
/// trailing slash.
pub open spec fn builder_wf(l: Seq<(Seq<u8>, BuilderEntryModel)>) -> bool {
    keys_sorted(l) && entries_wf(l)
}

pub proof fn lemma_entries_wf_index(l: Seq<(Seq<u8>, BuilderEntryModel)>, i: int)
    requires
        entries_wf(l),
        0 <= i < l.len(),
    ensures
        match l[i].1 {
            BuilderEntryModel::Blob(t) => valid_component(l[i].0) && t.name == l[i].0
                && t.oid.len() == 20,
            BuilderEntryModel::Dir(sub) => l[i].0.len() >= 2 && l[i].0[l[i].0.len() - 1] == 47u8
                && valid_component(l[i].0.take(l[i].0.len() - 1)) && keys_sorted(sub)
                && entries_wf(sub),
        },
    decreases l,
{
    if i == l.len() - 1 {
        assert(l.last() == l[i]);
    } else {
        assert(forall|j: int| 0 <= j < l.len() - 1 ==> l.drop_last()[j] == l[j]);
        lemma_entries_wf_index(l.drop_last(), i);
    }
}

pub proof fn lemma_entries_wf_snoc(l: Seq<(Seq<u8>, BuilderEntryModel)>, kv: (Seq<u8>, BuilderEntryModel))
    requires
        entries_wf(l),
        match kv.1 {
            BuilderEntryModel::Blob(t) => valid_component(kv.0) && t.name == kv.0 && t.oid.len()
                == 20,
            BuilderEntryModel::Dir(sub) => kv.0.len() >= 2 && kv.0[kv.0.len() - 1] == 47u8
                && valid_component(kv.0.take(kv.0.len() - 1)) && keys_sorted(sub) && entries_wf(
                sub,
            ),
        },
    ensures
        entries_wf(l.push(kv)),
{
    assert(l.push(kv).drop_last() =~= l);
    assert(l.push(kv).last() == kv);
}

} // verus!

verus! {

/// First value under a key at one builder level.
pub open spec fn lookup_key(l: Seq<(Seq<u8>, BuilderEntryModel)>, key: Seq<u8>) -> Option<
    BuilderEntryModel,
>
    decreases l.len(),
{
    if l.len() == 0 {
        None
    } else if l[0].0 == key {
        Some(l[0].1)
    } else {
        lookup_key(l.drop_first(), key)
    }
}

/// The path components a slice of path segments stands for.
pub open spec fn components_view(p: Seq<Vec<u8>>) -> Seq<Seq<u8>> {
    Seq::new(p.len(), |i: int| p[i]@)
}

/// Whether the slot a path and name lead to is still unoccupied.
pub open spec fn slot_free(
    l: Seq<(Seq<u8>, BuilderEntryModel)>,
    path: Seq<Seq<u8>>,
    name: Seq<u8>,
) -> bool
    decreases path.len(),
{
    if path.len() == 0 {
        lookup_key(l, name) is None
    } else {
        match lookup_key(l, path[0].push(47u8)) {
            Some(BuilderEntryModel::Dir(sub)) => slot_free(sub, path.drop_first(), name),
            _ => true,
        }
    }
}

/// What adding one leaf means: descend along the path, a trailing slash
/// marking each directory key, creating levels as needed, and place the
/// entry in key order.
pub open spec fn builder_add(
    l: Seq<(Seq<u8>, BuilderEntryModel)>,
    path: Seq<Seq<u8>>,
    name: Seq<u8>,
    entry: TreeEntryModel,
) -> Seq<(Seq<u8>, BuilderEntryModel)>
    decreases path.len(), l.len(),
{
    if path.len() == 0 {
        if l.len() == 0 {
            seq![(name, BuilderEntryModel::Blob(entry))]
        } else if lex_less(name, l[0].0) {
            seq![(name, BuilderEntryModel::Blob(entry))] + l
        } else if name == l[0].0 {
            seq![(name, BuilderEntryModel::Blob(entry))] + l.drop_first()
        } else {
            seq![l[0]] + builder_add(l.drop_first(), path, name, entry)
        }
    } else {
        let folder = path[0].push(47u8);
        let fresh = (folder, BuilderEntryModel::Dir(builder_add(Seq::empty(), path.drop_first(), name, entry)));
        if l.len() == 0 {
            seq![fresh]
        } else if lex_less(folder, l[0].0) {
            seq![fresh] + l
        } else if folder == l[0].0 {
            match l[0].1 {
                BuilderEntryModel::Dir(sub) => seq![
                    (folder, BuilderEntryModel::Dir(builder_add(sub, path.drop_first(), name, entry))),
                ] + l.drop_first(),
                BuilderEntryModel::Blob(_) => seq![fresh] + l.drop_first(),
            }
        } else {
            seq![l[0]] + builder_add(l.drop_first(), path, name, entry)
        }
    }
}

/// Under sorted keys, a scan that stops at the first key not below the
/// probe decides the lookup.
pub proof fn lemma_lookup_key_sorted(l: Seq<(Seq<u8>, BuilderEntryModel)>, key: Seq<u8>, idx: int)
    requires
        keys_sorted(l),
        0 <= idx <= l.len(),
        forall|j: int| 0 <= j < idx ==> lex_less(#[trigger] l[j].0, key),
        idx < l.len() ==> !lex_less(l[idx].0, key),
    ensures
        lookup_key(l, key) == (if idx < l.len() && l[idx].0 == key {
            Some(l[idx].1)
        } else {
            None::<BuilderEntryModel>
        }),
    decreases l.len(),
{
    if l.len() == 0 {
    } else if idx == 0 {
        lemma_lex_trichotomy(l[0].0, key);
        if l[0].0 == key {
        } else {
            // every key is above the probe
            assert(lex_less(key, l[0].0));
            assert(forall|j: int| 0 <= j < l.drop_first().len() ==> l.drop_first()[j] == l[j + 1]);
            assert forall|j: int| 0 <= j < l.drop_first().len() implies !lex_less(
                #[trigger] l.drop_first()[j].0,
                key,
            ) && l.drop_first()[j].0 != key by {
                if j == 0 {
                    assert(lex_less(l[0].0, l[1].0));
                } else {
                    assert(lex_less(l[0].0, l[j + 1].0));
                }
                lemma_lex_transitive(key, l[0].0, l[j + 1].0);
                lemma_lex_trichotomy(l[j + 1].0, key);
            }
            assert(keys_sorted(l.drop_first()));
            lemma_lookup_key_sorted(l.drop_first(), key, 0);
        }
    } else {
        lemma_lex_trichotomy(l[0].0, key);
        assert(lex_less(l[0].0, key));
        assert(l[0].0 != key);
        assert(forall|j: int| 0 <= j < l.drop_first().len() ==> l.drop_first()[j] == l[j + 1]);
        assert(keys_sorted(l.drop_first()));
        lemma_lookup_key_sorted(l.drop_first(), key, idx - 1);
    }
}

/// Under the same scan, `builder_add` rewrites the list locally: everything
/// before and after the found position stays, and the new or updated slot
/// stands at it.
pub proof fn lemma_builder_add_at(
    l: Seq<(Seq<u8>, BuilderEntryModel)>,
    path: Seq<Seq<u8>>,
    name: Seq<u8>,
    entry: TreeEntryModel,
    idx: int,
)
    requires
        0 <= idx <= l.len(),
        forall|j: int| 0 <= j < idx ==> lex_less(#[trigger] l[j].0, spec_add_key(path, name)),
        idx < l.len() ==> !lex_less(l[idx].0, spec_add_key(path, name)),
    ensures
        builder_add(l, path, name, entry) == (if idx < l.len() && l[idx].0 == spec_add_key(
            path,
            name,
        ) {
            l.take(idx) + seq![(spec_add_key(path, name), spec_add_slot(l[idx].1, path, name, entry))]
                + l.skip(idx + 1)
        } else {
            l.take(idx) + seq![
                (spec_add_key(path, name), spec_add_slot_fresh(path, name, entry)),
            ] + l.skip(idx)
        }),
    decreases idx,
{
    let key = spec_add_key(path, name);
    if idx == 0 {
        if l.len() == 0 {
            assert(builder_add(l, path, name, entry) =~= l.take(0) + seq![
                (key, spec_add_slot_fresh(path, name, entry)),
            ] + l.skip(0));
        } else if l[0].0 == key {
            assert(builder_add(l, path, name, entry) =~= l.take(0) + seq![
                (key, spec_add_slot(l[0].1, path, name, entry)),
            ] + l.skip(1));
        } else {
            lemma_lex_trichotomy(l[0].0, key);
            assert(lex_less(key, l[0].0));
            assert(builder_add(l, path, name, entry) =~= l.take(0) + seq![
                (key, spec_add_slot_fresh(path, name, entry)),
            ] + l.skip(0));
        }
    } else {
        assert(lex_less(l[0].0, key));
        lemma_lex_trichotomy(l[0].0, key);
        assert(!(l.len() == 0));
        assert(!lex_less(key, l[0].0));
        assert(l[0].0 != key);
        let t = l.drop_first();
        assert(forall|j: int| 0 <= j < t.len() ==> t[j] == l[j + 1]);
        lemma_builder_add_at(t, path, name, entry, idx - 1);
        if idx < l.len() && l[idx].0 == key {
            assert(seq![l[0]] + (t.take(idx - 1) + seq![
                (key, spec_add_slot(t[idx - 1].1, path, name, entry)),
            ] + t.skip(idx)) =~= l.take(idx) + seq![
                (key, spec_add_slot(l[idx].1, path, name, entry)),
            ] + l.skip(idx + 1));
        } else {
            assert(seq![l[0]] + (t.take(idx - 1) + seq![
                (key, spec_add_slot_fresh(path, name, entry)),
            ] + t.skip(idx - 1)) =~= l.take(idx) + seq![
                (key, spec_add_slot_fresh(path, name, entry)),
            ] + l.skip(idx));
        }
    }
}

/// The key one add touches at the current level.
pub open spec fn spec_add_key(path: Seq<Seq<u8>>, name: Seq<u8>) -> Seq<u8> {
    if path.len() == 0 {
        name
    } else {
        path[0].push(47u8)
    }
}

/// The slot an add leaves at the touched key when the key was present.
pub open spec fn spec_add_slot(
    old_slot: BuilderEntryModel,
    path: Seq<Seq<u8>>,
    name: Seq<u8>,
    entry: TreeEntryModel,
) -> BuilderEntryModel {
    if path.len() == 0 {
        BuilderEntryModel::Blob(entry)
    } else {
        match old_slot {
            BuilderEntryModel::Dir(sub) => BuilderEntryModel::Dir(
                builder_add(sub, path.drop_first(), name, entry),
            ),
            BuilderEntryModel::Blob(_) => spec_add_slot_fresh(path, name, entry),
        }
    }
}

/// The slot an add creates at the touched key when the key was absent.
pub open spec fn spec_add_slot_fresh(
    path: Seq<Seq<u8>>,
    name: Seq<u8>,
    entry: TreeEntryModel,
) -> BuilderEntryModel {
    if path.len() == 0 {
        BuilderEntryModel::Blob(entry)
    } else {
        BuilderEntryModel::Dir(builder_add(Seq::empty(), path.drop_first(), name, entry))
    }
}

pub proof fn lemma_slot_free_empty(path: Seq<Seq<u8>>, name: Seq<u8>)
    ensures
        slot_free(Seq::empty(), path, name),
{
    reveal_with_fuel(lookup_key, 2);
    if path.len() == 0 {
        assert(lookup_key(Seq::empty(), name) is None);
    } else {
        assert(lookup_key(Seq::empty(), path[0].push(47u8)) is None);
    }
}

} // verus!

verus! {

impl TreeBuilder {
    pub fn new() -> (r: Self)
        ensures
            builder_view(r) == Seq::<(Seq<u8>, BuilderEntryModel)>::empty(),
            builder_wf(builder_view(r)),
    {
        let b = TreeBuilder { entries: Vec::new() };
        proof {
            assert(builder_view(b) =~= Seq::<(Seq<u8>, BuilderEntryModel)>::empty());
        }
        b
    }

    /// Place one leaf under `path`, creating nested levels as needed, keyed
    /// so that siblings stay sorted with directories carrying their slash.
    /// The slot must still be free — a duplicate leaf name within one
    /// directory is the fatal invariant violation of the design, so the
    /// precondition leaves it out; `slot_is_free` decides it for a caller.
    #[verifier::loop_isolation(false)]
    pub fn add_entry(&mut self, path: &[Vec<u8>], name: Vec<u8>, entry: TreeEntry)
        requires
            builder_wf(builder_view(*old(self))),
            valid_component(name@),
            forall|i: int| 0 <= i < path@.len() ==> valid_component(#[trigger] path@[i]@),
            entry@.name == name@,
            slot_free(builder_view(*old(self)), components_view(path@), name@),
        ensures
            builder_view(*final(self)) == builder_add(
                builder_view(*old(self)),
                components_view(path@),
                name@,
                entry@,
            ),
            builder_wf(builder_view(*final(self))),
        decreases path@.len(),
    {
        let ghost l = builder_view(*old(self));
        let ghost pv = components_view(path@);
        let ghost gname = name@;
        let ghost ge = entry@;
        proof {
            lemma_builder_list_view(old(self).entries@);
            assert(forall|i: int|
                0 <= i < l.len() ==> slot_wf(#[trigger] l[i].0, l[i].1)) by {
                assert forall|i: int| 0 <= i < l.len() implies slot_wf(
                    #[trigger] l[i].0,
                    l[i].1,
                ) by {
                    lemma_entries_wf_index(l, i);
                }
            }
        }

        let key: Vec<u8> = if path.len() == 0 {
            vstd::slice::slice_to_vec(name.as_slice())
        } else {
            let mut f = vstd::slice::slice_to_vec(path[0].as_slice());
            f.push(47);
            f
        };
        proof {
            if pv.len() == 0 {
                assert(key@ == spec_add_key(pv, gname));
            } else {
                assert(key@ =~= pv[0].push(47u8));
            }
        }

        let mut idx: usize = 0;
        while idx < self.entries.len() && lex_less_bytes(
            self.entries[idx].0.as_slice(),
            key.as_slice(),
        )
            invariant
                0 <= idx <= self.entries@.len(),
                forall|j: int| 0 <= j < idx ==> lex_less(#[trigger] l[j].0, key@),
            decreases self.entries@.len() - idx,
        {
            idx += 1;
        }
        let at_key: bool = idx < self.entries.len() && !lex_less_bytes(
            key.as_slice(),
            self.entries[idx].0.as_slice(),
        );
        proof {
            if idx < self.entries@.len() {
                lemma_lex_trichotomy(l[idx as int].0, key@);
            }
            assert(at_key == (idx < l.len() && l[idx as int].0 == key@));
            lemma_lookup_key_sorted(l, key@, idx as int);
            lemma_builder_add_at(l, pv, gname, ge, idx as int);
        }

        if path.len() == 0 {
            proof {
                // the slot is free, so no key at this level equals the name
                assert(!at_key);
            }
            self.entries.insert(idx, (key, TreeBuilderEntry::Blob(entry)));
            proof {
                lemma_builder_list_view(self.entries@);
                let newv = builder_view(*self);
                assert(newv =~= l.take(idx as int) + seq![
                    (gname, BuilderEntryModel::Blob(ge)),
                ] + l.skip(idx as int));
                assert(newv == builder_add(l, pv, gname, ge));
                assert(keys_sorted(newv)) by {
                    assert forall|a: int, b: int| 0 <= a < b < newv.len() implies lex_less(
                        newv[a].0,
                        newv[b].0,
                    ) by {
                        let i = idx as int;
                        if b < i {
                        } else if a < i && b == i {
                        } else if a < i && b > i {
                        } else if a == i {
                            assert(!lex_less(gname, l[i].0) ==> false || true);
                            if b - 1 == i {
                                assert(lex_less(gname, l[i].0));
                            } else {
                                assert(lex_less(gname, l[i].0));
                                assert(lex_less(l[i].0, l[b - 1].0));
                                lemma_lex_transitive(gname, l[i].0, l[b - 1].0);
                            }
                        } else {
                        }
                    }
                }
                assert(entries_wf(newv)) by {
                    assert forall|i: int| 0 <= i < newv.len() implies slot_wf(
                        #[trigger] newv[i].0,
                        newv[i].1,
                    ) by {}
                    lemma_entries_wf_from_index(newv);
                }
            }
        } else {
            let sub_path = vstd::slice::slice_subrange(path, 1, path.len());
            proof {
                assert(components_view(sub_path@) =~= pv.drop_first());
            }
            if at_key {
                let kv = self.entries.remove(idx);
                let k2 = kv.0;
                match kv.1 {
                    TreeBuilderEntry::Tree(mut child) => {
                        let ghost subv = builder_view(child);
                        proof {
                            assert(l[idx as int].1 == BuilderEntryModel::Dir(subv));
                            lemma_entries_wf_index(l, idx as int);
                            // the free slot lies below this directory
                            assert(slot_free(subv, pv.drop_first(), gname));
                        }
                        child.add_entry(sub_path, name, entry);
                        let ghost newsub = builder_view(child);
                        self.entries.insert(idx, (k2, TreeBuilderEntry::Tree(child)));
                        proof {
                            lemma_builder_list_view(self.entries@);
                            let newv = builder_view(*self);
                            assert(newv =~= l.take(idx as int) + seq![
                                (key@, BuilderEntryModel::Dir(newsub)),
                            ] + l.skip(idx as int + 1));
                            assert(newv == builder_add(l, pv, gname, ge));
                            assert(keys_sorted(newv)) by {
                                assert forall|a: int, b: int|
                                    0 <= a < b < newv.len() implies lex_less(
                                    newv[a].0,
                                    newv[b].0,
                                ) by {
                                    assert(newv[a].0 == l[a].0);
                                    assert(newv[b].0 == l[b].0);
                                }
                            }
                            assert(entries_wf(newv)) by {
                                assert forall|i: int| 0 <= i < newv.len() implies slot_wf(
                                    #[trigger] newv[i].0,
                                    newv[i].1,
                                ) by {
                                    if i != idx as int {
                                        assert(newv[i] == l[i]);
                                    }
                                }
                                lemma_entries_wf_from_index(newv);
                            }
                        }
                    },
                    TreeBuilderEntry::Blob(b) => {
                        proof {
                            lemma_entries_wf_index(l, idx as int);
                            assert(valid_component(l[idx as int].0));
                            assert(key@[key@.len() - 1] == 47u8);
                            assert(false);
                        }
                        self.entries.insert(idx, (k2, TreeBuilderEntry::Blob(b)));
                    },
                }
            } else {
                let mut child = TreeBuilder::new();
                proof {
                    lemma_slot_free_empty(pv.drop_first(), gname);
                }
                child.add_entry(sub_path, name, entry);
                let ghost newsub = builder_view(child);
                self.entries.insert(idx, (key, TreeBuilderEntry::Tree(child)));
                proof {
                    lemma_builder_list_view(self.entries@);
                    let newv = builder_view(*self);
                    assert(newv =~= l.take(idx as int) + seq![
                        (key@, BuilderEntryModel::Dir(newsub)),
                    ] + l.skip(idx as int));
                    assert(spec_add_slot_fresh(pv, gname, ge) == BuilderEntryModel::Dir(newsub));
                    assert(newv == builder_add(l, pv, gname, ge));
                    assert(keys_sorted(newv)) by {
                        assert forall|a: int, b: int| 0 <= a < b < newv.len() implies lex_less(
                            newv[a].0,
                            newv[b].0,
                        ) by {
                            let i = idx as int;
                            if a == i && b > i {
                                assert(lex_less(key@, l[i].0));
                                if b - 1 > i {
                                    assert(lex_less(l[i].0, l[b - 1].0));
                                    lemma_lex_transitive(key@, l[i].0, l[b - 1].0);
                                }
                            }
                        }
                    }
                    assert(entries_wf(newv)) by {
                        assert(key@.len() >= 2);
                        assert(key@[key@.len() - 1] == 47u8);
                        assert(key@.take(key@.len() - 1) =~= pv[0]);
                        assert(valid_component(pv[0]));
                        assert forall|i: int| 0 <= i < newv.len() implies slot_wf(
                            #[trigger] newv[i].0,
                            newv[i].1,
                        ) by {}
                        lemma_entries_wf_from_index(newv);
                    }
                }
            }
        }
    }

    /// Whether the slot a path and name lead to is still unoccupied: the
    /// check `add_entry` asks its callers for, decidable at run time.
    #[verifier::loop_isolation(false)]
    pub fn slot_is_free(&self, path: &[Vec<u8>], name: &[u8]) -> (r: bool)
        requires
            builder_wf(builder_view(*self)),
        ensures
            r == slot_free(builder_view(*self), components_view(path@), name@),
        decreases path@.len(),
    {
        let ghost l = builder_view(*self);
        let ghost pv = components_view(path@);
        proof {
            lemma_builder_list_view(self.entries@);
        }
        let key: Vec<u8> = if path.len() == 0 {
            vstd::slice::slice_to_vec(name)
        } else {
            let mut f = vstd::slice::slice_to_vec(path[0].as_slice());
            f.push(47);
            f
        };
        proof {
            if pv.len() > 0 {
                assert(key@ =~= pv[0].push(47u8));
            }
        }
        let mut idx: usize = 0;
        while idx < self.entries.len() && lex_less_bytes(
            self.entries[idx].0.as_slice(),
            key.as_slice(),
        )
            invariant
                0 <= idx <= self.entries@.len(),
                forall|j: int| 0 <= j < idx ==> lex_less(#[trigger] l[j].0, key@),
            decreases self.entries@.len() - idx,
        {
            idx += 1;
        }
        let at_key: bool = idx < self.entries.len() && !lex_less_bytes(
            key.as_slice(),
            self.entries[idx].0.as_slice(),
        );
        proof {
            if idx < self.entries@.len() {
                lemma_lex_trichotomy(l[idx as int].0, key@);
            }
            assert(at_key == (idx < l.len() && l[idx as int].0 == key@));
            lemma_lookup_key_sorted(l, key@, idx as int);
        }
        if path.len() == 0 {
            !at_key
        } else if !at_key {
            true
        } else {
            let pair = &self.entries[idx];
            proof {
                assert(l[idx as int] == (pair.0@, builder_entry_view(pair.1)));
            }
            match &pair.1 {
                TreeBuilderEntry::Tree(child) => {
                    proof {
                        lemma_entries_wf_index(l, idx as int);
                    }
                    let sub_path = vstd::slice::slice_subrange(path, 1, path.len());
                    proof {
                        assert(components_view(sub_path@) =~= pv.drop_first());
                    }
                    child.slot_is_free(sub_path, name)
                },
                TreeBuilderEntry::Blob(_) => true,
            }
        }
    }
}

} // verus!

verus! {

/// The directory mode bits an emitted subtree entry carries.
pub open spec fn dir_mode() -> u32 {
    0o40000u32
}

/// The tree entry one builder slot emits: a leaf passes through; a nested
/// builder becomes an entry named without the slash, with directory mode,
/// whose id is the hash of the subtree's encoded buffer.
pub open spec fn emit_slot(key: Seq<u8>, e: BuilderEntryModel) -> TreeEntryModel
    decreases e,
{
    match e {
        BuilderEntryModel::Blob(t) => t,
        BuilderEntryModel::Dir(sub) => TreeEntryModel {
            name: key.take(key.len() - 1),
            oid: sha1_of(
                spec_object_buffer(ObjectType::Tree, tree_body_bytes(emitted_entries(sub))),
            ),
            mode: dir_mode(),
        },
    }
}

/// The entries of the tree one builder level emits, in key order.
pub open spec fn emitted_entries(l: Seq<(Seq<u8>, BuilderEntryModel)>) -> Seq<TreeEntryModel>
    decreases l,
{
    if l.len() == 0 {
        Seq::empty()
    } else {
        emitted_entries(l.drop_last()).push(emit_slot(l.last().0, l.last().1))
    }
}

/// The trees one builder slot persists before its own level's tree: none for
/// a leaf; for a nested builder, its descendants' trees and then its own.
pub open spec fn flush_slot(e: BuilderEntryModel) -> Seq<Seq<TreeEntryModel>>
    decreases e,
{
    match e {
        BuilderEntryModel::Blob(_) => Seq::empty(),
        BuilderEntryModel::Dir(sub) => flushed_trees(sub).push(emitted_entries(sub)),
    }
}

/// All trees a builder level persists for its children, in key order.
pub open spec fn flushed_trees(l: Seq<(Seq<u8>, BuilderEntryModel)>) -> Seq<Seq<TreeEntryModel>>
    decreases l,
{
    if l.len() == 0 {
        Seq::empty()
    } else {
        flushed_trees(l.drop_last()) + flush_slot(l.last().1)
    }
}

/// Law: emission keeps the sibling order — one entry per slot, in place; a
/// leaf passes through under its own name, a directory entry is its key
/// without the trailing slash. With `keys_sorted` from `builder_wf` this is
/// the serialization order: names compared with directories carrying `/`.
pub proof fn lemma_emitted_entries(l: Seq<(Seq<u8>, BuilderEntryModel)>)
    ensures
        emitted_entries(l).len() == l.len(),
        forall|i: int|
            0 <= i < l.len() ==> #[trigger] emitted_entries(l)[i] == emit_slot(l[i].0, l[i].1),
    decreases l,
{
    if l.len() > 0 {
        lemma_emitted_entries(l.drop_last());
        assert(forall|i: int| 0 <= i < l.len() - 1 ==> l.drop_last()[i] == l[i]);
    }
}

/// The model trees a vector of trees stands for.
pub open spec fn trees_view(v: Seq<Tree>) -> Seq<Seq<TreeEntryModel>> {
    Seq::new(v.len(), |i: int| v[i]@)
}

impl TreeBuilder {
    /// Materialize every nested level into a concrete `Tree`, children
    /// before parents, appending them to `trees`; the returned index names
    /// this level's own tree, which comes last.
    #[verifier::loop_isolation(false)]
    pub fn make_trees(self, trees: &mut Vec<Tree>) -> (root: usize)
        requires
            builder_wf(builder_view(self)),
        ensures
            trees_view(final(trees)@) == trees_view(old(trees)@) + flushed_trees(
                builder_view(self),
            ).push(emitted_entries(builder_view(self))),
            final(trees)@.len() == old(trees)@.len() + flushed_trees(builder_view(self)).len()
                + 1,
            root == final(trees)@.len() - 1,
        decreases self,
    {
        let ghost b0 = self;
        let ghost l = builder_view(self);
        proof {
            lemma_builder_list_view(self.entries@);
        }
        let mut root = Tree::new();
        let mut entries = self.entries;
        let ghost whole = entries@;
        let ghost mut done: int = 0;
        proof {
            assert(whole.skip(0) =~= whole);
            assert(whole.take(0) =~= Seq::<(Vec<u8>, TreeBuilderEntry)>::empty());
            assert(builder_list_view(whole.take(0)) =~= Seq::<(Seq<u8>, BuilderEntryModel)>::empty());
            assert(trees_view(trees@) =~= trees_view(old(trees)@) + flushed_trees(
                builder_list_view(whole.take(0)),
            ));
        }
        while entries.len() > 0
            invariant
                0 <= done,
                done + entries@.len() == whole.len(),
                entries@ == whole.skip(done),
                root@ == emitted_entries(builder_list_view(whole.take(done))),
                trees_view(trees@) == trees_view(old(trees)@) + flushed_trees(
                    builder_list_view(whole.take(done)),
                ),
            decreases entries@.len(),
        {
            let kv = entries.remove(0);
            let ghost gkv = kv;
            proof {
                assert(whole.skip(done)[0] == whole[done]);
                assert(gkv == whole[done]);
                assert(whole.skip(done).drop_first() =~= whole.skip(done + 1));
                assert(l[done] == (gkv.0@, builder_entry_view(gkv.1)));
                assert(whole.take(done + 1) =~= whole.take(done).push(whole[done]));
                assert(builder_list_view(whole.take(done + 1)) =~= builder_list_view(
                    whole.take(done),
                ).push((gkv.0@, builder_entry_view(gkv.1)))) by {
                    let m = whole.take(done + 1);
                    assert(m.drop_last() =~= whole.take(done));
                    assert(m.last() == whole[done]);
                }
            }
            let ghost m0 = builder_list_view(whole.take(done));
            let ghost m1 = builder_list_view(whole.take(done + 1));
            let name = kv.0;
            match kv.1 {
                TreeBuilderEntry::Blob(b) => {
                    let ghost gb = b@;
                    root.push_entry(b);
                    proof {
                        assert(builder_entry_view(gkv.1) == BuilderEntryModel::Blob(gb));
                        assert(emitted_entries(m1) =~= emitted_entries(m0).push(
                            emit_slot(gkv.0@, BuilderEntryModel::Blob(gb)),
                        )) by {
                            assert(m1.drop_last() =~= m0);
                        }
                        assert(flushed_trees(m1) =~~= flushed_trees(m0)) by {
                            reveal_with_fuel(flushed_trees, 2);
                            reveal_with_fuel(flush_slot, 2);
                            assert(m1.drop_last() =~= m0);
                            assert(m1.last() == (gkv.0@, builder_entry_view(gkv.1)));
                            assert(flush_slot(BuilderEntryModel::Blob(gb))
                                =~~= Seq::<Seq<TreeEntryModel>>::empty());
                            assert(flushed_trees(m1) =~~= flushed_trees(m0) + Seq::<
                                Seq<TreeEntryModel>,
                            >::empty());
                        }
                        done = done + 1;
                    }
                },
                TreeBuilderEntry::Tree(child) => {
                    let ghost subv = builder_view(child);
                    proof {
                        assert(builder_entry_view(gkv.1) == BuilderEntryModel::Dir(subv));
                        lemma_entries_wf_index(l, done);
                        assert(keys_sorted(subv) && entries_wf(subv));
                        // the recursion consumes a value nested inside `self`
                        assert(whole == b0.entries@);
                        assert(decreases_to!(b0 => b0.entries));
                        assert(decreases_to!(b0.entries => b0.entries@));
                        assert(decreases_to!(b0.entries@ => b0.entries@[done]));
                        assert(decreases_to!(b0.entries@[done] => b0.entries@[done].1));
                        assert(b0.entries@[done].1 == TreeBuilderEntry::Tree(child));
                        assert(decreases_to!(b0.entries@[done].1 => b0.entries@[done].1->Tree_0));
                        assert(b0.entries@[done].1->Tree_0 == child);
                    }
                    let child_index = child.make_trees(trees);
                    let buffer = trees[child_index].to_buffer();
                    let oid = ObjectId::from_object_buffer(&buffer);
                    let mut dirname = name;
                    proof {
                        assert(gkv.0@.len() >= 2);
                    }
                    dirname.truncate(dirname.len() - 1);
                    let entry = TreeEntry { name: dirname, oid, mode: 0o40000 };
                    let ghost gentry = entry@;
                    root.push_entry(entry);
                    proof {
                        assert(trees_view(trees@)[child_index as int] == emitted_entries(subv));
                        assert(buffer@ == spec_object_buffer(
                            ObjectType::Tree,
                            tree_body_bytes(emitted_entries(subv)),
                        ));
                        assert(gentry == emit_slot(gkv.0@, BuilderEntryModel::Dir(subv))) by {
                            assert(gentry.name =~= gkv.0@.take(gkv.0@.len() - 1));
                        }
                        assert(emitted_entries(m1) =~= emitted_entries(m0).push(
                            emit_slot(gkv.0@, BuilderEntryModel::Dir(subv)),
                        )) by {
                            assert(m1.drop_last() =~= m0);
                        }
                        assert(flushed_trees(m1) =~~= flushed_trees(m0) + (flushed_trees(
                            subv,
                        ).push(emitted_entries(subv)))) by {
                            reveal_with_fuel(flushed_trees, 2);
                            reveal_with_fuel(flush_slot, 2);
                            assert(m1.drop_last() =~= m0);
                            assert(m1.last() == (gkv.0@, builder_entry_view(gkv.1)));
                        }
                        assert(trees_view(trees@) =~~= trees_view(old(trees)@) + flushed_trees(
                            m1,
                        ));
                        done = done + 1;
                    }
                },
            }
        }
        proof {
            assert(whole.take(done) =~= whole);
            assert(builder_list_view(whole) == l);
        }
        let ghost prevtv = trees_view(trees@);
        let ghost groot = root@;
        let root_index = trees.len();
        trees.push(root);
        proof {
            assert(groot == emitted_entries(l));
            assert(prevtv == trees_view(old(trees)@) + flushed_trees(l));
            assert(trees_view(trees@) =~~= prevtv.push(groot));
            assert(prevtv.push(groot) =~~= trees_view(old(trees)@) + flushed_trees(l).push(
                emitted_entries(l),
            ));
        }
        root_index
    }
}

} // verus!

verus! {

use crate::index::index_wf;
use crate::index::Index;
use crate::index::IndexEntryModel;
use crate::repository::Repository;

/// A path's components: the byte string split at every slash.
pub open spec fn spec_split_path(p: Seq<u8>) -> Seq<Seq<u8>>
    decreases p.len(),
    via spec_split_path_decreases
{
    match first_index_of(p, 47u8) {
        None => seq![p],
        Some(i) => seq![p.take(i)] + spec_split_path(p.skip(i + 1)),
    }
}

#[via_fn]
proof fn spec_split_path_decreases(p: Seq<u8>) {
    lemma_first_index_of(p, 47u8);
}

fn split_path(p: &[u8]) -> (r: Vec<Vec<u8>>)
    ensures
        components_view(r@) == spec_split_path(p@),
        r@.len() >= 1,
    decreases p@.len(),
{
    match find_byte(p, 47) {
        None => {
            let mut v: Vec<Vec<u8>> = Vec::new();
            v.push(vstd::slice::slice_to_vec(p));
            assert(components_view(v@) =~= spec_split_path(p@));
            v
        },
        Some(i) => {
            proof {
                lemma_first_index_of(p@, 47u8);
            }
            let plen = p.len();
            assert(i < plen);
            let head = vstd::slice::slice_to_vec(vstd::slice::slice_subrange(p, 0, i));
            let rest_slice = vstd::slice::slice_subrange(p, i + 1, plen);
            assert(rest_slice@ =~= p@.skip(i as int + 1));
            let mut rest = split_path(rest_slice);
            let mut v: Vec<Vec<u8>> = Vec::new();
            v.push(head);
            let ghost grest = rest@;
            v.append(&mut rest);
            proof {
                assert(v@ =~= seq![v@[0]] + grest);
                assert(v@[0]@ =~= p@.take(i as int));
                assert(components_view(v@) =~= seq![p@.take(i as int)] + components_view(grest));
                assert(components_view(v@) =~= spec_split_path(p@));
            }
            v
        },
    }
}

fn check_component(c: &[u8]) -> (r: bool)
    ensures
        r == valid_component(c@),
{
    if c.len() == 0 {
        return false;
    }
    let mut i: usize = 0;
    while i < c.len()
        invariant
            0 <= i <= c@.len(),
            forall|j: int| 0 <= j < i ==> c@[j] != 47u8 && c@[j] != 0u8,
        decreases c@.len() - i,
    {
        if c[i] == 47 || c[i] == 0 {
            return false;
        }
        i += 1;
    }
    true
}

/// What one index entry contributes to the builder: its path split into
/// directory components and a final name; a bad component or an occupied
/// slot spoils the build.
pub open spec fn spec_build_step(
    acc: Seq<(Seq<u8>, BuilderEntryModel)>,
    e: IndexEntryModel,
) -> Option<Seq<(Seq<u8>, BuilderEntryModel)>> {
    let comps = spec_split_path(e.path);
    let dirs = comps.drop_last();
    let name = comps.last();
    if (forall|i: int| 0 <= i < comps.len() ==> valid_component(#[trigger] comps[i]))
        && slot_free(acc, dirs, name) {
        Some(
            builder_add(
                acc,
                dirs,
                name,
                TreeEntryModel { name, oid: e.oid, mode: e.metadata.mode },
            ),
        )
    } else {
        None
    }
}

pub open spec fn spec_build_from(
    acc: Option<Seq<(Seq<u8>, BuilderEntryModel)>>,
    entries: Seq<IndexEntryModel>,
) -> Option<Seq<(Seq<u8>, BuilderEntryModel)>>
    decreases entries.len(),
{
    if entries.len() == 0 {
        acc
    } else {
        match acc {
            None => None,
            Some(l) => spec_build_from(spec_build_step(l, entries[0]), entries.drop_first()),
        }
    }
}

/// The builder a whole index yields, entry by entry in path order.
pub open spec fn spec_build_from_index(entries: Seq<IndexEntryModel>) -> Option<
    Seq<(Seq<u8>, BuilderEntryModel)>,
> {
    spec_build_from(Some(Seq::empty()), entries)
}

proof fn lemma_build_from_none(entries: Seq<IndexEntryModel>)
    ensures
        spec_build_from(None, entries) == None::<Seq<(Seq<u8>, BuilderEntryModel)>>,
    decreases entries.len(),
{
    if entries.len() > 0 {
        lemma_build_from_none(entries.drop_first());
    }
}

impl Repository {
    /// Group the whole index into a hierarchy of trees and compute every
    /// object this `write-tree` persists: each nested tree's encoded buffer
    /// with its id, children before parents, the root tree last. Returns the
    /// root tree's id beside them, or nothing if the index paths collide —
    /// a fatal state the design rules out.
    #[verifier::loop_isolation(false)]
    pub fn write_tree(&self, index: &Index) -> (r: Option<(ObjectId, Vec<(ObjectId, ObjectBuffer)>)>)
        requires
            index_wf(index@),
        ensures
            (r matches Some(p) ==> ({
                let l = spec_build_from_index(index@).unwrap();
                let all = flushed_trees(l).push(emitted_entries(l));
                &&& spec_build_from_index(index@) is Some
                &&& builder_wf(l)
                &&& p.1@.len() == all.len()
                &&& forall|i: int|
                    0 <= i < all.len() ==> (#[trigger] p.1@[i]).1@ == spec_object_buffer(
                        ObjectType::Tree,
                        tree_body_bytes(all[i]),
                    ) && p.1@[i].0.0@ == sha1_of(p.1@[i].1@)
                &&& p.0.0@ == sha1_of(
                    spec_object_buffer(ObjectType::Tree, tree_body_bytes(emitted_entries(l))),
                )
            })),
            (r is None ==> spec_build_from_index(index@) is None),
    {
        let entries = index.iter();
        let mut builder = TreeBuilder::new();
        let mut i: usize = 0;
        proof {
            assert(index@.skip(0) =~= index@);
        }
        while i < entries.len()
            invariant
                0 <= i <= entries@.len(),
                entries@.len() == index@.len(),
                builder_wf(builder_view(builder)),
                spec_build_from_index(index@) == spec_build_from(
                    Some(builder_view(builder)),
                    index@.skip(i as int),
                ),
            decreases entries@.len() - i,
        {
            let ghost e = index@[i as int];
            proof {
                assert(index@.skip(i as int)[0] == e);
                assert(index@.skip(i as int).drop_first() =~= index@.skip(i as int + 1));
            }
            let entry_ref = &entries[i];
            let mut comps = split_path(entry_ref.path.as_slice());
            proof {
                assert(components_view(comps@) == spec_split_path(e.path));
            }
            let mut k: usize = 0;
            let mut all_valid = true;
            while k < comps.len()
                invariant
                    0 <= k <= comps@.len(),
                    all_valid == (forall|j: int|
                        0 <= j < k ==> valid_component(#[trigger] components_view(comps@)[j])),
                decreases comps@.len() - k,
            {
                if !check_component(comps[k].as_slice()) {
                    all_valid = false;
                    proof {
                        assert(!valid_component(components_view(comps@)[k as int]));
                    }
                    break;
                }
                k += 1;
            }
            if !all_valid {
                proof {
                    assert(spec_build_step(builder_view(builder), e) is None);
                    lemma_build_from_none(index@.skip(i as int + 1));
                }
                return None;
            }
            let name = match comps.pop() {
                Some(n) => n,
                None => {
                    proof {
                        assert(false);
                    }
                    return None;
                },
            };
            proof {
                let cv = spec_split_path(e.path);
                assert(components_view(comps@) =~= cv.drop_last());
                assert(name@ == cv.last());
                assert(valid_component(name@)) by {
                    assert(components_view(comps@.push(name)).len() == cv.len());
                }
                assert forall|j: int| 0 <= j < comps@.len() implies valid_component(
                    #[trigger] comps@[j]@,
                ) by {
                    assert(components_view(comps@)[j] == comps@[j]@);
                    assert(valid_component(cv[j]));
                }
            }
            if !builder.slot_is_free(comps.as_slice(), name.as_slice()) {
                proof {
                    assert(spec_build_step(builder_view(builder), e) is None);
                    lemma_build_from_none(index@.skip(i as int + 1));
                }
                return None;
            }
            let entry_name = vstd::slice::slice_to_vec(name.as_slice());
            let entry = TreeEntry { name: entry_name, oid: entry_ref.oid, mode: entry_ref.metadata.mode };
            builder.add_entry(comps.as_slice(), name, entry);
            proof {
                assert(spec_build_from_index(index@) == spec_build_from(
                    Some(builder_view(builder)),
                    index@.skip(i as int + 1),
                ));
            }
            i += 1;
        }
        proof {
            assert(index@.skip(index@.len() as int) =~= Seq::<IndexEntryModel>::empty());
        }
        let ghost l = builder_view(builder);
        let mut trees: Vec<Tree> = Vec::new();
        let root_index = builder.make_trees(&mut trees);
        proof {
            assert(trees_view(trees@) =~= flushed_trees(l).push(emitted_entries(l))) by {
                assert(trees_view(Seq::<Tree>::empty()) =~= Seq::<Seq<TreeEntryModel>>::empty());
            }
        }
        let ghost all = flushed_trees(l).push(emitted_entries(l));
        let mut objects: Vec<(ObjectId, ObjectBuffer)> = Vec::new();
        let mut j: usize = 0;
        while j < trees.len()
            invariant
                0 <= j <= trees@.len(),
                objects@.len() == j,
                trees_view(trees@) == all,
                forall|k: int|
                    0 <= k < j ==> (#[trigger] objects@[k]).1@ == spec_object_buffer(
                        ObjectType::Tree,
                        tree_body_bytes(all[k]),
                    ) && objects@[k].0.0@ == sha1_of(objects@[k].1@),
            decreases trees@.len() - j,
        {
            let buffer = trees[j].to_buffer();
            proof {
                assert(trees@[j as int]@ == all[j as int]);
            }
            let oid = ObjectId::from_object_buffer(&buffer);
            objects.push((oid, buffer));
            j += 1;
        }
        let root_oid = objects[root_index].0;
        proof {
            assert(all[root_index as int] == emitted_entries(l));
        }
        Some((root_oid, objects))
    }
}

} // verus!

verus! {

/// Law: the builder's sibling-ordering invariant carries into emission —
/// one entry per slot, in place, so the emitted entries stand in the order
/// of the sorted keys, where a directory's key is its name with a trailing
/// slash. A leaf passes through under its own name; a directory entry drops
/// the slash and carries the directory mode.
pub proof fn lemma_tree_builder_ordering(l: Seq<(Seq<u8>, BuilderEntryModel)>)
    requires
        builder_wf(l),
    ensures
        emitted_entries(l).len() == l.len(),
        forall|i: int, j: int| 0 <= i < j < l.len() ==> lex_less(l[i].0, l[j].0),
        forall|i: int|
            0 <= i < l.len() ==> match l[i].1 {
                BuilderEntryModel::Blob(t) => #[trigger] emitted_entries(l)[i] == t && t.name
                    == l[i].0,
                BuilderEntryModel::Dir(_) => emitted_entries(l)[i].name == l[i].0.take(
                    l[i].0.len() - 1,
                ) && emitted_entries(l)[i].mode == dir_mode(),
            },
{
    lemma_emitted_entries(l);
    assert forall|i: int| 0 <= i < l.len() implies match l[i].1 {
        BuilderEntryModel::Blob(t) => #[trigger] emitted_entries(l)[i] == t && t.name == l[i].0,
        BuilderEntryModel::Dir(_) => emitted_entries(l)[i].name == l[i].0.take(l[i].0.len() - 1)
            && emitted_entries(l)[i].mode == dir_mode(),
    } by {
        lemma_entries_wf_index(l, i);
    }
}

} // verus!
