//! The staging area: an ordered, path-keyed table of entries with a fixed
//! binary on-disk layout (signature `DIRC`, version 2).

use vstd::prelude::*;

verus! {

use crate::object::tree::lemma_lex_transitive;
use crate::object::tree::lemma_lex_trichotomy;
use crate::object::tree::lex_less;
use crate::object::tree::lex_less_bytes;
use crate::oid::ObjectId;

/// The filesystem metadata recorded beside each staged path.
#[derive(Debug, Copy, Clone, PartialEq, Eq, Structural)]
pub struct EntryMetadata {
    pub ctime_seconds: u32,
    pub ctime_nanoseconds: u32,
    pub mtime_seconds: u32,
    pub mtime_nanoseconds: u32,
    pub dev: u32,
    pub ino: u32,
    pub mode: u32,
    pub uid: u32,
    pub gid: u32,
    pub file_size: u32,
}

struct IndexEntry {
    path: Vec<u8>,
    oid: ObjectId,
    metadata: EntryMetadata,
}

/// The mathematical shadow of one index entry.
pub struct IndexEntryModel {
    pub path: Seq<u8>,
    pub oid: Seq<u8>,
    pub metadata: EntryMetadata,
}

/// Memory representation of an index file: entries kept sorted by path.
pub struct Index {
    entries: Vec<IndexEntry>,
}

impl View for Index {
    type V = Seq<IndexEntryModel>;

    closed spec fn view(&self) -> Seq<IndexEntryModel> {
        Seq::new(
            self.entries@.len(),
            |i: int| IndexEntryModel {
                path: self.entries@[i].path@,
                oid: self.entries@[i].oid.0@,
                metadata: self.entries@[i].metadata,
            },
        )
    }
}

/// A reference to an entry.
#[derive(Copy, Clone)]
pub struct EntryRef<'index> {
    pub metadata: EntryMetadata,
    pub oid: ObjectId,
    pub path: &'index Vec<u8>,
}

/// A path the binary layout can carry: non-empty is not required, but its
/// length must fit the 16-bit length field and no byte may be the NUL that
/// terminates it on disk.
pub open spec fn valid_index_path(p: Seq<u8>) -> bool {
    p.len() <= 0xFFFF && forall|i: int| 0 <= i < p.len() ==> p[i] != 0u8
}

/// The table's invariant: paths strictly sorted (hence unique), each one
/// fit for the layout, ids 20 bytes.
pub open spec fn index_wf(entries: Seq<IndexEntryModel>) -> bool {
    &&& forall|i: int, j: int|
        0 <= i < j < entries.len() ==> lex_less(entries[i].path, entries[j].path)
    &&& forall|i: int| 0 <= i < entries.len() ==> valid_index_path(#[trigger] entries[i].path)
    &&& forall|i: int| 0 <= i < entries.len() ==> (#[trigger] entries[i].oid).len() == 20
}

// --- binary layout -------------------------------------------------------

/// Big-endian bytes of a 32-bit value.
pub open spec fn be32(x: u32) -> Seq<u8> {
    seq![
        (x / 0x1000000) as u8,
        ((x / 0x10000) % 256) as u8,
        ((x / 256) % 256) as u8,
        (x % 256) as u8,
    ]
}

/// Big-endian bytes of a 16-bit value.
pub open spec fn be16(x: u16) -> Seq<u8> {
    seq![(x / 256) as u8, (x % 256) as u8]
}

/// The 32-bit value four big-endian bytes denote.
pub open spec fn be32_val(b0: u8, b1: u8, b2: u8, b3: u8) -> u32 {
    (0x1000000 * (b0 as int) + 0x10000 * (b1 as int) + 256 * (b2 as int) + (b3 as int)) as u32
}

pub open spec fn be16_val(b0: u8, b1: u8) -> u16 {
    (256 * (b0 as int) + (b1 as int)) as u16
}

pub proof fn lemma_be32_round_trip(x: u32)
    ensures
        be32_val(be32(x)[0], be32(x)[1], be32(x)[2], be32(x)[3]) == x,
{
    assert(0x1000000 * ((x / 0x1000000) as u8 as int) + 0x10000 * (((x / 0x10000) % 256) as u8
        as int) + 256 * (((x / 256) % 256) as u8 as int) + ((x % 256) as u8 as int) == x)
        by (bit_vector);
}

pub proof fn lemma_be16_round_trip(x: u16)
    ensures
        be16_val(be16(x)[0], be16(x)[1]) == x,
{
    assert(256 * ((x / 256) as u8 as int) + ((x % 256) as u8 as int) == x) by (bit_vector);
}

/// The fixed 40 metadata bytes of one entry.
pub open spec fn metadata_bytes(m: EntryMetadata) -> Seq<u8> {
    be32(m.ctime_seconds) + be32(m.ctime_nanoseconds) + be32(m.mtime_seconds) + be32(
        m.mtime_nanoseconds,
    ) + be32(m.dev) + be32(m.ino) + be32(m.mode) + be32(m.uid) + be32(m.gid) + be32(m.file_size)
}

/// Zero padding after the path: up to the next multiple of 8 for the whole
/// entry (62 fixed bytes plus the path), at least the one NUL terminator,
/// at most 8 bytes.
pub open spec fn pad_len(path_len: int) -> int {
    8 - ((62 + path_len) % 8)
}

pub open spec fn zero_bytes(n: int) -> Seq<u8> {
    Seq::new(n as nat, |i: int| 0u8)
}

/// One entry's bytes: metadata, raw id, big-endian path length, the path,
/// and zero padding that includes its NUL terminator.
pub open spec fn index_entry_bytes(e: IndexEntryModel) -> Seq<u8> {
    metadata_bytes(e.metadata) + e.oid + be16(e.path.len() as u16) + e.path + zero_bytes(
        pad_len(e.path.len() as int),
    )
}

pub open spec fn index_entries_bytes(entries: Seq<IndexEntryModel>) -> Seq<u8>
    decreases entries.len(),
{
    if entries.len() == 0 {
        Seq::empty()
    } else {
        index_entry_bytes(entries[0]) + index_entries_bytes(entries.drop_first())
    }
}

pub proof fn lemma_index_entries_bytes_snoc(entries: Seq<IndexEntryModel>, e: IndexEntryModel)
    ensures
        index_entries_bytes(entries.push(e)) == index_entries_bytes(entries) + index_entry_bytes(
            e,
        ),
    decreases entries.len(),
{
    reveal_with_fuel(index_entries_bytes, 3);
    if entries.len() == 0 {
        assert(entries.push(e) =~= seq![e]);
        assert(seq![e].drop_first() =~= Seq::<IndexEntryModel>::empty());
        assert(index_entries_bytes(entries.push(e)) =~= index_entries_bytes(entries)
            + index_entry_bytes(e));
    } else {
        assert(entries.push(e)[0] == entries[0]);
        assert(entries.push(e).drop_first() =~= entries.drop_first().push(e));
        lemma_index_entries_bytes_snoc(entries.drop_first(), e);
        assert(index_entries_bytes(entries.push(e)) =~= index_entries_bytes(entries)
            + index_entry_bytes(e));
    }
}

/// The whole file: `DIRC`, version 2, the entry count, then the entries in
/// path order.
pub open spec fn index_bytes(entries: Seq<IndexEntryModel>) -> Seq<u8> {
    seq![68u8, 73u8, 82u8, 67u8] + be32(2) + be32(entries.len() as u32) + index_entries_bytes(
        entries,
    )
}

// --- writers -------------------------------------------------------------

fn push_be32(out: &mut Vec<u8>, x: u32)
    ensures
        final(out)@ == old(out)@ + be32(x),
{
    out.push((x / 0x1000000) as u8);
    out.push(((x / 0x10000) % 256) as u8);
    out.push(((x / 256) % 256) as u8);
    out.push((x % 256) as u8);
    assert(final(out)@ =~= old(out)@ + be32(x));
}

fn push_be16(out: &mut Vec<u8>, x: u16)
    ensures
        final(out)@ == old(out)@ + be16(x),
{
    out.push((x / 256) as u8);
    out.push((x % 256) as u8);
    assert(final(out)@ =~= old(out)@ + be16(x));
}

#[verifier::rlimit(100)]
fn write_metadata(writer: &mut Vec<u8>, metadata: &EntryMetadata)
    ensures
        final(writer)@ == old(writer)@ + metadata_bytes(*metadata),
{
    push_be32(writer, metadata.ctime_seconds);
    push_be32(writer, metadata.ctime_nanoseconds);
    push_be32(writer, metadata.mtime_seconds);
    push_be32(writer, metadata.mtime_nanoseconds);
    push_be32(writer, metadata.dev);
    push_be32(writer, metadata.ino);
    push_be32(writer, metadata.mode);
    push_be32(writer, metadata.uid);
    push_be32(writer, metadata.gid);
    push_be32(writer, metadata.file_size);
    assert(final(writer)@ =~= old(writer)@ + metadata_bytes(*metadata));
}

fn write_oid(writer: &mut Vec<u8>, oid: ObjectId)
    ensures
        final(writer)@ == old(writer)@ + oid.0@,
{
    writer.extend_from_slice(oid.0.as_slice());
}

// Write the length-prefixed path and return its length.
fn write_path(writer: &mut Vec<u8>, path: &[u8]) -> (path_len: usize)
    requires
        path@.len() <= 0xFFFF,
    ensures
        final(writer)@ == old(writer)@ + be16(path@.len() as u16) + path@,
        path_len == path@.len(),
{
    push_be16(writer, path.len() as u16);
    writer.extend_from_slice(path);
    path.len()
}

fn write_paddings(writer: &mut Vec<u8>, path_len: usize)
    requires
        path_len <= 0xFFFF,
    ensures
        final(writer)@ == old(writer)@ + zero_bytes(pad_len(path_len as int)),
{
    let total_size: usize = 62 + path_len;
    let padded_size: usize = (total_size / 8 + 1) * 8;
    assert(padded_size - total_size == pad_len(path_len as int)) by {
        assert(total_size / 8 * 8 + total_size % 8 == total_size);
    }
    let mut i: usize = total_size;
    while i < padded_size
        invariant
            total_size <= i <= padded_size,
            padded_size - total_size == pad_len(path_len as int),
            writer@ == old(writer)@ + zero_bytes(i - total_size),
        decreases padded_size - i,
    {
        writer.push(0);
        assert(writer@ =~= old(writer)@ + zero_bytes(i + 1 - total_size));
        i += 1;
    }
    assert(writer@ =~= old(writer)@ + zero_bytes(pad_len(path_len as int)));
}

// --- the table -----------------------------------------------------------

/// Insert-or-replace keyed by path, keeping the sorted order.
pub open spec fn spec_index_add(entries: Seq<IndexEntryModel>, e: IndexEntryModel) -> Seq<
    IndexEntryModel,
>
    decreases entries.len(),
{
    if entries.len() == 0 {
        seq![e]
    } else if lex_less(e.path, entries[0].path) {
        seq![e] + entries
    } else if e.path == entries[0].path {
        seq![e] + entries.drop_first()
    } else {
        seq![entries[0]] + spec_index_add(entries.drop_first(), e)
    }
}

pub proof fn lemma_index_add_at(entries: Seq<IndexEntryModel>, e: IndexEntryModel, idx: int)
    requires
        0 <= idx <= entries.len(),
        forall|j: int| 0 <= j < idx ==> lex_less(#[trigger] entries[j].path, e.path),
        idx < entries.len() ==> !lex_less(entries[idx].path, e.path),
    ensures
        spec_index_add(entries, e) == (if idx < entries.len() && entries[idx].path == e.path {
            entries.take(idx) + seq![e] + entries.skip(idx + 1)
        } else {
            entries.take(idx) + seq![e] + entries.skip(idx)
        }),
    decreases idx,
{
    if idx == 0 {
        if entries.len() == 0 {
            assert(spec_index_add(entries, e) =~= entries.take(0) + seq![e] + entries.skip(0));
        } else if entries[0].path == e.path {
            assert(spec_index_add(entries, e) =~= entries.take(0) + seq![e] + entries.skip(1));
        } else {
            lemma_lex_trichotomy(entries[0].path, e.path);
            assert(lex_less(e.path, entries[0].path));
            assert(spec_index_add(entries, e) =~= entries.take(0) + seq![e] + entries.skip(0));
        }
    } else {
        lemma_lex_trichotomy(entries[0].path, e.path);
        let t = entries.drop_first();
        assert(forall|j: int| 0 <= j < t.len() ==> t[j] == entries[j + 1]);
        lemma_index_add_at(t, e, idx - 1);
        if idx < entries.len() && entries[idx].path == e.path {
            assert(seq![entries[0]] + (t.take(idx - 1) + seq![e] + t.skip(idx)) =~= entries.take(
                idx,
            ) + seq![e] + entries.skip(idx + 1));
        } else {
            assert(seq![entries[0]] + (t.take(idx - 1) + seq![e] + t.skip(idx - 1))
                =~= entries.take(idx) + seq![e] + entries.skip(idx));
        }
    }
}

impl Index {
    /// Append one entry's on-disk bytes.
    #[verifier::rlimit(100)]
    fn write_entry(out: &mut Vec<u8>, entry: &IndexEntry)
        requires
            entry.path@.len() <= 0xFFFF,
        ensures
            final(out)@ == old(out)@ + index_entry_bytes(
                IndexEntryModel { path: entry.path@, oid: entry.oid.0@, metadata: entry.metadata },
            ),
    {
        write_metadata(out, &entry.metadata);
        write_oid(out, entry.oid);
        let path_len = write_path(out, entry.path.as_slice());
        write_paddings(out, path_len);
        assert(final(out)@ =~= old(out)@ + index_entry_bytes(
            IndexEntryModel { path: entry.path@, oid: entry.oid.0@, metadata: entry.metadata },
        ));
    }

    /// An empty table, as an absent index file denotes.
    pub fn new() -> (r: Self)
        ensures
            r@ == Seq::<IndexEntryModel>::empty(),
            index_wf(r@),
    {
        let idx = Index { entries: Vec::new() };
        proof {
            assert(idx@ =~= Seq::<IndexEntryModel>::empty());
        }
        idx
    }

    /// Every entry, in path order.
    pub fn iter(&self) -> (r: Vec<EntryRef>)
        ensures
            r@.len() == self@.len(),
            forall|i: int|
                0 <= i < r@.len() ==> (#[trigger] r@[i]).path@ == self@[i].path && r@[i].oid.0@
                    == self@[i].oid && r@[i].metadata == self@[i].metadata,
    {
        let mut out: Vec<EntryRef> = Vec::new();
        let mut i: usize = 0;
        while i < self.entries.len()
            invariant
                0 <= i <= self.entries@.len(),
                self@.len() == self.entries@.len(),
                out@.len() == i,
                forall|j: int|
                    0 <= j < i ==> (#[trigger] out@[j]).path@ == self@[j].path && out@[j].oid.0@
                        == self@[j].oid && out@[j].metadata == self@[j].metadata,
            decreases self.entries@.len() - i,
        {
            let entry = &self.entries[i];
            out.push(EntryRef { metadata: entry.metadata, oid: entry.oid, path: &entry.path });
            i += 1;
        }
        out
    }

    /// Insert-or-replace keyed by path; the caller supplies the metadata.
    #[verifier::loop_isolation(false)]
    pub fn add(&mut self, path: Vec<u8>, oid: ObjectId, metadata: EntryMetadata)
        requires
            index_wf(old(self)@),
            valid_index_path(path@),
        ensures
            final(self)@ == spec_index_add(
                old(self)@,
                IndexEntryModel { path: path@, oid: oid.0@, metadata },
            ),
            index_wf(final(self)@),
    {
        let ghost l = old(self)@;
        let ghost ge = IndexEntryModel { path: path@, oid: oid.0@, metadata };
        let mut idx: usize = 0;
        while idx < self.entries.len() && lex_less_bytes(
            self.entries[idx].path.as_slice(),
            path.as_slice(),
        )
            invariant
                0 <= idx <= self.entries@.len(),
                forall|j: int| 0 <= j < idx ==> lex_less(#[trigger] l[j].path, path@),
            decreases self.entries@.len() - idx,
        {
            idx += 1;
        }
        let at_key: bool = idx < self.entries.len() && !lex_less_bytes(
            path.as_slice(),
            self.entries[idx].path.as_slice(),
        );
        proof {
            if idx < self.entries@.len() {
                lemma_lex_trichotomy(l[idx as int].path, path@);
            }
            assert(at_key == (idx < l.len() && l[idx as int].path == path@));
            lemma_index_add_at(l, ge, idx as int);
        }
        if at_key {
            self.entries.remove(idx);
            self.entries.insert(idx, IndexEntry { path, oid, metadata });
            proof {
                let newv = final(self)@;
                assert(newv =~= l.take(idx as int) + seq![ge] + l.skip(idx as int + 1));
                assert forall|a: int, b: int| 0 <= a < b < newv.len() implies lex_less(
                    newv[a].path,
                    newv[b].path,
                ) by {
                    assert(newv[a].path == l[a].path);
                    assert(newv[b].path == l[b].path);
                }
            }
        } else {
            self.entries.insert(idx, IndexEntry { path, oid, metadata });
            proof {
                let newv = final(self)@;
                assert(newv =~= l.take(idx as int) + seq![ge] + l.skip(idx as int));
                assert forall|a: int, b: int| 0 <= a < b < newv.len() implies lex_less(
                    newv[a].path,
                    newv[b].path,
                ) by {
                    let i = idx as int;
                    if a == i && b > i {
                        assert(idx < l.len());
                        lemma_lex_trichotomy(l[i].path, ge.path);
                        assert(lex_less(ge.path, l[i].path));
                        if b - 1 > i {
                            assert(lex_less(l[i].path, l[b - 1].path));
                            lemma_lex_transitive(ge.path, l[i].path, l[b - 1].path);
                        }
                    }
                }
            }
        }
    }

    /// Emit the binary layout, entries in ascending path order: a direct
    /// traversal, the table being kept sorted.
    #[verifier::rlimit(100)]
    #[verifier::loop_isolation(false)]
    pub fn write_to(&self, out: &mut Vec<u8>)
        requires
            index_wf(self@),
            self@.len() <= u32::MAX,
        ensures
            final(out)@ == old(out)@ + index_bytes(self@),
    {
        out.push(68);
        out.push(73);
        out.push(82);
        out.push(67);
        push_be32(out, 2);
        push_be32(out, self.entries.len() as u32);
        assert(out@ =~= old(out)@ + (seq![68u8, 73u8, 82u8, 67u8] + be32(2) + be32(
            self@.len() as u32,
        )));
        let ghost header = seq![68u8, 73u8, 82u8, 67u8] + be32(2) + be32(self@.len() as u32);
        let mut i: usize = 0;
        assert(index_entries_bytes(self@.take(0)) =~= Seq::<u8>::empty()) by {
            assert(self@.take(0) =~= Seq::<IndexEntryModel>::empty());
        }
        while i < self.entries.len()
            invariant
                0 <= i <= self.entries@.len(),
                self@.len() == self.entries@.len(),
                index_wf(self@),
                out@ == old(out)@ + header + index_entries_bytes(self@.take(i as int)),
            decreases self.entries@.len() - i,
        {
            let entry = &self.entries[i];
            proof {
                assert(valid_index_path(self@[i as int].path));
            }
            Index::write_entry(out, entry);
            proof {
                lemma_index_entries_bytes_snoc(self@.take(i as int), self@[i as int]);
                assert(self@.take(i as int + 1) =~= self@.take(i as int).push(self@[i as int]));
                assert(out@ =~= old(out)@ + header + index_entries_bytes(
                    self@.take(i as int + 1),
                ));
            }
            i += 1;
        }
        assert(self@.take(self.entries@.len() as int) =~= self@);
        assert(final(out)@ =~= old(out)@ + index_bytes(self@));
    }
}

} // verus!

verus! {

use crate::utils::find_byte;
use crate::utils::first_index_of;
use crate::utils::lemma_first_index_of;

/// How an index file fails to parse. All of these are fatal: no
/// backward- or forward-compatibility shimming is attempted.
#[derive(Debug, Clone, Copy, PartialEq, Eq, Structural)]
pub enum IndexFormatError {
    /// The signature is not `DIRC`.
    BadSignature,
    /// Only version 2 is supported; any other version number is fatal.
    UnsupportedVersion,
    Truncated,
    /// The path is not terminated by NUL exactly where its length field says.
    CorruptEntry,
}

/// Parsing `count` entries off the front of `data`; trailing bytes are
/// ignored.
pub open spec fn spec_parse_index_entries(data: Seq<u8>, count: int) -> Result<
    Seq<IndexEntryModel>,
    IndexFormatError,
>
    decreases count,
{
    if count <= 0 {
        Ok(Seq::empty())
    } else if data.len() < 62 {
        Err(IndexFormatError::Truncated)
    } else {
        let plen = be16_val(data[60], data[61]) as int;
        if data.len() < 62 + plen + pad_len(plen) {
            Err(IndexFormatError::Truncated)
        } else if data[62 + plen] != 0u8 || (exists|j: int| 62 <= j < 62 + plen && data[j] == 0u8) {
            Err(IndexFormatError::CorruptEntry)
        } else {
            let m = EntryMetadata {
                ctime_seconds: be32_val(data[0], data[1], data[2], data[3]),
                ctime_nanoseconds: be32_val(data[4], data[5], data[6], data[7]),
                mtime_seconds: be32_val(data[8], data[9], data[10], data[11]),
                mtime_nanoseconds: be32_val(data[12], data[13], data[14], data[15]),
                dev: be32_val(data[16], data[17], data[18], data[19]),
                ino: be32_val(data[20], data[21], data[22], data[23]),
                mode: be32_val(data[24], data[25], data[26], data[27]),
                uid: be32_val(data[28], data[29], data[30], data[31]),
                gid: be32_val(data[32], data[33], data[34], data[35]),
                file_size: be32_val(data[36], data[37], data[38], data[39]),
            };
            let e = IndexEntryModel {
                path: data.subrange(62, 62 + plen),
                oid: data.subrange(40, 60),
                metadata: m,
            };
            match spec_parse_index_entries(data.skip(62 + plen + pad_len(plen)), count - 1) {
                Err(er) => Err(er),
                Ok(tail) => Ok(seq![e] + tail),
            }
        }
    }
}

/// Parsing a whole index file: the signature, the version (2 only), the
/// entry count, then that many entries.
pub open spec fn spec_parse_index(data: Seq<u8>) -> Result<Seq<IndexEntryModel>, IndexFormatError> {
    if data.len() < 4 {
        Err(IndexFormatError::Truncated)
    } else if data.subrange(0, 4) != seq![68u8, 73u8, 82u8, 67u8] {
        Err(IndexFormatError::BadSignature)
    } else if data.len() < 8 {
        Err(IndexFormatError::Truncated)
    } else if be32_val(data[4], data[5], data[6], data[7]) != 2 {
        Err(IndexFormatError::UnsupportedVersion)
    } else if data.len() < 12 {
        Err(IndexFormatError::Truncated)
    } else {
        spec_parse_index_entries(data.skip(12), be32_val(data[8], data[9], data[10], data[11]) as int)
    }
}

/// Folding the parsed entries into a table, first to last: what reading a
/// file into the path-ordered table means.
pub open spec fn spec_index_add_all(l: Seq<IndexEntryModel>, models: Seq<IndexEntryModel>) -> Seq<
    IndexEntryModel,
>
    decreases models.len(),
{
    if models.len() == 0 {
        l
    } else {
        spec_index_add_all(spec_index_add(l, models[0]), models.drop_first())
    }
}

fn read_be32_at(data: &[u8], pos: usize) -> (r: u32)
    requires
        pos + 4 <= data@.len(),
    ensures
        r == be32_val(data@[pos as int], data@[pos as int + 1], data@[pos as int + 2], data@[pos as int + 3]),
{
    (data[pos] as u32) * 0x1000000 + (data[pos + 1] as u32) * 0x10000 + (data[pos + 2] as u32)
        * 256 + (data[pos + 3] as u32)
}

fn read_be16_at(data: &[u8], pos: usize) -> (r: u16)
    requires
        pos + 2 <= data@.len(),
    ensures
        r == be16_val(data@[pos as int], data@[pos as int + 1]),
{
    (data[pos] as u16) * 256 + (data[pos + 1] as u16)
}

impl Index {
    #[verifier::rlimit(60)]
    fn parse_entries_into(data: &[u8], count: u32, idx: &mut Index) -> (r: Result<
        (),
        IndexFormatError,
    >)
        requires
            index_wf(old(idx)@),
        ensures
            match spec_parse_index_entries(data@, count as int) {
                Ok(models) => r is Ok && final(idx)@ == spec_index_add_all(old(idx)@, models)
                    && index_wf(final(idx)@),
                Err(e) => r == Err::<(), IndexFormatError>(e),
            },
        decreases count,
    {
        if count == 0 {
            return Ok(());
        }
        if data.len() < 62 {
            return Err(IndexFormatError::Truncated);
        }
        let plen = read_be16_at(data, 60) as usize;
        let pad: usize = 8 - ((62 + plen) % 8);
        if data.len() - 62 < plen || data.len() - 62 - plen < pad {
            assert(data@.len() < 62 + plen + pad_len(plen as int));
            return Err(IndexFormatError::Truncated);
        }
        assert(data@.len() >= 62 + plen + pad_len(plen as int));
        assert(pad_len(plen as int) >= 1);
        if data[62 + plen] != 0 {
            return Err(IndexFormatError::CorruptEntry);
        }
        let path_slice = vstd::slice::slice_subrange(data, 62, 62 + plen);
        assert(path_slice@ =~= data@.subrange(62, 62 + plen as int));
        match find_byte(path_slice, 0) {
            Some(_) => {
                proof {
                    lemma_first_index_of(path_slice@, 0u8);
                    assert(exists|j: int| 62 <= j < 62 + plen && data@[j] == 0u8) by {
                        let k = choose|k: int|
                            0 <= k < path_slice@.len() && path_slice@[k] == 0u8 && first_index_of(
                                path_slice@,
                                0u8,
                            ) == Some(k);
                        assert(data@[62 + k] == 0u8);
                    }
                }
                return Err(IndexFormatError::CorruptEntry);
            },
            None => {
                proof {
                    lemma_first_index_of(path_slice@, 0u8);
                    assert forall|j: int| 62 <= j < 62 + plen implies data@[j] != 0u8 by {
                        assert(path_slice@[j - 62] == data@[j]);
                    }
                }
            },
        }
        let metadata = EntryMetadata {
            ctime_seconds: read_be32_at(data, 0),
            ctime_nanoseconds: read_be32_at(data, 4),
            mtime_seconds: read_be32_at(data, 8),
            mtime_nanoseconds: read_be32_at(data, 12),
            dev: read_be32_at(data, 16),
            ino: read_be32_at(data, 20),
            mode: read_be32_at(data, 24),
            uid: read_be32_at(data, 28),
            gid: read_be32_at(data, 32),
            file_size: read_be32_at(data, 36),
        };
        let mut oid: [u8; 20] = [0u8; 20];
        let mut k: usize = 0;
        while k < 20
            invariant
                0 <= k <= 20,
                data@.len() >= 62,
                forall|j: int| 0 <= j < k ==> oid@[j] == data@[40 + j],
            decreases 20 - k,
        {
            oid[k] = data[40 + k];
            k += 1;
        }
        assert(oid@ =~= data@.subrange(40, 60));
        let path = vstd::slice::slice_to_vec(path_slice);
        let ghost e = IndexEntryModel { path: path@, oid: oid@, metadata };
        let ghost before = idx@;
        idx.add(path, crate::oid::ObjectId(oid), metadata);
        let rest = vstd::slice::slice_subrange(data, 62 + plen + pad, data.len());
        assert(rest@ =~= data@.skip(62 + plen as int + pad_len(plen as int)));
        let r = Index::parse_entries_into(rest, count - 1, idx);
        proof {
            match spec_parse_index_entries(rest@, count as int - 1) {
                Ok(tail) => {
                    assert(spec_parse_index_entries(data@, count as int) == Ok::<
                        _,
                        IndexFormatError,
                    >(seq![e] + tail));
                    assert((seq![e] + tail).drop_first() =~= tail);
                    assert((seq![e] + tail)[0] == e);
                    assert(spec_index_add_all(before, seq![e] + tail) == spec_index_add_all(
                        spec_index_add(before, e),
                        tail,
                    ));
                },
                Err(_) => {},
            }
        }
        r
    }

    /// Read the binary layout into a path-ordered table. The entries land
    /// in the table through `add`, so even an ill-ordered file yields a
    /// sorted table.
    pub fn parse(data: &[u8]) -> (r: Result<Index, IndexFormatError>)
        ensures
            match spec_parse_index(data@) {
                Ok(models) => r matches Ok(ix) && ix@ == spec_index_add_all(
                    Seq::empty(),
                    models,
                ) && index_wf(ix@),
                Err(e) => r == Err::<Index, IndexFormatError>(e),
            },
    {
        if data.len() < 4 {
            return Err(IndexFormatError::Truncated);
        }
        if !(data[0] == 68 && data[1] == 73 && data[2] == 82 && data[3] == 67) {
            proof {
                if data@.subrange(0, 4) == seq![68u8, 73u8, 82u8, 67u8] {
                    assert(data@[0] == data@.subrange(0, 4)[0]);
                    assert(data@[1] == data@.subrange(0, 4)[1]);
                    assert(data@[2] == data@.subrange(0, 4)[2]);
                    assert(data@[3] == data@.subrange(0, 4)[3]);
                }
            }
            return Err(IndexFormatError::BadSignature);
        }
        assert(data@.subrange(0, 4) =~= seq![68u8, 73u8, 82u8, 67u8]);
        if data.len() < 8 {
            return Err(IndexFormatError::Truncated);
        }
        if read_be32_at(data, 4) != 2 {
            return Err(IndexFormatError::UnsupportedVersion);
        }
        if data.len() < 12 {
            return Err(IndexFormatError::Truncated);
        }
        let count = read_be32_at(data, 8);
        let body = vstd::slice::slice_subrange(data, 12, data.len());
        assert(body@ =~= data@.skip(12));
        let mut idx = Index::new();
        match Index::parse_entries_into(body, count, &mut idx) {
            Ok(()) => Ok(idx),
            Err(e) => Err(e),
        }
    }
}

} // verus!

verus! {

#[verifier::rlimit(100)]
#[verifier::spinoff_prover]
proof fn lemma_parse_metadata_lo(m: EntryMetadata, suffix: Seq<u8>)
    ensures
        ({
            let d = metadata_bytes(m) + suffix;
            &&& be32_val(d[0], d[1], d[2], d[3]) == m.ctime_seconds
            &&& be32_val(d[4], d[5], d[6], d[7]) == m.ctime_nanoseconds
            &&& be32_val(d[8], d[9], d[10], d[11]) == m.mtime_seconds
            &&& be32_val(d[12], d[13], d[14], d[15]) == m.mtime_nanoseconds
            &&& be32_val(d[16], d[17], d[18], d[19]) == m.dev
        }),
{
    lemma_be32_round_trip(m.ctime_seconds);
    lemma_be32_round_trip(m.ctime_nanoseconds);
    lemma_be32_round_trip(m.mtime_seconds);
    lemma_be32_round_trip(m.mtime_nanoseconds);
    lemma_be32_round_trip(m.dev);
}

#[verifier::rlimit(100)]
#[verifier::spinoff_prover]
proof fn lemma_parse_metadata_hi(m: EntryMetadata, suffix: Seq<u8>)
    ensures
        ({
            let d = metadata_bytes(m) + suffix;
            &&& be32_val(d[20], d[21], d[22], d[23]) == m.ino
            &&& be32_val(d[24], d[25], d[26], d[27]) == m.mode
            &&& be32_val(d[28], d[29], d[30], d[31]) == m.uid
            &&& be32_val(d[32], d[33], d[34], d[35]) == m.gid
            &&& be32_val(d[36], d[37], d[38], d[39]) == m.file_size
        }),
{
    lemma_be32_round_trip(m.ino);
    lemma_be32_round_trip(m.mode);
    lemma_be32_round_trip(m.uid);
    lemma_be32_round_trip(m.gid);
    lemma_be32_round_trip(m.file_size);
}

#[verifier::rlimit(100)]
#[verifier::spinoff_prover]
proof fn lemma_parse_one_entry(e: IndexEntryModel, rest: Seq<u8>, count: int)
    requires
        valid_index_path(e.path),
        e.oid.len() == 20,
        count >= 1,
    ensures
        spec_parse_index_entries(index_entry_bytes(e) + rest, count) == (
        match spec_parse_index_entries(rest, count - 1) {
            Ok(tail) => Ok::<_, IndexFormatError>(seq![e] + tail),
            Err(er) => Err(er),
        }),
{
    let data = index_entry_bytes(e) + rest;
    let mb = metadata_bytes(e.metadata);
    let plen = e.path.len() as int;
    assert(mb.len() == 40);
    assert(index_entry_bytes(e).len() == 62 + plen + pad_len(plen));
    assert(pad_len(plen) >= 1);

    lemma_be16_round_trip(e.path.len() as u16);
    assert(data[60] == be16(e.path.len() as u16)[0]);
    assert(data[61] == be16(e.path.len() as u16)[1]);
    assert(be16_val(data[60], data[61]) as int == plen);

    assert(data[62 + plen] == zero_bytes(pad_len(plen))[0]);
    assert(data[62 + plen] == 0u8);
    assert forall|j: int| 62 <= j < 62 + plen implies data[j] != 0u8 by {
        assert(data[j] == e.path[j - 62]);
    }

    lemma_parse_metadata_lo(e.metadata, e.oid + be16(e.path.len() as u16) + e.path + zero_bytes(
        pad_len(plen),
    ) + rest);
    lemma_parse_metadata_hi(e.metadata, e.oid + be16(e.path.len() as u16) + e.path + zero_bytes(
        pad_len(plen),
    ) + rest);
    assert(data =~= metadata_bytes(e.metadata) + (e.oid + be16(e.path.len() as u16) + e.path
        + zero_bytes(pad_len(plen)) + rest));
    let parsed_m = EntryMetadata {
        ctime_seconds: be32_val(data[0], data[1], data[2], data[3]),
        ctime_nanoseconds: be32_val(data[4], data[5], data[6], data[7]),
        mtime_seconds: be32_val(data[8], data[9], data[10], data[11]),
        mtime_nanoseconds: be32_val(data[12], data[13], data[14], data[15]),
        dev: be32_val(data[16], data[17], data[18], data[19]),
        ino: be32_val(data[20], data[21], data[22], data[23]),
        mode: be32_val(data[24], data[25], data[26], data[27]),
        uid: be32_val(data[28], data[29], data[30], data[31]),
        gid: be32_val(data[32], data[33], data[34], data[35]),
        file_size: be32_val(data[36], data[37], data[38], data[39]),
    };
    assert(parsed_m == e.metadata);

    assert(data.subrange(40, 60) =~= e.oid);
    assert(data.subrange(62, 62 + plen) =~= e.path);
    assert(data.skip(62 + plen + pad_len(plen)) =~= rest);
}

proof fn lemma_index_wf_drop_first(entries: Seq<IndexEntryModel>)
    requires
        index_wf(entries),
        entries.len() > 0,
    ensures
        index_wf(entries.drop_first()),
{
    assert(forall|j: int| 0 <= j < entries.len() - 1 ==> entries.drop_first()[j] == entries[j + 1]);
}

#[verifier::rlimit(100)]
proof fn lemma_index_entries_round_trip(entries: Seq<IndexEntryModel>)
    requires
        index_wf(entries),
    ensures
        spec_parse_index_entries(index_entries_bytes(entries), entries.len() as int) == Ok::<
            _,
            IndexFormatError,
        >(entries),
    decreases entries.len(),
{
    if entries.len() == 0 {
        assert(entries =~= Seq::<IndexEntryModel>::empty());
    } else {
        let e = entries[0];
        let rest = index_entries_bytes(entries.drop_first());
        assert(index_entries_bytes(entries) == index_entry_bytes(e) + rest);
        assert(valid_index_path(e.path));
        assert(e.oid.len() == 20);
        lemma_parse_one_entry(e, rest, entries.len() as int);
        lemma_index_wf_drop_first(entries);
        lemma_index_entries_round_trip(entries.drop_first());
        assert(spec_parse_index_entries(rest, entries.len() as int - 1) == Ok::<
            _,
            IndexFormatError,
        >(entries.drop_first()));
        assert(seq![e] + entries.drop_first() =~= entries);
        assert(spec_parse_index_entries(index_entry_bytes(e) + rest, entries.len() as int)
            == Ok::<_, IndexFormatError>(entries));
    }
}

proof fn lemma_index_add_all_sorted(acc: Seq<IndexEntryModel>, models: Seq<IndexEntryModel>)
    requires
        index_wf(acc + models),
    ensures
        spec_index_add_all(acc, models) == acc + models,
    decreases models.len(),
{
    let whole = acc + models;
    if models.len() == 0 {
        assert(acc + models =~= acc);
    } else {
        let e = models[0];
        assert(e == whole[acc.len() as int]);
        assert forall|j: int| 0 <= j < acc.len() implies lex_less(
            #[trigger] acc[j].path,
            e.path,
        ) by {
            assert(acc[j] == whole[j]);
        }
        lemma_index_add_at(acc, e, acc.len() as int);
        assert(spec_index_add(acc, e) =~= acc.push(e)) by {
            assert(acc.take(acc.len() as int) =~= acc);
            assert(acc.skip(acc.len() as int) =~= Seq::<IndexEntryModel>::empty());
        }
        assert(acc.push(e) + models.drop_first() =~= acc + models);
        lemma_index_add_all_sorted(acc.push(e), models.drop_first());
    }
}

/// Law: the index round-trips — writing a well-formed table and reading the
/// bytes back yields the same entries, in the same path order, and refilling
/// a table from them reproduces it.
pub proof fn lemma_index_round_trip(entries: Seq<IndexEntryModel>)
    requires
        index_wf(entries),
        entries.len() <= u32::MAX,
    ensures
        spec_parse_index(index_bytes(entries)) == Ok::<_, IndexFormatError>(entries),
        spec_index_add_all(Seq::empty(), entries) == entries,
{
    let data = index_bytes(entries);
    assert(data.subrange(0, 4) =~= seq![68u8, 73u8, 82u8, 67u8]);
    lemma_be32_round_trip(2);
    assert(data[4] == be32(2)[0] && data[5] == be32(2)[1] && data[6] == be32(2)[2] && data[7]
        == be32(2)[3]);
    lemma_be32_round_trip(entries.len() as u32);
    assert(data[8] == be32(entries.len() as u32)[0] && data[9] == be32(entries.len() as u32)[1]
        && data[10] == be32(entries.len() as u32)[2] && data[11] == be32(entries.len() as u32)[3]);
    assert(be32_val(data[8], data[9], data[10], data[11]) as int == entries.len() as int);
    assert(data.skip(12) =~= index_entries_bytes(entries));
    lemma_index_entries_round_trip(entries);
    assert(Seq::<IndexEntryModel>::empty() + entries =~= entries);
    lemma_index_add_all_sorted(Seq::empty(), entries);
}

} // verus!
