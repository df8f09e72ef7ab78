//! Object ids: the 20-byte content digest that addresses every stored object,
//! with its 40-character hex form.

use vstd::prelude::*;

verus! {

use vstd::string::StringSliceAdditionalSpecFns;

use crate::digest::sha1_of;
use crate::hex::all_hex_digits;
use crate::hex::hex_bytes;
use crate::hex::hex_decoded;
use crate::hex::lemma_hex_round_trip;
use crate::object::ObjectBuffer;
use crate::utils::spec_trim_whitespace;

/// 20 raw digest bytes. Always derived by hashing, never assigned.
#[derive(Copy, Clone, Eq, PartialEq, Ord, PartialOrd, Debug, Hash)]
pub struct ObjectId(pub [u8; 20]);

/// The 40-character hex form of a digest, as ASCII bytes; encoding always
/// emits lower case, decoding accepts either case.
#[derive(Copy, Clone, Eq, PartialEq, Debug)]
pub struct Sha1HashHexString(pub [u8; 40]);

/// A rejected digest string, carrying the offending input: malformed hex is
/// never silently coerced.
#[derive(Debug, Clone, PartialEq, Eq)]
pub enum SHA1ValidationError {
    /// The input is not a run of hex digits (or pairs well oddly).
    InvalidHexString(Vec<u8>),
    /// Valid hex, but not the 40 digits a digest has.
    SHA1Error(Vec<u8>),
}

/// The bytes a hex string must have to denote an object id: 40 bytes, each a
/// hex digit.
pub open spec fn is_oid_hex(s: Seq<u8>) -> bool {
    s.len() == 40 && all_hex_digits(s)
}

/// How a hex string failed to denote an id.
#[derive(Debug, Clone, Copy, PartialEq, Eq, Structural)]
pub(crate) enum HexIdIssue {
    /// Not an even-length run of hex digits.
    NotHex,
    /// Valid hex, but not 40 digits.
    WrongLength,
}

/// Decode 40 hex digit bytes into an object id; exact about every outcome.
pub(crate) fn oid_from_hex_bytes(bytes: &[u8]) -> (r: Result<ObjectId, HexIdIssue>)
    ensures
        is_oid_hex(bytes@) ==> (r matches Ok(oid) && oid.0@ == hex_decoded(bytes@)),
        (bytes@.len() % 2 != 0 || !all_hex_digits(bytes@)) ==> r == Err::<ObjectId, HexIdIssue>(
            HexIdIssue::NotHex,
        ),
        (bytes@.len() % 2 == 0 && all_hex_digits(bytes@) && bytes@.len() != 40) ==> r == Err::<
            ObjectId,
            HexIdIssue,
        >(HexIdIssue::WrongLength),
{
    if bytes.len() % 2 != 0 || !crate::hex::check_all_hex(bytes) {
        return Err(HexIdIssue::NotHex);
    }
    if bytes.len() != 40 {
        return Err(HexIdIssue::WrongLength);
    }
    Ok(ObjectId(crate::hex::hex_decode_20(bytes)))
}

impl ObjectId {
    /// Compute the id of an encoded object: the digest of its full buffer,
    /// header included.
    pub fn from_object_buffer(object: &ObjectBuffer) -> (r: Self)
        ensures
            r.0@ == sha1_of(object@),
    {
        Self::from_data(object.data())
    }

    /// The digest of the exact bytes given.
    pub fn from_data(data: &[u8]) -> (r: Self)
        ensures
            r.0@ == sha1_of(data@),
    {
        ObjectId(crate::digest::sha1_digest(data))
    }

    /// Decode a hex string into an id. A string that is not even-length hex
    /// fails as invalid hex; valid hex of the wrong length fails the digest
    /// length check. Both errors carry the offending input.
    pub fn from_unvalidated_sh1_hex_string(s: &str) -> (r: Result<Self, SHA1ValidationError>)
        ensures
            is_oid_hex(s.spec_bytes()) ==> (r matches Ok(oid) && oid.0@ == hex_decoded(
                s.spec_bytes(),
            )),
            (s.spec_bytes().len() % 2 != 0 || !all_hex_digits(s.spec_bytes())) ==> (r matches Err(
                e,
            ) && e matches SHA1ValidationError::InvalidHexString(m) && m@ == s.spec_bytes()),
            (s.spec_bytes().len() % 2 == 0 && all_hex_digits(s.spec_bytes())
                && s.spec_bytes().len() != 40) ==> (r matches Err(e)
                && e matches SHA1ValidationError::SHA1Error(m) && m@ == s.spec_bytes()),
    {
        let bytes = s.as_bytes();
        match oid_from_hex_bytes(bytes) {
            Ok(oid) => Ok(oid),
            Err(HexIdIssue::NotHex) => Err(
                SHA1ValidationError::InvalidHexString(vstd::slice::slice_to_vec(bytes)),
            ),
            Err(HexIdIssue::WrongLength) => Err(
                SHA1ValidationError::SHA1Error(vstd::slice::slice_to_vec(bytes)),
            ),
        }
    }

    /// The 40-character lower-case hex form of the id.
    pub fn to_hex_string(&self) -> (r: Sha1HashHexString)
        ensures
            r.0@ == hex_bytes(self.0@),
    {
        Sha1HashHexString(crate::hex::hex_encode_20(&self.0))
    }
}

/// Law: the hex forms round-trip — decoding an id's hex string gives the id
/// back, for every id.
pub proof fn lemma_oid_hex_round_trip(oid: ObjectId)
    ensures
        is_oid_hex(hex_bytes(oid.0@)),
        hex_decoded(hex_bytes(oid.0@)) == oid.0@,
{
    lemma_hex_round_trip(oid.0@);
}

impl Sha1HashHexString {
    /// Read a hex string, tolerating one trailing whitespace byte: exactly
    /// 40 bytes must remain, each a hex digit.
    pub fn from_str(s: &str) -> (r: Result<Self, SHA1ValidationError>)
        ensures
            ({
                let t = spec_trim_whitespace(s.spec_bytes());
                &&& is_oid_hex(t) ==> (r matches Ok(h) && h.0@ == t)
                &&& t.len() != 40 ==> (r matches Err(e)
                    && e matches SHA1ValidationError::SHA1Error(m) && m@ == s.spec_bytes())
                &&& (t.len() == 40 && !all_hex_digits(t)) ==> (r matches Err(e)
                    && e matches SHA1ValidationError::InvalidHexString(m) && m@ == s.spec_bytes())
            }),
    {
        Self::from_u8_slice(s.as_bytes())
    }

    pub fn from_u8_slice(bytes: &[u8]) -> (r: Result<Self, SHA1ValidationError>)
        ensures
            ({
                let t = spec_trim_whitespace(bytes@);
                &&& is_oid_hex(t) ==> (r matches Ok(h) && h.0@ == t)
                &&& t.len() != 40 ==> (r matches Err(e)
                    && e matches SHA1ValidationError::SHA1Error(m) && m@ == bytes@)
                &&& (t.len() == 40 && !all_hex_digits(t)) ==> (r matches Err(e)
                    && e matches SHA1ValidationError::InvalidHexString(m) && m@ == bytes@)
            }),
    {
        let data = crate::utils::trim_whitespace(bytes);
        if data.len() != 40 {
            return Err(SHA1ValidationError::SHA1Error(vstd::slice::slice_to_vec(bytes)));
        }
        if !crate::hex::check_all_hex(data) {
            return Err(SHA1ValidationError::InvalidHexString(vstd::slice::slice_to_vec(bytes)));
        }
        let mut out: [u8; 40] = [0u8; 40];
        let mut i: usize = 0;
        while i < 40
            invariant
                0 <= i <= 40,
                data@.len() == 40,
                data@ == spec_trim_whitespace(bytes@),
                forall|j: int| 0 <= j < i ==> out@[j] == data@[j],
            decreases 40 - i,
        {
            out[i] = data[i];
            i += 1;
        }
        assert(out@ =~= data@);
        Ok(Sha1HashHexString(out))
    }
}

} // verus!
