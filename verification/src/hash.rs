//! The raw digest type used by the plumbing-level helpers. It carries the
//! same 20 bytes as `ObjectId` and shares its hex forms.

use vstd::prelude::*;

pub use crate::oid::Sha1HashHexString;
pub use crate::oid::SHA1ValidationError;

verus! {

use vstd::string::StringSliceAdditionalSpecFns;

use crate::digest::sha1_of;
use crate::hex::all_hex_digits;
use crate::hex::hex_bytes;
use crate::hex::hex_decoded;
use crate::object::ObjectBuffer;
use crate::oid::is_oid_hex;
use crate::oid::HexIdIssue;

/// 20 raw digest bytes.
#[derive(Copy, Clone, Eq, PartialEq, Debug)]
pub struct Sha1Hash(pub [u8; 20]);

impl Sha1Hash {
    /// Compute the hash of an encoded object, its header included.
    pub fn from_object(object: &ObjectBuffer) -> (r: Self)
        ensures
            r.0@ == sha1_of(object@),
    {
        Self::from_data(object.data())
    }

    /// The digest of the exact bytes given.
    pub fn from_data(data: &[u8]) -> (r: Self)
        ensures
            r.0@ == sha1_of(data@),
    {
        Sha1Hash(crate::digest::sha1_digest(data))
    }

    /// Decode a hex string into a hash; errors as in
    /// `ObjectId::from_unvalidated_sh1_hex_string`.
    pub fn from_unvalidated_hex_string(s: &str) -> (r: Result<Self, SHA1ValidationError>)
        ensures
            is_oid_hex(s.spec_bytes()) ==> (r matches Ok(h) && h.0@ == hex_decoded(
                s.spec_bytes(),
            )),
            (s.spec_bytes().len() % 2 != 0 || !all_hex_digits(s.spec_bytes())) ==> (r matches Err(
                e,
            ) && e matches SHA1ValidationError::InvalidHexString(m) && m@ == s.spec_bytes()),
            (s.spec_bytes().len() % 2 == 0 && all_hex_digits(s.spec_bytes())
                && s.spec_bytes().len() != 40) ==> (r matches Err(e)
                && e matches SHA1ValidationError::SHA1Error(m) && m@ == s.spec_bytes()),
    {
        let bytes = s.as_bytes();
        match crate::oid::oid_from_hex_bytes(bytes) {
            Ok(oid) => Ok(Sha1Hash(oid.0)),
            Err(HexIdIssue::NotHex) => Err(
                SHA1ValidationError::InvalidHexString(vstd::slice::slice_to_vec(bytes)),
            ),
            Err(HexIdIssue::WrongLength) => Err(
                SHA1ValidationError::SHA1Error(vstd::slice::slice_to_vec(bytes)),
            ),
        }
    }

    /// The 40-character lower-case hex form of the hash.
    pub fn to_hex_string(&self) -> (r: Sha1HashHexString)
        ensures
            r.0@ == hex_bytes(self.0@),
    {
        Sha1HashHexString(crate::hex::hex_encode_20(&self.0))
    }
}

} // verus!
