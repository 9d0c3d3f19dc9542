//! UTF-8 validation from std.

use vstd::prelude::*;
use vstd::string::StringSliceAdditionalSpecFns;
use vstd::utf8::valid_utf8;

verus! {

/// `std::str::from_utf8`: succeeds exactly on well-formed UTF-8 and then
/// returns a string slice whose bytes are the input bytes.
#[verifier::external_body]
pub(crate) fn str_from_utf8(bytes: &[u8]) -> (r: Option<&str>)
    ensures
        r is Some <==> valid_utf8(bytes@),
        r matches Some(s) ==> s.spec_bytes() == bytes@,
{
    std::str::from_utf8(bytes).ok()
}


/// `<[u8; 32] as TryFrom<Vec<u8>>>::try_from`: succeeds exactly when the
/// vector holds 32 bytes, and then holds the same bytes.
#[verifier::external_body]
pub(crate) fn vec_to_array32(v: Vec<u8>) -> (r: Option<[u8; 32]>)
    ensures
        r is Some <==> v@.len() == 32,
        r matches Some(a) ==> a@ == v@,
{
    v.try_into().ok()
}


/// `<[u8; 96] as TryFrom<Vec<u8>>>::try_from`: succeeds exactly when the
/// vector holds 96 bytes, and then holds the same bytes.
#[verifier::external_body]
pub(crate) fn vec_to_array96(v: Vec<u8>) -> (r: Option<[u8; 96]>)
    ensures
        r is Some <==> v@.len() == 96,
        r matches Some(a) ==> a@ == v@,
{
    v.try_into().ok()
}

/// `<[u8; 64] as TryFrom<Vec<u8>>>::try_from`: succeeds exactly when the
/// vector holds 64 bytes, and then holds the same bytes.
#[verifier::external_body]
pub(crate) fn vec_to_array64(v: Vec<u8>) -> (r: Option<[u8; 64]>)
    ensures
        r is Some <==> v@.len() == 64,
        r matches Some(a) ==> a@ == v@,
{
    v.try_into().ok()
}

/// `<[u8; 24] as TryFrom<Vec<u8>>>::try_from`: succeeds exactly when the
/// vector holds 24 bytes, and then holds the same bytes.
#[verifier::external_body]
pub(crate) fn vec_to_array24(v: Vec<u8>) -> (r: Option<[u8; 24]>)
    ensures
        r is Some <==> v@.len() == 24,
        r matches Some(a) ==> a@ == v@,
{
    v.try_into().ok()
}


/// The Unicode lower-case mapping of a text, as `str::to_lowercase` applies
/// it.
pub uninterp spec fn unicode_lowercase(s: Seq<char>) -> Seq<char>;

/// `str::to_lowercase`: the lower-case mapping of the text, a function of the
/// text alone.
#[verifier::external_body]
pub(crate) fn to_lowercase(s: &str) -> (r: String)
    ensures
        r@ == unicode_lowercase(s@),
{
    s.to_lowercase()
}

} // verus!
