//! Content digests and their verification.
//!
//! The digest itself is computed by the `blake3` crate; this module only
//! names its result and proves what the library does with it.

use vstd::prelude::*;

use crate::error::SoarError;
use crate::package::{install_dir_name_spec, Package};

verus! {

/// The lowercase hexadecimal blake3 digest of a byte sequence: a function
/// of the bytes alone.
pub uninterp spec fn blake3_hex_of(data: Seq<u8>) -> Seq<char>;

/// A lowercase hexadecimal digit.
pub open spec fn is_lower_hex(c: char) -> bool {
    ('0' <= c && c <= '9') || ('a' <= c && c <= 'f')
}

/// Relies on `blake3::hash` and `blake3::Hash::to_hex`: the digest of the
/// input bytes alone, encoded as 64 characters drawn from `to_hex`'s
/// lowercase hexadecimal table.
#[verifier::external_body]
fn blake3_hex(data: &[u8]) -> (r: String)
    ensures
        r@ == blake3_hex_of(data@),
        r@.len() == 64,
        forall|i: int| 0 <= i < r@.len() ==> is_lower_hex(#[trigger] r@[i]),
{
    String::from(blake3::hash(data).to_hex().as_str())
}

/// The blake3 digest of `data`, as 64 lowercase hex characters.
pub fn calculate_checksum(data: &Vec<u8>) -> (r: String)
    ensures
        r@ == blake3_hex_of(data@),
        r@.len() == 64,
        forall|i: int| 0 <= i < r@.len() ==> is_lower_hex(#[trigger] r@[i]),
{
    blake3_hex(data.as_slice())
}

/// Compares the digest of downloaded bytes against the catalog's declared
/// digest.
///
/// Returns the verified digest exactly when the two agree, and
/// `ChecksumMismatch` otherwise.
pub fn validate_checksum(expected: &str, data: &Vec<u8>) -> (r: Result<String, SoarError>)
    ensures
        match r {
            Ok(c) => expected@ == blake3_hex_of(data@) && c@ == blake3_hex_of(data@),
            Err(e) => expected@ != blake3_hex_of(data@) && e == SoarError::ChecksumMismatch,
        },
{
    let actual = calculate_checksum(data);
    let exp = String::from_str(expected);
    if actual.eq(&exp) {
        Ok(actual)
    } else {
        Err(SoarError::ChecksumMismatch)
    }
}

/// The content-addressed install directory for a package and the bytes of
/// its binary: `<packages>/<first8(blake3(binary))>-<full name>`.
pub fn content_address(packages_path: &str, p: &Package, data: &Vec<u8>) -> (r: String)
    ensures
        r@ == packages_path@ + seq!['/'] + install_dir_name_spec(p, blake3_hex_of(data@)),
{
    let checksum = calculate_checksum(data);
    p.get_install_dir(packages_path, checksum.as_str())
}

} // verus!
