//! SHA-256 (from `sha2`) and lower-case hex (from `hex`).
use vstd::prelude::*;
use sha2::Digest;
use crate::error::LauncherError;

verus! {

/// The SHA-256 digest of `data`.
pub uninterp spec fn sha256_of(data: Seq<u8>) -> Seq<u8>;

/// `sha2::Sha256::digest`. Claimed: the 32 bytes returned are the named
/// value `sha256_of(data)`, which depends on `data` alone. Nothing else
/// about SHA-256 is claimed.
#[verifier::external_body]
pub(crate) fn sha256(data: &[u8]) -> (r: [u8; 32])
    ensures
        r@ == sha256_of(data@),
{
    sha2::Sha256::digest(data).into()
}

/// The lower-case hex digit for `d < 16`.
pub open spec fn hex_digit(d: nat) -> char {
    if d < 10 {
        (('0' as u32) + d) as char
    } else {
        (('a' as u32) + (d - 10)) as char
    }
}

/// Each byte of `data` as two lower-case hex digits, high nibble first.
pub open spec fn hex_lower(data: Seq<u8>) -> Seq<char>
    decreases data.len(),
{
    if data.len() == 0 {
        seq![]
    } else {
        hex_lower(data.drop_last()) + seq![
            hex_digit((data.last() / 16) as nat),
            hex_digit((data.last() % 16) as nat),
        ]
    }
}

/// `hex::encode`: claimed to write each byte as two lower-case hex digits,
/// high nibble first, as the crate documents (`hex_lower`).
#[verifier::external_body]
pub(crate) fn hex_encode(data: &[u8]) -> (s: String)
    ensures
        s@ == hex_lower(data@),
{
    hex::encode(data)
}

/// Hands `data` back when its SHA-256 digest is `expected`; otherwise
/// reports both digests in hex.
pub fn check_digest(data: Vec<u8>, expected: &[u8; 32]) -> (r: Result<Vec<u8>, LauncherError>)
    ensures
        sha256_of(data@) == expected@ ==> (r matches Ok(b) && b@ == data@),
        sha256_of(data@) != expected@ ==> (r matches Err(
            LauncherError::ChecksumMismatch { expected: e, actual: a },
        ) && e@ == hex_lower(expected@) && a@ == hex_lower(sha256_of(data@))),
{
    let actual = sha256(data.as_slice());
    let mut same = true;
    for i in 0..32
        invariant
            same == forall|m: int| 0 <= m < i ==> actual@[m] == expected@[m],
    {
        if actual[i] != expected[i] {
            same = false;
        }
    }
    if same {
        assert(actual@ =~= expected@);
        Ok(data)
    } else {
        Err(
            LauncherError::ChecksumMismatch {
                expected: hex_encode(expected),
                actual: hex_encode(&actual),
            },
        )
    }
}

} // verus!
