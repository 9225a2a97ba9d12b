//! SHA-256 fingerprints of file contents, rendered as lowercase hex.
//!
//! The digest itself comes from the `sha2` crate; the hex rendering is
//! verified here.
use vstd::prelude::*;

use sha2::Digest;

verus! {

/// The SHA-256 digest of `bytes` as the `sha2` crate computes it.
pub uninterp spec fn sha256_spec(bytes: Seq<u8>) -> Seq<u8>;

/// Calls `sha2::Sha256::digest`.  The contract claims that the result is
/// the digest of the given bytes (a function of the bytes alone) and that
/// a SHA-256 digest is 32 bytes long.
#[verifier::external_body]
fn sha256_digest(bytes: &[u8]) -> (d: Vec<u8>)
    ensures
        d@ == sha256_spec(bytes@),
        d@.len() == 32,
{
    sha2::Sha256::digest(bytes).to_vec()
}

/// The lowercase hex digit for `d < 16`.
pub open spec fn hex_digit(d: nat) -> char {
    if d < 10 {
        crate::text::digit_char(d)
    } else if d == 10 {
        'a'
    } else if d == 11 {
        'b'
    } else if d == 12 {
        'c'
    } else if d == 13 {
        'd'
    } else if d == 14 {
        'e'
    } else {
        'f'
    }
}

/// Two lowercase hex digits per byte, as `{:02x}` prints them.
pub open spec fn hex_lower(d: Seq<u8>) -> Seq<char>
    decreases d.len(),
{
    if d.len() == 0 {
        seq![]
    } else {
        hex_lower(d.drop_last()) + seq![
            hex_digit((d.last() / 16) as nat),
            hex_digit((d.last() % 16) as nat),
        ]
    }
}

/// The hex fingerprint of `bytes`.
pub open spec fn hex_sha256_spec(bytes: Seq<u8>) -> Seq<char> {
    hex_lower(sha256_spec(bytes))
}

fn hex_digit_exec(d: u8) -> (c: char)
    requires
        d < 16,
    ensures
        c == hex_digit(d as nat),
{
    if d < 10 {
        if d == 0 {
            '0'
        } else if d == 1 {
            '1'
        } else if d == 2 {
            '2'
        } else if d == 3 {
            '3'
        } else if d == 4 {
            '4'
        } else if d == 5 {
            '5'
        } else if d == 6 {
            '6'
        } else if d == 7 {
            '7'
        } else if d == 8 {
            '8'
        } else {
            '9'
        }
    } else if d == 10 {
        'a'
    } else if d == 11 {
        'b'
    } else if d == 12 {
        'c'
    } else if d == 13 {
        'd'
    } else if d == 14 {
        'e'
    } else {
        'f'
    }
}

/// Lowercase hex rendering of `d`.
pub fn hex_encode(d: &Vec<u8>) -> (s: String)
    ensures
        s@ == hex_lower(d@),
        s@.len() == 2 * d@.len(),
{
    let mut out: Vec<char> = Vec::new();
    let mut i: usize = 0;
    while i < d.len()
        invariant
            i <= d.len(),
            out@ == hex_lower(d@.take(i as int)),
            out@.len() == 2 * i,
        decreases d.len() - i,
    {
        let b = d[i];
        out.push(hex_digit_exec(b / 16));
        out.push(hex_digit_exec(b % 16));
        assert(d@.take(i + 1).drop_last() =~= d@.take(i as int));
        i = i + 1;
    }
    assert(d@.take(d.len() as int) =~= d@);
    crate::text::string_of(&out)
}

/// The lowercase hex SHA-256 of `bytes` (64 characters).
pub fn hex_sha256(bytes: &[u8]) -> (s: String)
    ensures
        s@ == hex_sha256_spec(bytes@),
        s@.len() == 64,
{
    let d = sha256_digest(bytes);
    hex_encode(&d)
}

} // verus!
