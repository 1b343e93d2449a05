//! End-to-end integrity: the assembled payload's SHA-1 digest against
//! the expected hex digest, compared without regard to letter case.

use vstd::prelude::*;
use vstd::string::StrSliceExecFns;
use sha1::Digest;
use crate::text::{eq_ignore_ascii_case, lower_code, str_eq_ignore_ascii_case};

verus! {

/// The SHA-1 digest (20 bytes) of a byte sequence. The algorithm is not
/// written out here — nothing in this crate re-implements the hash; the
/// name only fixes that the digest is a function of the data alone.
pub uninterp spec fn sha1_of(data: Seq<u8>) -> Seq<u8>;

/// Relies on sha1::Sha1 through digest::Digest::digest: the digest is a
/// function of the input bytes alone, 20 bytes long (SHA-1 produces a
/// 160-bit digest).
#[verifier::external_body]
pub fn sha1_digest(data: &[u8]) -> (r: Vec<u8>)
    ensures
        r@ == sha1_of(data@),
        r@.len() == 20,
{
    sha1::Sha1::digest(data).to_vec()
}

/// Code of the lower-case hex digit for a nibble.
pub open spec fn hex_digit_code(n: int) -> int {
    if n < 10 {
        48 + n  // '0' through '9'
    } else {
        87 + n  // 'a' through 'f'
    }
}

/// `s` spells the bytes of `digest` in hexadecimal, two digits per
/// byte, once its ASCII letters are folded to lower case.
pub open spec fn matches_hex_lower(digest: Seq<u8>, s: Seq<char>) -> bool {
    &&& s.len() == 2 * digest.len()
    &&& forall|i: int|
        0 <= i < digest.len() ==> lower_code(s[2 * i]) == hex_digit_code(
            (#[trigger] digest[i]) as int / 16,
        ) && lower_code(s[2 * i + 1]) == hex_digit_code(digest[i] as int % 16)
}

/// Compare a raw digest against an expected hex spelling, ignoring
/// ASCII case in the expected text.
pub fn digest_matches_hex(digest: &Vec<u8>, expected: &str) -> (r: bool)
    ensures
        r == matches_hex_lower(digest@, expected@),
{
    let dlen = digest.len();
    let elen = expected.unicode_len();
    if dlen > usize::MAX / 2 || elen != 2 * dlen {
        return false;
    }
    let mut i: usize = 0;
    while i < dlen
        invariant
            dlen == digest@.len(),
            elen == expected@.len(),
            elen == 2 * dlen,
            i <= dlen,
            forall|k: int|
                0 <= k < i ==> lower_code(expected@[2 * k]) == hex_digit_code(
                    (#[trigger] digest@[k]) as int / 16,
                ) && lower_code(expected@[2 * k + 1]) == hex_digit_code(digest@[k] as int % 16),
        decreases dlen - i,
    {
        let b = digest[i];
        let hi: u32 = (b / 16) as u32;
        let lo: u32 = (b % 16) as u32;
        let hc: u32 = if hi < 10 {
            48 + hi
        } else {
            87 + hi
        };
        let lc: u32 = if lo < 10 {
            48 + lo
        } else {
            87 + lo
        };
        let c0 = expected.get_char(2 * i) as u32;
        let c1 = expected.get_char(2 * i + 1) as u32;
        let f0: u32 = if 65 <= c0 && c0 <= 90 {
            c0 + 32
        } else {
            c0
        };
        let f1: u32 = if 65 <= c1 && c1 <= 90 {
            c1 + 32
        } else {
            c1
        };
        if f0 != hc || f1 != lc {
            return false;
        }
        i = i + 1;
    }
    true
}

/// The integrity gate on an in-memory payload: with no expected digest
/// the payload is accepted as it is; with one, its SHA-1 digest must
/// spell the expected text, letter case notwithstanding.
pub fn payload_integrity_accepts(data: &[u8], expected: &Option<String>) -> (r: bool)
    ensures
        r == match *expected {
            Option::None => true,
            Option::Some(e) => matches_hex_lower(sha1_of(data@), e@),
        },
{
    match expected {
        Option::None => true,
        Option::Some(e) => {
            let digest = sha1_digest(data);
            digest_matches_hex(&digest, e.as_str())
        },
    }
}

/// The integrity gate on the assembled file, given the hex digest that
/// hashing the file produced: with no expected digest the file is
/// accepted as it is; with one, the two spellings must agree up to
/// ASCII case. A mismatch is a fatal integrity failure, not a
/// retryable condition, and only an accepted file goes on to
/// extraction.
pub fn assembled_integrity_ok(actual_hex: &str, expected: &Option<String>) -> (r: bool)
    ensures
        r == match *expected {
            Option::None => true,
            Option::Some(e) => eq_ignore_ascii_case(actual_hex@, e@),
        },
{
    match expected {
        Option::None => true,
        Option::Some(e) => str_eq_ignore_ascii_case(actual_hex, e.as_str()),
    }
}

} // verus!
