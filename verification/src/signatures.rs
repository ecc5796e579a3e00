//! Checksums of downloaded archives against the ones their repository
//! announced.

use vstd::prelude::*;

use sha1::Sha1;
use sha2::{Digest, Sha256, Sha512};

use crate::errors::SignatureError;
use crate::package::{ControlView, DebPackage};
use crate::text::{push_char, same_text};

verus! {

/// The MD5 digest of `data`.
pub uninterp spec fn md5_digest(data: Seq<u8>) -> Seq<u8>;

/// The SHA-1 digest of `data`.
pub uninterp spec fn sha1_digest(data: Seq<u8>) -> Seq<u8>;

/// The SHA-256 digest of `data`.
pub uninterp spec fn sha256_digest(data: Seq<u8>) -> Seq<u8>;

/// The SHA-512 digest of `data`.
pub uninterp spec fn sha512_digest(data: Seq<u8>) -> Seq<u8>;

/// Trusted: the bytes of `md5::compute(data)`. The contract names the result
/// (`md5_digest`), a function of the data alone, and gives its length of 16
/// bytes; the algorithm is not stated.
#[verifier::external_body]
fn md5_bytes(data: &[u8]) -> (r: Vec<u8>)
    ensures
        r@ == md5_digest(data@),
        r.len() == 16,
{
    md5::compute(data).0.to_vec()
}

/// Trusted: the bytes of `<Sha1 as Digest>::digest(data)`, named
/// `sha1_digest`, 20 of them.
#[verifier::external_body]
fn sha1_bytes(data: &[u8]) -> (r: Vec<u8>)
    ensures
        r@ == sha1_digest(data@),
        r.len() == 20,
{
    Sha1::digest(data).to_vec()
}

/// Trusted: the bytes of `<Sha256 as Digest>::digest(data)`, named
/// `sha256_digest`, 32 of them.
#[verifier::external_body]
fn sha256_bytes(data: &[u8]) -> (r: Vec<u8>)
    ensures
        r@ == sha256_digest(data@),
        r.len() == 32,
{
    Sha256::digest(data).to_vec()
}

/// Trusted: the bytes of `<Sha512 as Digest>::digest(data)`, named
/// `sha512_digest`, 64 of them.
#[verifier::external_body]
fn sha512_bytes(data: &[u8]) -> (r: Vec<u8>)
    ensures
        r@ == sha512_digest(data@),
        r.len() == 64,
{
    Sha512::digest(data).to_vec()
}

/// The lower-case hexadecimal digit of a value below 16.
pub open spec fn hex_digit(n: u8) -> char {
    if n < 10 {
        (n + 48) as char
    } else {
        (n + 87) as char
    }
}

/// The lower-case hexadecimal text of a byte string, two digits a byte, as
/// `{:x}` prints a digest.
pub open spec fn hex_lower(data: Seq<u8>) -> Seq<char>
    decreases data.len(),
{
    if data.len() == 0 {
        seq![]
    } else {
        hex_lower(data.drop_last()) + seq![hex_digit(data.last() / 16), hex_digit(data.last() % 16)]
    }
}

/// The hexadecimal text of a byte string has two characters a byte, each a
/// digit or a lower-case letter from `a` to `f`.
pub proof fn lemma_hex_lower_shape(data: Seq<u8>)
    ensures
        hex_lower(data).len() == 2 * data.len(),
        forall|i: int|
            0 <= i < hex_lower(data).len() ==> ('0' <= #[trigger] hex_lower(data)[i] <= '9'
                || 'a' <= hex_lower(data)[i] <= 'f'),
    decreases data.len(),
{
    if data.len() > 0 {
        lemma_hex_lower_shape(data.drop_last());
        let b = data.last();
        assert(b / 16 < 16 && b % 16 < 16);
        let h = hex_lower(data.drop_last());
        assert forall|i: int| 0 <= i < hex_lower(data).len() implies ('0' <= #[trigger] hex_lower(data)[i]
            <= '9' || 'a' <= hex_lower(data)[i] <= 'f') by {
            if i < h.len() {
                assert(hex_lower(data)[i] == h[i]);
            }
        }
    }
}

/// The first announced checksum of `c` that the data does not have.
pub open spec fn first_mismatch(c: ControlView, data: Seq<u8>) -> Option<(u8, Seq<char>)> {
    let md5 = hex_lower(md5_digest(data));
    let sha1 = hex_lower(sha1_digest(data));
    let sha256 = hex_lower(sha256_digest(data));
    let sha512 = hex_lower(sha512_digest(data));
    if c.md5sum.len() > 0 && c.md5sum != md5 {
        Some((0u8, md5))
    } else if c.sha1.len() > 0 && c.sha1 != sha1 {
        Some((1u8, sha1))
    } else if c.sha256.len() > 0 && c.sha256 != sha256 {
        Some((2u8, sha256))
    } else if c.sha512.len() > 0 && c.sha512 != sha512 {
        Some((3u8, sha512))
    } else {
        None
    }
}

/// Every announced checksum is checked, whichever others are announced: the
/// data passes exactly when each non-empty checksum field of the paragraph
/// is the hexadecimal digest of the data, so a single announced field that
/// differs from the data's digest makes verification fail.
pub proof fn lemma_every_checksum_checked(c: ControlView, data: Seq<u8>)
    ensures
        first_mismatch(c, data) is None <==> {
            &&& (c.md5sum.len() == 0 || c.md5sum == hex_lower(md5_digest(data)))
            &&& (c.sha1.len() == 0 || c.sha1 == hex_lower(sha1_digest(data)))
            &&& (c.sha256.len() == 0 || c.sha256 == hex_lower(sha256_digest(data)))
            &&& (c.sha512.len() == 0 || c.sha512 == hex_lower(sha512_digest(data)))
        },
{
}

fn hex_char(n: u8) -> (c: char)
    requires
        n < 16,
    ensures
        c == hex_digit(n),
{
    if n < 10 {
        (n + 48) as char
    } else {
        (n + 87) as char
    }
}

/// The lower-case hexadecimal text of a byte string.
pub fn to_hex(data: &Vec<u8>) -> (r: String)
    ensures
        r@ == hex_lower(data@),
{
    let mut r = String::new();
    let mut i: usize = 0;
    while i < data.len()
        invariant
            i <= data.len(),
            r@ == hex_lower(data@.take(i as int)),
        decreases data.len() - i,
    {
        let b = data[i];
        push_char(&mut r, hex_char(b / 16));
        push_char(&mut r, hex_char(b % 16));
        assert(data@.take(i + 1).drop_last() =~= data@.take(i as int));
        assert(data@.take(i + 1).last() == b);
        assert(r@ =~= hex_lower(data@.take(i + 1)));
        i = i + 1;
    }
    assert(data@.take(data.len() as int) =~= data@);
    r
}

/// Checks the downloaded archive `data` against the checksums that the
/// package's paragraph announces (MD5, SHA-1, SHA-256, SHA-512, in that
/// order; an empty field is not checked). The first mismatch is reported
/// with the paragraph's MD5 field and the checksum computed.
pub fn verify_sig(pkg: &DebPackage, data: &[u8]) -> (res: Result<(), SignatureError>)
    ensures
        match first_mismatch(pkg.control@, data@) {
            None => res is Ok,
            Some((0, ex)) => res matches Err(SignatureError::MD5 { rs, ex: e }) && rs@ == pkg.control.md5sum@ && e@ == ex,
            Some((1, ex)) => res matches Err(SignatureError::SHA1 { rs, ex: e }) && rs@ == pkg.control.md5sum@ && e@ == ex,
            Some((2, ex)) => res matches Err(SignatureError::SHA256 { rs, ex: e }) && rs@ == pkg.control.md5sum@ && e@ == ex,
            Some((_, ex)) => res matches Err(SignatureError::SHA512 { rs, ex: e }) && rs@ == pkg.control.md5sum@ && e@ == ex,
        },
{
    let control = &pkg.control;
    if !control.md5sum.as_str().is_empty() {
        let md5 = to_hex(&md5_bytes(data));
        if !same_text(control.md5sum.as_str(), md5.as_str()) {
            return Err(SignatureError::MD5 { rs: control.md5sum.clone(), ex: md5 });
        }
    }
    if !control.sha1.as_str().is_empty() {
        let sha1 = to_hex(&sha1_bytes(data));
        if !same_text(control.sha1.as_str(), sha1.as_str()) {
            return Err(SignatureError::SHA1 { rs: control.md5sum.clone(), ex: sha1 });
        }
    }
    if !control.sha256.as_str().is_empty() {
        let sha256 = to_hex(&sha256_bytes(data));
        if !same_text(control.sha256.as_str(), sha256.as_str()) {
            return Err(SignatureError::SHA256 { rs: control.md5sum.clone(), ex: sha256 });
        }
    }
    if !control.sha512.as_str().is_empty() {
        let sha512 = to_hex(&sha512_bytes(data));
        if !same_text(control.sha512.as_str(), sha512.as_str()) {
            return Err(SignatureError::SHA512 { rs: control.md5sum.clone(), ex: sha512 });
        }
    }
    Ok(())
}

} // verus!
