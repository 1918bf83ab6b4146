//! The SHA-256 column: a file's digest as lower-case hex.
use vstd::prelude::*;
use sha2::Digest;
use crate::text::push_char;
use crate::theme::lower_hex2;

verus! {

/// The SHA-256 digest of some bytes, as sha2 computes it.
pub uninterp spec fn sha256_of(data: Seq<u8>) -> Seq<u8>;

/// sha2 `Sha256::digest`: the SHA-256 digest of `data`, which is 32 bytes.
#[verifier::external_body]
fn sha256_bytes(data: &[u8]) -> (r: Vec<u8>)
    ensures
        r@ == sha256_of(data@),
        r@.len() == 32,
{
    sha2::Sha256::digest(data).to_vec()
}

/// Bytes as lower-case hex, two digits each.
pub open spec fn lower_hex(b: Seq<u8>) -> Seq<char>
    decreases b.len(),
{
    if b.len() == 0 {
        Seq::empty()
    } else {
        lower_hex(b.drop_last()) + lower_hex2(b.last())
    }
}

fn digit(d: u8) -> (r: char)
    requires
        d < 16,
    ensures
        r == crate::theme::lower_digit(d as int),
{
    if d < 10 { (48u8 + d) as char } else { (87u8 + d) as char }
}

/// The bytes as lower-case hex (see `lower_hex`).
pub fn hex_text(b: &[u8]) -> (r: String)
    ensures
        r@ == lower_hex(b@),
{
    let mut s = String::new();
    let mut i: usize = 0;
    assert(b@.take(0) =~= Seq::<u8>::empty());
    while i < b.len()
        invariant
            i <= b.len(),
            s@ == lower_hex(b@.take(i as int)),
        decreases b.len() - i,
    {
        let ghost s0 = s@;
        push_char(&mut s, digit(b[i] / 16));
        push_char(&mut s, digit(b[i] % 16));
        assert(b@.take(i + 1).drop_last() =~= b@.take(i as int));
        assert(s@ =~= s0 + lower_hex2(b@[i as int]));
        i += 1;
    }
    assert(b@.take(b.len() as int) =~= b@);
    s
}

/// What the SHA-256 column shows for a file's contents: the digest in
/// 64 lower-case hex digits.
pub fn checksum_text(data: &[u8]) -> (r: String)
    ensures
        r@ == lower_hex(sha256_of(data@)),
{
    let d = sha256_bytes(data);
    hex_text(d.as_slice())
}

} // verus!
