//! Content digests of build scripts.
use vstd::prelude::*;

use sha2::Digest;

use crate::codec::hex_digit_char;
use crate::text::string_of;

verus! {

/// The SHA-256 digest of `data`.
pub uninterp spec fn sha256_of(data: Seq<u8>) -> Seq<u8>;

/// Relies on sha2's `Sha256::digest`: the SHA-256 digest of the bytes, an
/// array of 32 bytes.
#[verifier::external_body]
fn sha256(data: &[u8]) -> (r: Vec<u8>)
    ensures
        r@ == sha256_of(data@),
        r@.len() == 32,
{
    sha2::Sha256::digest(data).to_vec()
}

/// Two lower-case hexadecimal digits for each byte, most significant first.
pub open spec fn hex_of(b: Seq<u8>) -> Seq<char>
    decreases b.len(),
{
    if b.len() == 0 {
        Seq::empty()
    } else {
        seq![hex_digit_char((b[0] / 16) as u32), hex_digit_char((b[0] % 16) as u32)] + hex_of(
            b.drop_first(),
        )
    }
}

/// The lower-case hexadecimal text of `b`.
pub fn hex_encode(b: &[u8]) -> (r: String)
    ensures
        r@ == hex_of(b@),
{
    let mut out: Vec<char> = Vec::new();
    let mut i: usize = 0;
    assert(b@.skip(0) =~= b@);
    while i < b.len()
        invariant
            i <= b.len(),
            out@ + hex_of(b@.skip(i as int)) == hex_of(b@),
        decreases b.len() - i,
    {
        let ghost before = out@;
        let x = b[i];
        out.push(crate::codec::hex_char((x / 16) as u32));
        out.push(crate::codec::hex_char((x % 16) as u32));
        assert(b@.skip(i as int).drop_first() =~= b@.skip(i + 1));
        assert(out@ + hex_of(b@.skip(i + 1)) =~= before + hex_of(b@.skip(i as int)));
        i += 1;
    }
    assert(b@.skip(i as int) =~= Seq::<u8>::empty());
    assert(out@ =~= hex_of(b@));
    string_of(out.as_slice())
}

/// The key under which the ledger files a build script with these contents:
/// the hexadecimal SHA-256 digest of the bytes.
pub fn hook_digest(contents: &[u8]) -> (r: String)
    ensures
        r@ == hex_of(sha256_of(contents@)),
        r@.len() == 64,
{
    let d = sha256(contents);
    let r = hex_encode(d.as_slice());
    proof {
        lemma_hex_len(d@);
    }
    r
}

proof fn lemma_hex_len(b: Seq<u8>)
    ensures
        hex_of(b).len() == 2 * b.len(),
    decreases b.len(),
{
    if b.len() > 0 {
        lemma_hex_len(b.drop_first());
    }
}

} // verus!
