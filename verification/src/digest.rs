//! SHA-256 fingerprints, rendered in lower-case hexadecimal.
use vstd::prelude::*;
use vstd::utf8::*;
use vstd::bytes::*;
use sha2::Digest;
use crate::text::{hex, is_lower_hex, lemma_hex_shape, to_hex};

verus! {

/// The SHA-256 digest that `sha2::Sha256::digest` computes.
pub uninterp spec fn sha256_of(bytes: Seq<u8>) -> Seq<u8>;

/// The hexadecimal SHA-256 digest.
pub open spec fn digest_of(bytes: Seq<u8>) -> Seq<char> {
    hex(sha256_of(bytes))
}

/// `sha2::Sha256::digest`: the thirty-two bytes of the SHA-256 digest.
#[verifier::external_body]
fn sha256(bytes: &[u8]) -> (r: Vec<u8>)
    ensures
        r@ == sha256_of(bytes@),
        r@.len() == 32,
{
    sha2::Sha256::digest(bytes).to_vec()
}

/// The hexadecimal SHA-256 digest: sixty-four lower-case digits.
pub fn fingerprint(bytes: &[u8]) -> (r: String)
    ensures
        r@ == digest_of(bytes@),
        r@.len() == 64,
        forall|i: int| 0 <= i < r@.len() ==> is_lower_hex(#[trigger] r@[i]),
{
    let d = sha256(bytes);
    proof {
        lemma_hex_shape(d@);
    }
    to_hex(&d)
}

/// What the fingerprint of a project root is taken of.
pub open spec fn root_bytes(root: Seq<char>, device: u64, inode: u64) -> Seq<u8> {
    encode_utf8(root) + seq![0u8] + spec_u64_to_le_bytes(device) + spec_u64_to_le_bytes(inode)
}

/// The fingerprint of a project root: its path, device and inode.
pub fn root_fingerprint(root: &str, device: u64, inode: u64) -> (r: String)
    ensures
        r@ == digest_of(root_bytes(root@, device, inode)),
{
    let mut bytes: Vec<u8> = Vec::new();
    bytes.extend_from_slice(root.as_bytes());
    bytes.push(0u8);
    let mut head = u64_to_le_bytes(device);
    bytes.append(&mut head);
    let mut tail = u64_to_le_bytes(inode);
    bytes.append(&mut tail);
    proof {
        assert(bytes@ =~= root_bytes(root@, device, inode));
    }
    fingerprint(bytes.as_slice())
}

} // verus!
