//! The outside primitives the envelope is built from: BLAKE3, ChaCha20,
//! ML-DSA-87, a random source and hexadecimal text.
//!
//! Every function in this file that is marked `external_body` is a call into
//! another crate. Verus does not read those bodies; it takes the contract
//! above each one on trust. Where a result is a fixed but intricate function
//! of the arguments it is given a name, and the contract says no more than
//! that the call returns what the name stands for.

use vstd::prelude::*;
use chacha20::cipher::KeyIvInit;
use chacha20::cipher::StreamCipher;
use ml_dsa::signature::Keypair;
use ml_dsa::signature::Signer;
use ml_dsa::signature::Verifier;

verus! {

/// The BLAKE3 digest of `input`: what `blake3::hash` returns for it.
pub uninterp spec fn blake3_digest(input: Seq<u8>) -> Seq<u8>;

/// The encoded ML-DSA-87 verifying key that belongs to the signing key
/// generated from `seed`.
pub uninterp spec fn mldsa_verifying_key(seed: Seq<u8>) -> Seq<u8>;

/// The encoded signature that the deterministic variant of ML-DSA-87, with
/// an empty context, produces over `message` under the key from `seed`.
pub uninterp spec fn mldsa_signature(seed: Seq<u8>, message: Seq<u8>) -> Seq<u8>;

/// Whether ML-DSA-87 verification, with an empty context, accepts
/// `signature` over `message` under the encoded verifying key `public_key`.
pub uninterp spec fn mldsa_accepts(public_key: Seq<u8>, message: Seq<u8>, signature: Seq<u8>) -> bool;

/// The first `len` bytes of the ChaCha20 keystream for `key` and the all-zero
/// twelve-byte nonce, starting at block zero.
pub uninterp spec fn chacha20_keystream(key: Seq<u8>, len: nat) -> Seq<u8>;

/// The length of an encoded ML-DSA-87 verifying key.
pub const MLDSA_KEY_BYTES: usize = 2592;

/// The length of an encoded ML-DSA-87 signature.
pub const MLDSA_SIGNATURE_BYTES: usize = 4627;

/// The longest input a fresh ChaCha20 instance can process: one block short
/// of 2^32 blocks of 64 bytes.
pub const KEYSTREAM_LIMIT: u64 = 274877906880;

/// Byte-wise exclusive or of `data` with `stream`, as long as `data`.
pub open spec fn xor_bytes(data: Seq<u8>, stream: Seq<u8>) -> Seq<u8> {
    Seq::new(data.len(), |i: int| data[i] ^ stream[i])
}

/// Applying the same stream twice gives the data back.
pub proof fn lemma_xor_twice(data: Seq<u8>, stream: Seq<u8>)
    ensures
        xor_bytes(xor_bytes(data, stream), stream) == data,
{
    assert forall|i: int| 0 <= i < data.len() implies #[trigger] xor_bytes(
        xor_bytes(data, stream),
        stream,
    )[i] == data[i] by {
        let a = data[i];
        let b = stream[i];
        assert((a ^ b) ^ b == a) by (bit_vector);
    }
    assert(xor_bytes(xor_bytes(data, stream), stream) =~= data);
}

/// Calls `blake3::hash`. The contract names the digest and claims nothing
/// else of it.
#[verifier::external_body]
pub(crate) fn blake3_hash(input: &[u8]) -> (digest: [u8; 32])
    ensures
        digest@ == blake3_digest(input@),
{
    *blake3::hash(input).as_bytes()
}

/// Calls `ml_dsa::SigningKey::<MlDsa87>::from_seed` and encodes the verifying
/// key of the pair. Key generation from a seed is deterministic; the contract
/// names the encoded key and gives its length, which is that of the fixed
/// array the crate encodes into.
#[verifier::external_body]
pub(crate) fn mldsa_public_key(seed: &[u8; 32]) -> (public_key: Vec<u8>)
    ensures
        public_key@ == mldsa_verifying_key(seed@),
        public_key@.len() == MLDSA_KEY_BYTES,
{
    let signing_key = ml_dsa::SigningKey::<ml_dsa::MlDsa87>::from_seed(&(*seed).into());
    signing_key.verifying_key().encode().to_vec()
}

/// Calls `Signer::sign` on the ML-DSA-87 signing key generated from `seed`.
/// That impl signs deterministically with an empty context, so the contract
/// names the signature and gives its length, which is that of the fixed array
/// the crate encodes into. It also states the scheme's correctness: a
/// signature made under a seed is accepted under that seed's verifying key.
#[verifier::external_body]
pub(crate) fn mldsa_sign(seed: &[u8; 32], message: &[u8]) -> (signature: Vec<u8>)
    ensures
        signature@ == mldsa_signature(seed@, message@),
        signature@.len() == MLDSA_SIGNATURE_BYTES,
        mldsa_accepts(mldsa_verifying_key(seed@), message@, signature@),
{
    let signing_key = ml_dsa::SigningKey::<ml_dsa::MlDsa87>::from_seed(&(*seed).into());
    signing_key.sign(message).encode().to_vec()
}

/// Decodes the key and the signature with `ml_dsa` and calls
/// `Verifier::verify`. A key or signature of the wrong length, or a signature
/// that does not decode, counts as not accepted: the crate's conversion from
/// a slice refuses every length but that of its fixed array.
#[verifier::external_body]
pub(crate) fn mldsa_verify(public_key: &[u8], message: &[u8], signature: &[u8]) -> (accepted: bool)
    ensures
        accepted == mldsa_accepts(public_key@, message@, signature@),
        public_key@.len() != MLDSA_KEY_BYTES ==> !accepted,
        signature@.len() != MLDSA_SIGNATURE_BYTES ==> !accepted,
{
    let Ok(encoded_key) = ml_dsa::EncodedVerifyingKey::<ml_dsa::MlDsa87>::try_from(public_key) else {
        return false;
    };
    let Ok(encoded_sig) = ml_dsa::EncodedSignature::<ml_dsa::MlDsa87>::try_from(signature) else {
        return false;
    };
    let Some(sig) = ml_dsa::Signature::<ml_dsa::MlDsa87>::decode(&encoded_sig) else {
        return false;
    };
    ml_dsa::VerifyingKey::<ml_dsa::MlDsa87>::decode(&encoded_key).verify(message, &sig).is_ok()
}

/// Calls `StreamCipher::try_apply_keystream` on a fresh `ChaCha20` with the
/// all-zero nonce. The cipher exclusive-ors its keystream into the buffer;
/// it refuses, and leaves the buffer as it was, exactly when the buffer is
/// longer than [`KEYSTREAM_LIMIT`].
#[verifier::external_body]
pub(crate) fn chacha20_apply(key: &[u8; 32], data: &mut Vec<u8>) -> (applied: bool)
    ensures
        applied == (old(data)@.len() <= KEYSTREAM_LIMIT),
        applied ==> final(data)@ == xor_bytes(
            old(data)@,
            chacha20_keystream(key@, old(data)@.len()),
        ),
        !applied ==> final(data)@ == old(data)@,
{
    let mut cipher = chacha20::ChaCha20::new(&(*key).into(), &[0u8; 12].into());
    cipher.try_apply_keystream(data.as_mut_slice()).is_ok()
}

/// Thirty-two bytes from `rand::random`. Nothing is promised of them.
#[verifier::external_body]
pub(crate) fn random_bytes32() -> (bytes: [u8; 32]) {
    rand::random()
}

/// The value of a hexadecimal digit, in either case.
pub open spec fn hex_value(c: char) -> Option<u8> {
    if '0' <= c && c <= '9' {
        Some((c as u8 - '0' as u8) as u8)
    } else if 'a' <= c && c <= 'f' {
        Some((c as u8 - 'a' as u8 + 10) as u8)
    } else if 'A' <= c && c <= 'F' {
        Some((c as u8 - 'A' as u8 + 10) as u8)
    } else {
        None
    }
}

/// Text made of an even number of hexadecimal digits.
pub open spec fn is_hex_text(text: Seq<char>) -> bool {
    &&& text.len() % 2 == 0
    &&& forall|i: int| 0 <= i < text.len() ==> hex_value(#[trigger] text[i]) is Some
}

/// The bytes that hexadecimal text stands for, two digits to a byte, the
/// high one first.
pub open spec fn hex_bytes(text: Seq<char>) -> Seq<u8> {
    Seq::new(
        text.len() / 2,
        |i: int| (hex_value(text[2 * i]).unwrap() * 16 + hex_value(text[2 * i + 1]).unwrap()) as u8,
    )
}

/// The lower-case hexadecimal digit for a value below sixteen.
pub open spec fn hex_digit(nibble: u8) -> char {
    if nibble < 10 {
        ('0' as u8 + nibble) as char
    } else {
        ('a' as u8 + nibble - 10) as char
    }
}

/// Bytes as lower-case hexadecimal text, two digits to a byte, the high one
/// first.
pub open spec fn hex_text(bytes: Seq<u8>) -> Seq<char> {
    Seq::new(
        2 * bytes.len(),
        |i: int|
            if i % 2 == 0 {
                hex_digit(bytes[i / 2] / 16)
            } else {
                hex_digit(bytes[i / 2] % 16)
            },
    )
}

/// Calls `hex::decode`. It accepts digits of either case, and rejects text of
/// odd length or with any other character.
#[verifier::external_body]
pub(crate) fn hex_decode(text: &str) -> (bytes: Option<Vec<u8>>)
    ensures
        bytes is Some <==> is_hex_text(text@),
        bytes matches Some(b) ==> b@ == hex_bytes(text@),
{
    hex::decode(text).ok()
}

/// Calls `hex::encode`, which writes two lower-case digits per byte.
#[verifier::external_body]
pub(crate) fn hex_encode(bytes: &[u8]) -> (text: String)
    ensures
        text@ == hex_text(bytes@),
{
    hex::encode(bytes)
}

} // verus!
