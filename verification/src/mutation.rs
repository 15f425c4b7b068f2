//! The mutation: one journal transaction as it travels and as the relay
//! stores it, encrypted and signed.

use vstd::prelude::*;
use vstd::array::array_as_slice;
use crate::codec::bytes_eq;
use crate::codec::enc_bytes;
use crate::codec::enc_opt_bytes;
use crate::codec::enc_opt_fixed;
use crate::codec::enc_u64;
use crate::codec::get_bytes;
use crate::codec::get_opt_bytes;
use crate::codec::get_raw;
use crate::codec::get_u64;
use crate::codec::lemma_enc_bytes_of_parse;
use crate::codec::lemma_enc_fixed_of_parse;
use crate::codec::lemma_enc_opt_bytes_of_parse;
use crate::codec::lemma_enc_opt_fixed_of_parse;
use crate::codec::lemma_enc_u64_len;
use crate::codec::lemma_enc_u64_of_parse;
use crate::codec::lemma_parse_bytes_of_enc;
use crate::codec::lemma_parse_fixed_of_enc;
use crate::codec::lemma_parse_opt_bytes_of_enc;
use crate::codec::lemma_parse_opt_fixed_of_enc;
use crate::codec::lemma_parse_u64_of_enc;
use crate::codec::lemma_stands_join;
use crate::codec::lemma_stands_split;
use crate::codec::lemma_stands_whole;
use crate::codec::parse_bytes;
use crate::codec::parse_fixed;
use crate::codec::parse_opt_bytes;
use crate::codec::parse_opt_fixed;
use crate::codec::parse_u64;
use crate::codec::Parsed;
use crate::codec::put_bytes;
use crate::codec::put_opt_bytes;
use crate::codec::put_raw;
use crate::codec::put_u64;
use crate::codec::stands_at;
use crate::codec::to_array32;
use crate::crypto::blake3_digest;
use crate::crypto::blake3_hash;
use crate::crypto::mldsa_accepts;
use crate::crypto::mldsa_verify;
use crate::crypto::MLDSA_KEY_BYTES;
use crate::crypto::MLDSA_SIGNATURE_BYTES;

verus! {

/// Why an envelope was refused.
#[derive(Clone, Copy, Debug, PartialEq, Eq, Structural)]
pub enum EnvelopeError {
    /// The mutation belongs to another cloud.
    BadIdentity,
    /// The public key does not hash to the cloud's identifier, or differs
    /// from the one the mutation carries.
    BadPublicKey,
    /// The signature over the ciphertext was not accepted.
    BadSignature,
    /// The decrypted transaction carries another index than its envelope.
    IndexMismatch,
    /// The bytes are not the encoding of a record.
    Malformed,
    /// The payload is longer than one keystream can cover.
    TooLarge,
}

/// Public data for a mutation to an encrypted cloud.
///
/// The data is encrypted under a key derived from the cloud's secret, the
/// index and the salt; the encrypted bytes are what is signed.
#[derive(Clone, Debug, PartialEq, Eq)]
pub struct Mutation {
    /// Position of the mutation in the cloud's history.
    pub index: u64,
    /// The encrypted transaction.
    pub data: Vec<u8>,
    /// Signature over `data`.
    pub signature: Vec<u8>,
    /// Hash of the cloud's public key: the cloud's identifier.
    pub public_key_hash: [u8; 32],
    /// The full public key. It must be there when `index == 0`, where the
    /// cloud comes into being.
    pub public_key: Option<Vec<u8>>,
    /// Salt that makes the encryption key of this mutation its own, also
    /// where a second mutation is made for the same index.
    pub salt: [u8; 32],
    /// The encryption key of this mutation, where its author chose to make
    /// the mutation public for good.
    pub mutation_key: Option<[u8; 32]>,
}

/// A [`Mutation`] as plain mathematical data.
pub struct MutationView {
    pub index: u64,
    pub data: Seq<u8>,
    pub signature: Seq<u8>,
    pub public_key_hash: Seq<u8>,
    pub public_key: Option<Seq<u8>>,
    pub salt: Seq<u8>,
    pub mutation_key: Option<Seq<u8>>,
}

impl MutationView {
    /// The field lengths that every stored mutation has.
    pub open spec fn wf(self) -> bool {
        &&& self.data.len() <= u64::MAX
        &&& self.signature.len() <= u64::MAX
        &&& self.public_key_hash.len() == 32
        &&& (self.public_key matches Some(k) ==> k.len() <= u64::MAX)
        &&& self.salt.len() == 32
        &&& (self.mutation_key matches Some(k) ==> k.len() == 32)
    }
}

impl View for Mutation {
    type V = MutationView;

    open spec fn view(&self) -> MutationView {
        MutationView {
            index: self.index,
            data: self.data@,
            signature: self.signature@,
            public_key_hash: self.public_key_hash@,
            public_key: match self.public_key {
                Some(k) => Some(k@),
                None => None,
            },
            salt: self.salt@,
            mutation_key: match self.mutation_key {
                Some(k) => Some(k@),
                None => None,
            },
        }
    }
}

/// The wire form of a mutation: its fields in declaration order.
pub open spec fn encode_mutation(m: MutationView) -> Seq<u8> {
    enc_u64(m.index) + enc_bytes(m.data) + enc_bytes(m.signature) + m.public_key_hash
        + enc_opt_bytes(m.public_key) + m.salt + enc_opt_fixed(m.mutation_key)
}

/// Reads a mutation at `pos`.
pub open spec fn parse_mutation(s: Seq<u8>, pos: int) -> Parsed<MutationView> {
    match parse_u64(s, pos) {
        Some((index, pos1)) => match parse_bytes(s, pos1) {
            Some((data, pos2)) => match parse_bytes(s, pos2) {
                Some((signature, pos3)) => match parse_fixed(s, pos3, 32) {
                    Some((public_key_hash, pos4)) => match parse_opt_bytes(s, pos4) {
                        Some((public_key, pos5)) => match parse_fixed(s, pos5, 32) {
                            Some((salt, pos6)) => match parse_opt_fixed(s, pos6, 32) {
                                Some((mutation_key, pos7)) => Some(
                                    (
                                        MutationView {
                                            index,
                                            data,
                                            signature,
                                            public_key_hash,
                                            public_key,
                                            salt,
                                            mutation_key,
                                        },
                                        pos7,
                                    ),
                                ),
                                None => None,
                            },
                            None => None,
                        },
                        None => None,
                    },
                    None => None,
                },
                None => None,
            },
            None => None,
        },
        None => None,
    }
}

/// The mutation that a whole byte string encodes, if it encodes one.
pub open spec fn decode_mutation(s: Seq<u8>) -> Option<MutationView> {
    match parse_mutation(s, 0) {
        Some((m, next)) => if next == s.len() {
            Some(m)
        } else {
            None
        },
        None => None,
    }
}

/// What was written with [`encode_mutation`] is read back, wherever it stands.
pub proof fn lemma_parse_mutation_of_enc(s: Seq<u8>, pos: int, m: MutationView)
    requires
        m.wf(),
        stands_at(s, pos, encode_mutation(m)),
    ensures
        parse_mutation(s, pos) == Some((m, pos + encode_mutation(m).len())),
{
    let e1 = enc_u64(m.index);
    let e2 = enc_bytes(m.data);
    let e3 = enc_bytes(m.signature);
    let e4 = m.public_key_hash;
    let e5 = enc_opt_bytes(m.public_key);
    let e6 = m.salt;
    let e7 = enc_opt_fixed(m.mutation_key);
    lemma_stands_split(s, pos, e1 + e2 + e3 + e4 + e5 + e6, e7);
    lemma_stands_split(s, pos, e1 + e2 + e3 + e4 + e5, e6);
    lemma_stands_split(s, pos, e1 + e2 + e3 + e4, e5);
    lemma_stands_split(s, pos, e1 + e2 + e3, e4);
    lemma_stands_split(s, pos, e1 + e2, e3);
    lemma_stands_split(s, pos, e1, e2);
    lemma_enc_u64_len(m.index);
    lemma_parse_u64_of_enc(s, pos, m.index);
    let pos1 = pos + e1.len();
    lemma_parse_bytes_of_enc(s, pos1, m.data);
    let pos2 = pos1 + e2.len();
    lemma_parse_bytes_of_enc(s, pos2, m.signature);
    let pos3 = pos2 + e3.len();
    lemma_parse_fixed_of_enc(s, pos3, e4);
    let pos4 = pos3 + e4.len();
    lemma_parse_opt_bytes_of_enc(s, pos4, m.public_key);
    let pos5 = pos4 + e5.len();
    lemma_parse_fixed_of_enc(s, pos5, e6);
    let pos6 = pos5 + e6.len();
    lemma_parse_opt_fixed_of_enc(s, pos6, m.mutation_key, 32);
}

/// What [`parse_mutation`] reads is the encoding of the value it returns.
pub proof fn lemma_enc_mutation_of_parse(s: Seq<u8>, pos: int)
    requires
        parse_mutation(s, pos) is Some,
    ensures
        ({
            let (m, next) = parse_mutation(s, pos).unwrap();
            &&& m.wf()
            &&& stands_at(s, pos, encode_mutation(m))
            &&& next == pos + encode_mutation(m).len()
        }),
{
    let (m, next) = parse_mutation(s, pos).unwrap();
    let (index, pos1) = parse_u64(s, pos).unwrap();
    let (data, pos2) = parse_bytes(s, pos1).unwrap();
    let (signature, pos3) = parse_bytes(s, pos2).unwrap();
    let (public_key_hash, pos4) = parse_fixed(s, pos3, 32).unwrap();
    let (public_key, pos5) = parse_opt_bytes(s, pos4).unwrap();
    let (salt, pos6) = parse_fixed(s, pos5, 32).unwrap();
    let (mutation_key, pos7) = parse_opt_fixed(s, pos6, 32).unwrap();
    lemma_enc_u64_of_parse(s, pos);
    lemma_enc_bytes_of_parse(s, pos1);
    lemma_enc_bytes_of_parse(s, pos2);
    lemma_enc_fixed_of_parse(s, pos3, 32);
    lemma_enc_opt_bytes_of_parse(s, pos4);
    lemma_enc_fixed_of_parse(s, pos5, 32);
    lemma_enc_opt_fixed_of_parse(s, pos6, 32);
    let e1 = enc_u64(m.index);
    let e2 = enc_bytes(m.data);
    let e3 = enc_bytes(m.signature);
    let e4 = m.public_key_hash;
    let e5 = enc_opt_bytes(m.public_key);
    let e6 = m.salt;
    let e7 = enc_opt_fixed(m.mutation_key);
    lemma_enc_u64_len(m.index);
    lemma_stands_join(s, pos, e1, e2);
    lemma_stands_join(s, pos, e1 + e2, e3);
    lemma_stands_join(s, pos, e1 + e2 + e3, e4);
    lemma_stands_join(s, pos, e1 + e2 + e3 + e4, e5);
    lemma_stands_join(s, pos, e1 + e2 + e3 + e4 + e5, e6);
    lemma_stands_join(s, pos, e1 + e2 + e3 + e4 + e5 + e6, e7);
}

/// Decoding undoes encoding.
pub proof fn lemma_decode_encode_mutation(m: MutationView)
    requires
        m.wf(),
    ensures
        decode_mutation(encode_mutation(m)) == Some(m),
{
    lemma_stands_whole(encode_mutation(m));
    lemma_parse_mutation_of_enc(encode_mutation(m), 0, m);
}

/// Only the encoding of a mutation decodes to it: the wire form is unique.
pub proof fn lemma_encode_decode_mutation(s: Seq<u8>)
    requires
        decode_mutation(s) is Some,
    ensures
        decode_mutation(s).unwrap().wf(),
        encode_mutation(decode_mutation(s).unwrap()) == s,
{
    lemma_enc_mutation_of_parse(s, 0);
    assert(s.subrange(0, s.len() as int) =~= s);
}

/// What [`Mutation::verify`] decides, given the mutation and the key it is
/// held against.
pub open spec fn spec_verify(m: MutationView, public_key: Seq<u8>) -> Result<(), EnvelopeError> {
    match spec_key_binding(m, public_key, blake3_digest(public_key)) {
        Err(e) => Err(e),
        Ok(()) => if mldsa_accepts(public_key, m.data, m.signature) {
            Ok(())
        } else {
            Err(EnvelopeError::BadSignature)
        },
    }
}

/// Whether a public key with the given digest is the one a mutation is
/// bound to: the digest is the identifier the mutation names, a key that
/// the mutation carries is this key, and the first mutation of a cloud
/// carries its key.
pub open spec fn spec_key_binding(m: MutationView, public_key: Seq<u8>, digest: Seq<u8>) -> Result<
    (),
    EnvelopeError,
> {
    if digest != m.public_key_hash {
        Err(EnvelopeError::BadPublicKey)
    } else if m.public_key is Some && m.public_key.unwrap() != public_key {
        Err(EnvelopeError::BadPublicKey)
    } else if m.index == 0 && m.public_key is None {
        Err(EnvelopeError::BadPublicKey)
    } else {
        Ok(())
    }
}

/// Appends the wire form of a mutation.
pub fn put_mutation(out: &mut Vec<u8>, m: &Mutation)
    ensures
        final(out)@ == old(out)@ + encode_mutation(m@),
{
    let ghost before = out@;
    put_u64(out, m.index);
    put_bytes(out, m.data.as_slice());
    put_bytes(out, m.signature.as_slice());
    put_raw(out, array_as_slice(&m.public_key_hash));
    put_opt_bytes(out, &m.public_key);
    put_raw(out, array_as_slice(&m.salt));
    match &m.mutation_key {
        None => {
            out.push(0u8);
        },
        Some(k) => {
            out.push(1u8);
            put_raw(out, array_as_slice(k));
        },
    }
    assert(out@ =~= before + encode_mutation(m@));
}

/// Reads a mutation at `pos`.
pub fn get_mutation(bytes: &[u8], pos: usize) -> (r: Option<(Mutation, usize)>)
    ensures
        match r {
            Some((m, next)) => parse_mutation(bytes@, pos as int) == Some((m@, next as int)),
            None => parse_mutation(bytes@, pos as int) is None,
        },
{
    let (index, pos1) = match get_u64(bytes, pos) {
        Some(x) => x,
        None => return None,
    };
    let (data, pos2) = match get_bytes(bytes, pos1) {
        Some(x) => x,
        None => return None,
    };
    let (signature, pos3) = match get_bytes(bytes, pos2) {
        Some(x) => x,
        None => return None,
    };
    let (hash, pos4) = match get_raw(bytes, pos3, 32) {
        Some(x) => x,
        None => return None,
    };
    let (public_key, pos5) = match get_opt_bytes(bytes, pos4) {
        Some(x) => x,
        None => return None,
    };
    let (salt, pos6) = match get_raw(bytes, pos5, 32) {
        Some(x) => x,
        None => return None,
    };
    if pos6 >= bytes.len() {
        return None;
    }
    let tag = bytes[pos6];
    let (mutation_key, pos7) = if tag == 0 {
        (None, pos6 + 1)
    } else if tag == 1 {
        match get_raw(bytes, pos6 + 1, 32) {
            Some((k, next)) => (Some(to_array32(k.as_slice())), next),
            None => return None,
        }
    } else {
        return None;
    };
    Some(
        (
            Mutation {
                index,
                data,
                signature,
                public_key_hash: to_array32(hash.as_slice()),
                public_key,
                salt: to_array32(salt.as_slice()),
                mutation_key,
            },
            pos7,
        ),
    )
}

/// Whether the hash of a mutation has a definition. It has none: what
/// enters it beside the ciphertext is not settled, and a hash that one
/// device computes and another does not is worse than none.
pub open spec fn hash_defined() -> bool {
    false
}

/// A mutation is refused under every key but the one it is bound to: under
/// any other key where the mutation carries its key, as the first mutation
/// of a cloud does, and under any key with another digest where it carries
/// none.
pub proof fn lemma_other_key_rejected(m: MutationView, key: Seq<u8>, other: Seq<u8>)
    requires
        other != key,
        m.public_key == Some(key) || blake3_digest(other) != m.public_key_hash,
    ensures
        spec_verify(m, other) == Err::<(), EnvelopeError>(EnvelopeError::BadPublicKey),
{
}

/// A mutation whose binding was tampered with is refused under the right
/// key: one that names another identifier than the key's digest, and one
/// that carries another key.
pub proof fn lemma_tampered_binding_rejected(m: MutationView, key: Seq<u8>)
    requires
        m.public_key_hash != blake3_digest(key) || (m.public_key is Some && m.public_key.unwrap()
            != key),
    ensures
        spec_verify(m, key) == Err::<(), EnvelopeError>(EnvelopeError::BadPublicKey),
{
}

impl Mutation {
    /// Every mutation in memory has the field lengths of [`MutationView::wf`].
    pub proof fn lemma_view_wf(&self)
        ensures
            self@.wf(),
    {
        assert(self.data@.len() == self.data.len());
        assert(self.signature@.len() == self.signature.len());
        assert(self.public_key_hash@.len() == 32);
        assert(self.salt@.len() == 32);
        match self.public_key {
            Some(k) => {
                assert(k@.len() == k.len());
            },
            None => {},
        }
        match self.mutation_key {
            Some(k) => {
                assert(k@.len() == 32);
            },
            None => {},
        }
    }

    /// The hash of a mutation. It has no definition yet, see
    /// [`hash_defined`]: nothing may call this, and the contract admits no
    /// call.
    pub fn hash() -> (digest: [u8; 32])
        requires
            hash_defined(),
    {
        vstd::pervasive::unreached()
    }

    /// The wire form of the mutation.
    pub fn to_bytes(&self) -> (bytes: Vec<u8>)
        ensures
            bytes@ == encode_mutation(self@),
            self@.wf(),
    {
        let mut out: Vec<u8> = Vec::new();
        put_mutation(&mut out, self);
        assert(out@ =~= encode_mutation(self@));
        proof {
            self.lemma_view_wf();
        }
        out
    }

    /// Reads a mutation from its wire form. Bytes that are not the wire form
    /// of any mutation, or that go on behind one, are refused.
    pub fn from_bytes(bytes: &[u8]) -> (r: Option<Mutation>)
        ensures
            match r {
                Some(m) => decode_mutation(bytes@) == Some(m@),
                None => decode_mutation(bytes@) is None,
            },
    {
        match get_mutation(bytes, 0) {
            Some((m, next)) => {
                if next == bytes.len() {
                    Some(m)
                } else {
                    None
                }
            },
            None => None,
        }
    }

    /// Holds the mutation against a public key whose BLAKE3 digest the caller
    /// has computed: the digest must be the cloud identifier the mutation
    /// names, a key that the mutation carries must be this very key, and the
    /// mutation at index zero must carry one.
    pub fn check_key_binding(&self, public_key: &[u8], digest: &[u8; 32]) -> (r: Result<
        (),
        EnvelopeError,
    >)
        ensures
            r == spec_key_binding(self@, public_key@, digest@),
    {
        if !bytes_eq(array_as_slice(digest), array_as_slice(&self.public_key_hash)) {
            return Err(EnvelopeError::BadPublicKey);
        }
        match &self.public_key {
            Some(carried) => {
                if !bytes_eq(carried.as_slice(), public_key) {
                    return Err(EnvelopeError::BadPublicKey);
                }
            },
            None => {
                if self.index == 0 {
                    return Err(EnvelopeError::BadPublicKey);
                }
            },
        }
        Ok(())
    }

    /// Verifies that the public key hashes to `public_key_hash`, that it is
    /// the key the mutation carries, which at index zero it must, and that
    /// the signature over `data` is accepted under it. A key or a signature
    /// that has not the length of its kind is refused whatever it holds.
    pub fn verify(&self, public_key: Vec<u8>) -> (r: Result<(), EnvelopeError>)
        ensures
            r == spec_verify(self@, public_key@),
            public_key@.len() != MLDSA_KEY_BYTES ==> r is Err,
            self@.signature.len() != MLDSA_SIGNATURE_BYTES ==> r is Err,
    {
        let digest = blake3_hash(public_key.as_slice());
        match self.check_key_binding(public_key.as_slice(), &digest) {
            Err(e) => Err(e),
            Ok(()) => {
                if mldsa_verify(
                    public_key.as_slice(),
                    self.data.as_slice(),
                    self.signature.as_slice(),
                ) {
                    Ok(())
                } else {
                    Err(EnvelopeError::BadSignature)
                }
            },
        }
    }
}

} // verus!
