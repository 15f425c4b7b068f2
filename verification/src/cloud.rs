//! A cloud: a secret, the identity that follows from it, and the journal it
//! owns. This is the only place that holds the secret, and so the only place
//! that can seal a transaction into a mutation or open one.

use vstd::prelude::*;
use vstd::array::array_as_slice;
use vstd::string::*;
use vstd::utf8::*;
use crate::codec::bytes_eq;
use crate::codec::enc_u64;
use crate::codec::put_raw;
use crate::codec::put_u64;
use crate::crypto::blake3_digest;
use crate::crypto::blake3_hash;
use crate::crypto::chacha20_apply;
use crate::crypto::chacha20_keystream;
use crate::crypto::hex_encode;
use crate::crypto::hex_text;
use crate::crypto::KEYSTREAM_LIMIT;
use crate::crypto::lemma_xor_twice;
use crate::crypto::mldsa_public_key;
use crate::crypto::mldsa_sign;
use crate::crypto::mldsa_signature;
use crate::crypto::mldsa_verifying_key;
use crate::crypto::random_bytes32;
use crate::crypto::xor_bytes;
use crate::journal::expected_hash;
use crate::journal::Journal;
use crate::journal::JournalError;
use crate::metadata::CloudMetadata;
use crate::metadata::decode_metadata;
use crate::codec::lemma_enc_u64_len;
use crate::metadata::encode_metadata;
use crate::metadata::FRESH_NAME_LIMIT;
use crate::transaction::encode_operation;
use crate::transaction::encode_operations;
use crate::metadata::MetadataView;
use crate::mutation::EnvelopeError;
use crate::mutation::Mutation;
use crate::mutation::MutationView;
use crate::mutation::spec_verify;
use crate::transaction::decode_transaction;
use crate::transaction::encode_transaction;
use crate::transaction::JournalTransaction;
use crate::transaction::lemma_decode_encode_transaction;
use crate::transaction::OperationView;
use crate::transaction::transaction_hash;
use crate::transaction::TransactionView;
use crate::wire::Action;
use crate::wire::ActionView;
use crate::wire::Response;
use crate::wire::ResponseView;

verus! {

/// The table of a cloud's journal that is kept for the cloud's own records.
pub const CLOUD_TABLE: &'static str = "_______cloud_data";

/// The key under which the metadata record stands in [`CLOUD_TABLE`].
pub const METADATA_KEY: &'static str = "metadata";

/// [`CLOUD_TABLE`] as the bytes that name the table.
pub open spec fn metadata_table() -> Seq<u8> {
    CLOUD_TABLE.spec_bytes()
}

/// [`METADATA_KEY`] as the bytes of the key.
pub open spec fn metadata_key() -> Seq<u8> {
    METADATA_KEY.spec_bytes()
}

/// The identifier of the cloud with the given secret: the BLAKE3 digest of
/// the encoded verifying key that is generated from the secret.
pub open spec fn cloud_id(secret: Seq<u8>) -> Seq<u8> {
    blake3_digest(mldsa_verifying_key(secret))
}

/// The encryption key of one mutation: the digest of secret, index and salt.
pub open spec fn mutation_key(secret: Seq<u8>, index: u64, salt: Seq<u8>) -> Seq<u8> {
    blake3_digest(secret + enc_u64(index) + salt)
}

/// A payload under the keystream of one mutation. Encrypting and decrypting
/// are the same operation.
pub open spec fn keystream_applied(secret: Seq<u8>, index: u64, salt: Seq<u8>, payload: Seq<u8>) -> Seq<u8> {
    xor_bytes(payload, chacha20_keystream(mutation_key(secret, index, salt), payload.len()))
}

/// The public key that a mutation at `index` carries: the full key at index
/// zero, where the cloud comes into being, and none later.
pub open spec fn carried_key(index: u64, public_key: Seq<u8>) -> Option<Seq<u8>> {
    if index == 0 {
        Some(public_key)
    } else {
        None
    }
}

/// The mutation that sealing `tx` under `secret` with `salt` gives.
pub open spec fn seal(secret: Seq<u8>, tx: TransactionView, salt: Seq<u8>) -> MutationView {
    let data = keystream_applied(secret, tx.index, salt, encode_transaction(tx));
    MutationView {
        index: tx.index,
        data,
        signature: mldsa_signature(secret, data),
        public_key_hash: cloud_id(secret),
        public_key: carried_key(tx.index, mldsa_verifying_key(secret)),
        salt,
        mutation_key: None,
    }
}

/// What a decrypted payload holds for a mutation at `index`: the transaction
/// it decodes to, which must carry that index.
pub open spec fn read_plaintext(plaintext: Seq<u8>, index: u64) -> Result<
    (TransactionView, u64),
    EnvelopeError,
> {
    match decode_transaction(plaintext) {
        None => Err(EnvelopeError::Malformed),
        Some(tx) => if tx.index != index {
            Err(EnvelopeError::IndexMismatch)
        } else {
            Ok((tx, index))
        },
    }
}

/// What opening a mutation under `secret` gives: the checks in the order in
/// which they are made, and the transaction where all of them pass.
pub open spec fn open_envelope(secret: Seq<u8>, m: MutationView) -> Result<
    (TransactionView, u64),
    EnvelopeError,
> {
    if m.public_key_hash != cloud_id(secret) {
        Err(EnvelopeError::BadIdentity)
    } else {
        match spec_verify(m, mldsa_verifying_key(secret)) {
            Err(e) => Err(e),
            Ok(()) => if m.data.len() > KEYSTREAM_LIMIT {
                Err(EnvelopeError::TooLarge)
            } else {
                read_plaintext(keystream_applied(secret, m.index, m.salt, m.data), m.index)
            },
        }
    }
}

/// A mutation that was sealed under a secret opens under that secret to the
/// transaction that was sealed, whatever the salt; provided the signature
/// that sealing made is one the scheme accepts, as every signature made by
/// the signing wrapper is.
pub proof fn lemma_open_sealed(secret: Seq<u8>, tx: TransactionView, salt: Seq<u8>)
    requires
        tx.wf(),
        encode_transaction(tx).len() <= KEYSTREAM_LIMIT,
        crate::crypto::mldsa_accepts(
            mldsa_verifying_key(secret),
            seal(secret, tx, salt).data,
            seal(secret, tx, salt).signature,
        ),
    ensures
        spec_verify(seal(secret, tx, salt), mldsa_verifying_key(secret)) == Ok::<(), EnvelopeError>(()),
        open_envelope(secret, seal(secret, tx, salt)) == Ok::<(TransactionView, u64), EnvelopeError>(
            (tx, tx.index),
        ),
{
    let plain = encode_transaction(tx);
    let stream = chacha20_keystream(mutation_key(secret, tx.index, salt), plain.len());
    lemma_xor_twice(plain, stream);
    lemma_decode_encode_transaction(tx);
    let m = seal(secret, tx, salt);
    assert(m.data.len() == plain.len());
    assert(keystream_applied(secret, m.index, m.salt, m.data) == plain);
}

/// The transaction that writes the metadata of a new cloud fits one
/// keystream, where the name is within the limit of a generated one and
/// there is neither description nor relay address.
pub proof fn lemma_first_transaction_fits(m: MetadataView)
    requires
        encode_utf8(m.name).len() <= FRESH_NAME_LIMIT,
        m.description == Seq::<char>::empty(),
        m.remote_url is None,
    ensures
        encode_transaction(
            TransactionView {
                index: 0,
                operations: seq![metadata_write(m)],
                last_tx_hash: crate::transaction::genesis_hash(),
            },
        ).len() <= KEYSTREAM_LIMIT,
{
    reveal_strlit("_______cloud_data");
    reveal_strlit("metadata");
    is_ascii_chars_encode_utf8(CLOUD_TABLE@);
    is_ascii_chars_encode_utf8(METADATA_KEY@);
    assert(metadata_table().len() == 17);
    assert(metadata_key().len() == 8);
    assert(encode_utf8(m.description) =~= Seq::<u8>::empty());
    lemma_enc_u64_len(0);
    lemma_enc_u64_len(1);
    lemma_enc_u64_len(m.created_at);
    lemma_enc_u64_len(17);
    lemma_enc_u64_len(8);
    lemma_enc_u64_len(encode_utf8(m.name).len() as u64);
    let value = encode_metadata(m);
    assert(value.len() == 8 + (8 + encode_utf8(m.name).len()) + 8 + 1);
    lemma_enc_u64_len(value.len() as u64);
    let ops = seq![metadata_write(m)];
    assert(ops.drop_last() =~= Seq::<OperationView>::empty());
    assert(encode_operations(ops.drop_last()) =~= Seq::<u8>::empty());
    assert(encode_operations(ops) == encode_operations(ops.drop_last()) + encode_operation(
        ops.last(),
    ));
}

/// Decodes a decrypted payload and holds the transaction's index against the
/// index of the envelope it came in.
pub fn open_plaintext(plaintext: &[u8], index: u64) -> (r: Result<
    (JournalTransaction, u64),
    EnvelopeError,
>)
    ensures
        match r {
            Ok((tx, i)) => read_plaintext(plaintext@, index) == Ok::<
                (TransactionView, u64),
                EnvelopeError,
            >((tx@, i)),
            Err(e) => read_plaintext(plaintext@, index) == Err::<
                (TransactionView, u64),
                EnvelopeError,
            >(e),
        },
{
    match JournalTransaction::from_bytes(plaintext) {
        None => Err(EnvelopeError::Malformed),
        Some(tx) => {
            if tx.index != index {
                Err(EnvelopeError::IndexMismatch)
            } else {
                Ok((tx, index))
            }
        },
    }
}

/// Puts the parts of an envelope together. The public key goes in only at
/// index zero, and the mutation key is never disclosed.
pub fn assemble_mutation(
    index: u64,
    data: Vec<u8>,
    signature: Vec<u8>,
    id: [u8; 32],
    public_key: &Vec<u8>,
    salt: [u8; 32],
) -> (m: Mutation)
    ensures
        m@ == (MutationView {
            index,
            data: data@,
            signature: signature@,
            public_key_hash: id@,
            public_key: carried_key(index, public_key@),
            salt: salt@,
            mutation_key: None,
        }),
{
    Mutation {
        index,
        data,
        signature,
        public_key_hash: id,
        public_key: if index == 0 {
            Some(public_key.clone())
        } else {
            None
        },
        salt,
        mutation_key: None,
    }
}

/// Derives the encryption key of one mutation.
fn derive_mutation_key(secret: &[u8; 32], index: u64, salt: &[u8; 32]) -> (key: [u8; 32])
    ensures
        key@ == mutation_key(secret@, index, salt@),
{
    let mut preimage: Vec<u8> = Vec::new();
    put_raw(&mut preimage, array_as_slice(secret));
    put_u64(&mut preimage, index);
    put_raw(&mut preimage, array_as_slice(salt));
    assert(preimage@ =~= secret@ + enc_u64(index) + salt@);
    blake3_hash(preimage.as_slice())
}

/// Why a cloud could not take what the relay sent over the notification
/// channel.
#[derive(Clone, Copy, Debug, PartialEq, Eq, Structural)]
pub enum UpdateError {
    /// The mutation does not open under the cloud's secret.
    Envelope(EnvelopeError),
    /// The transaction does not continue the journal.
    Journal(JournalError),
}

/// What [`Cloud::update`] makes of a response: the action to send back, if
/// any, and the transaction to put behind the journal, if any. News of a
/// mutation the journal does not have is answered by asking for it; a
/// mutation that comes next is opened and appended; one that does not come
/// next is let go, and so is everything else.
pub open spec fn update_view(secret: Seq<u8>, log: Seq<TransactionView>, response: ResponseView) -> Result<
    (Option<ActionView>, Option<TransactionView>),
    UpdateError,
> {
    match response {
        ResponseView::CloudMutated(index, _) => if index >= log.len() {
            Ok((Some(ActionView::GetMutation(index)), None))
        } else {
            Ok((None, None))
        },
        ResponseView::CloudMutation(m) => if m.index != log.len() {
            Ok((None, None))
        } else {
            match open_envelope(secret, m) {
                Err(e) => Err(UpdateError::Envelope(e)),
                Ok((tx, _)) => match crate::journal::append_check(log, tx) {
                    Err(e) => Err(UpdateError::Journal(e)),
                    Ok(()) => Ok((None, Some(tx))),
                },
            }
        },
        _ => Ok((None, None)),
    }
}

/// What the journal holds as the metadata record: nothing, a record, or
/// bytes that are none.
pub open spec fn stored_metadata(journal: Journal) -> Result<Option<MetadataView>, EnvelopeError> {
    let place = (metadata_table(), metadata_key());
    if !journal.store().dom().contains(place) {
        Ok(None)
    } else {
        match decode_metadata(journal.store()[place]) {
            Some(m) => Ok(Some(m)),
            None => Err(EnvelopeError::Malformed),
        }
    }
}

/// The operation that writes a metadata record into a cloud's journal.
pub open spec fn metadata_write(m: MetadataView) -> OperationView {
    OperationView::Insert {
        table: metadata_table(),
        key: metadata_key(),
        value: encode_metadata(m),
    }
}

/// Reads the metadata record out of a journal.
pub fn load_metadata(journal: &Journal) -> (r: Result<Option<CloudMetadata>, EnvelopeError>)
    requires
        journal.wf(),
    ensures
        match r {
            Ok(Some(m)) => stored_metadata(*journal) == Ok::<Option<MetadataView>, EnvelopeError>(
                Some(m@),
            ),
            Ok(None) => stored_metadata(*journal) == Ok::<Option<MetadataView>, EnvelopeError>(None),
            Err(e) => stored_metadata(*journal) == Err::<Option<MetadataView>, EnvelopeError>(e),
        },
{
    match journal.get(CLOUD_TABLE.as_bytes(), METADATA_KEY.as_bytes()) {
        None => Ok(None),
        Some(bytes) => match CloudMetadata::from_bytes(bytes.as_slice()) {
            Some(m) => Ok(Some(m)),
            None => Err(EnvelopeError::Malformed),
        },
    }
}

/// A keypair-owned journal.
pub struct Cloud {
    metadata: CloudMetadata,
    /// Public key that identifies the cloud.
    public_key: Vec<u8>,
    /// Private key that may mutate the cloud.
    private_key: [u8; 32],
    db: Journal,
    id: [u8; 32],
}

impl Cloud {
    /// The cloud's secret.
    pub closed spec fn secret(&self) -> Seq<u8> {
        self.private_key@
    }

    /// The cloud's journal.
    pub closed spec fn journal(&self) -> Journal {
        self.db
    }

    /// The metadata the cloud holds in memory.
    pub closed spec fn metadata_view(&self) -> MetadataView {
        self.metadata@
    }

    /// The cloud's invariant: key and identifier are those that follow from
    /// the secret, and the journal is a journal.
    pub closed spec fn wf(&self) -> bool {
        &&& self.public_key@ == mldsa_verifying_key(self.private_key@)
        &&& self.id@ == cloud_id(self.private_key@)
        &&& self.db.wf()
    }

    /// A cloud's journal is well formed and chained, and its secret has
    /// thirty-two bytes.
    pub proof fn lemma_wf_parts(&self)
        requires
            self.wf(),
        ensures
            self.journal().wf(),
            crate::journal::chained(self.journal().log()),
            self.secret().len() == 32,
    {
        self.db.lemma_hash_chain();
    }

    /// The cloud's identifier.
    pub fn id(&self) -> (id: &[u8; 32])
        requires
            self.wf(),
        ensures
            id@ == cloud_id(self.secret()),
    {
        &self.id
    }

    /// The cloud's identifier as lower-case hexadecimal text.
    pub fn id_hex(&self) -> (text: String)
        requires
            self.wf(),
        ensures
            text@ == hex_text(cloud_id(self.secret())),
    {
        hex_encode(array_as_slice(&self.id))
    }

    /// The cloud's secret as lower-case hexadecimal text: the form in which a
    /// cloud is handed to another device.
    pub fn export_key(&self) -> (text: String)
        ensures
            text@ == hex_text(self.secret()),
    {
        hex_encode(array_as_slice(&self.private_key))
    }

    /// The metadata the cloud holds in memory.
    pub fn metadata(&self) -> (m: &CloudMetadata)
        ensures
            m@ == self.metadata_view(),
    {
        &self.metadata
    }

    /// The cloud's journal, to read from.
    pub fn db(&self) -> (journal: &Journal)
        ensures
            *journal == self.journal(),
    {
        &self.db
    }

    /// The identifier that follows from a secret.
    pub fn id_from_key(private_key: [u8; 32]) -> (id: [u8; 32])
        ensures
            id@ == cloud_id(private_key@),
    {
        let public_key = mldsa_public_key(&private_key);
        blake3_hash(public_key.as_slice())
    }

    /// The cloud with the given secret around a journal that was built
    /// elsewhere. Nothing is written: the journal stays as it came. The
    /// metadata is the record the journal holds; where it holds none, as in
    /// a journal that is still to be rebuilt from the relay, `fallback`
    /// stands in for it. A journal whose record does not decode is refused.
    pub fn open(private_key: [u8; 32], journal: Journal, fallback: CloudMetadata) -> (r: Result<
        Cloud,
        EnvelopeError,
    >)
        requires
            journal.wf(),
        ensures
            match r {
                Ok(cloud) => {
                    &&& cloud.wf()
                    &&& cloud.secret() == private_key@
                    &&& cloud.journal() == journal
                    &&& match stored_metadata(journal) {
                        Ok(Some(m)) => cloud.metadata_view() == m,
                        Ok(None) => cloud.metadata_view() == fallback@,
                        Err(_) => false,
                    }
                },
                Err(e) => stored_metadata(journal) == Err::<Option<MetadataView>, EnvelopeError>(e),
            },
    {
        let metadata = match load_metadata(&journal) {
            Err(e) => return Err(e),
            Ok(Some(m)) => m,
            Ok(None) => fallback,
        };
        let public_key = mldsa_public_key(&private_key);
        let id = blake3_hash(public_key.as_slice());
        Ok(Cloud { metadata, public_key, private_key, db: journal, id })
    }

    /// A new in-memory cloud with the given secret and metadata: its journal
    /// holds the one transaction that writes the metadata.
    pub fn from_key_with(private_key: [u8; 32], metadata: CloudMetadata) -> (cloud: Cloud)
        ensures
            cloud.wf(),
            cloud.secret() == private_key@,
            cloud.metadata_view() == metadata@,
            cloud.journal().log() == seq![
                TransactionView {
                    index: 0,
                    operations: seq![metadata_write(metadata@)],
                    last_tx_hash: crate::transaction::genesis_hash(),
                },
            ],
    {
        let mut journal = Journal::new();
        let bytes = metadata.to_bytes();
        journal.insert(CLOUD_TABLE.as_bytes(), METADATA_KEY.as_bytes(), bytes.as_slice());
        let public_key = mldsa_public_key(&private_key);
        let id = blake3_hash(public_key.as_slice());
        let cloud = Cloud { metadata, public_key, private_key, db: journal, id };
        assert(cloud.journal().log() =~= seq![
            TransactionView {
                index: 0,
                operations: seq![metadata_write(metadata@)],
                last_tx_hash: crate::transaction::genesis_hash(),
            },
        ]);
        cloud
    }

    /// The cloud with the given secret as a device knows it that has been
    /// handed the secret and nothing else: the journal is empty, to be
    /// rebuilt from the relay, and the metadata is a placeholder until then.
    pub fn import(private_key: [u8; 32], placeholder: CloudMetadata) -> (cloud: Cloud)
        ensures
            cloud.wf(),
            cloud.secret() == private_key@,
            cloud.metadata_view() == placeholder@,
            cloud.journal().log() == Seq::<TransactionView>::empty(),
    {
        let public_key = mldsa_public_key(&private_key);
        let id = blake3_hash(public_key.as_slice());
        Cloud { metadata: placeholder, public_key, private_key, db: Journal::new(), id }
    }

    /// Takes the metadata record of the journal as the cloud's metadata, if
    /// the journal holds one that decodes; says whether it did.
    pub fn refresh_metadata(&mut self) -> (refreshed: bool)
        requires
            old(self).wf(),
        ensures
            final(self).wf(),
            final(self).secret() == old(self).secret(),
            final(self).journal() == old(self).journal(),
            match stored_metadata(old(self).journal()) {
                Ok(Some(m)) => refreshed && final(self).metadata_view() == m,
                _ => !refreshed && final(self).metadata_view() == old(self).metadata_view(),
            },
    {
        match load_metadata(&self.db) {
            Ok(Some(m)) => {
                self.metadata = m;
                true
            },
            _ => false,
        }
    }

    /// The cloud with the given secret on a device that holds no journal for
    /// it yet. Nothing is written: the journal is empty, to be rebuilt by
    /// pulling from the relay, and until then the metadata is a placeholder
    /// made now under a random name.
    pub fn from_key(private_key: [u8; 32]) -> (cloud: Cloud)
        ensures
            cloud.wf(),
            cloud.secret() == private_key@,
            cloud.journal().log() == Seq::<TransactionView>::empty(),
            cloud.metadata_view().description == Seq::<char>::empty(),
            cloud.metadata_view().remote_url is None,
    {
        Cloud::import(private_key, CloudMetadata::fresh())
    }

    /// A new cloud under a secret drawn at random, with metadata made now
    /// under a random name. Its journal holds the one transaction that
    /// writes the metadata, and that transaction is short enough to be
    /// sealed.
    pub fn new() -> (cloud: Cloud)
        ensures
            cloud.wf(),
            cloud.metadata_view().description == Seq::<char>::empty(),
            cloud.metadata_view().remote_url is None,
            cloud.journal().log() == seq![
                TransactionView {
                    index: 0,
                    operations: seq![metadata_write(cloud.metadata_view())],
                    last_tx_hash: crate::transaction::genesis_hash(),
                },
            ],
            encode_transaction(cloud.journal().log()[0]).len() <= KEYSTREAM_LIMIT,
    {
        let metadata = CloudMetadata::fresh();
        proof {
            lemma_first_transaction_fits(metadata@);
        }
        Cloud::from_key_with(random_bytes32(), metadata)
    }

    /// Seals a transaction with the given salt: encodes it, encrypts the
    /// encoding under the key derived from secret, index and salt, and signs
    /// the ciphertext. Only a transaction too long for one keystream is
    /// refused. What is sealed verifies under the cloud's public key and
    /// opens, under the cloud's secret, to the transaction that went in.
    pub fn encrypt_tx_with_salt(&self, transaction: &JournalTransaction, salt: [u8; 32]) -> (r:
        Result<Mutation, EnvelopeError>)
        requires
            self.wf(),
        ensures
            match r {
                Ok(m) => {
                    &&& encode_transaction(transaction@).len() <= KEYSTREAM_LIMIT
                    &&& m@ == seal(self.secret(), transaction@, salt@)
                    &&& spec_verify(m@, mldsa_verifying_key(self.secret())) == Ok::<
                        (),
                        EnvelopeError,
                    >(())
                    &&& open_envelope(self.secret(), m@) == Ok::<
                        (TransactionView, u64),
                        EnvelopeError,
                    >((transaction@, transaction.index))
                },
                Err(e) => e == EnvelopeError::TooLarge && encode_transaction(transaction@).len()
                    > KEYSTREAM_LIMIT,
            },
    {
        let mut data = transaction.to_bytes();
        let key = derive_mutation_key(&self.private_key, transaction.index, &salt);
        if !chacha20_apply(&key, &mut data) {
            return Err(EnvelopeError::TooLarge);
        }
        let signature = mldsa_sign(&self.private_key, data.as_slice());
        let m = assemble_mutation(
            transaction.index,
            data,
            signature,
            self.id,
            &self.public_key,
            salt,
        );
        proof {
            lemma_open_sealed(self.secret(), transaction@, salt@);
        }
        Ok(m)
    }

    /// Seals a transaction under a salt drawn at random, so that no two
    /// mutations share an encryption key, not even two for one index.
    pub fn encrypt_tx(&self, transaction: &JournalTransaction) -> (r: Result<
        Mutation,
        EnvelopeError,
    >)
        requires
            self.wf(),
        ensures
            match r {
                Ok(m) => {
                    &&& encode_transaction(transaction@).len() <= KEYSTREAM_LIMIT
                    &&& m@ == seal(self.secret(), transaction@, m@.salt)
                    &&& spec_verify(m@, mldsa_verifying_key(self.secret())) == Ok::<
                        (),
                        EnvelopeError,
                    >(())
                    &&& open_envelope(self.secret(), m@) == Ok::<
                        (TransactionView, u64),
                        EnvelopeError,
                    >((transaction@, transaction.index))
                },
                Err(e) => e == EnvelopeError::TooLarge && encode_transaction(transaction@).len()
                    > KEYSTREAM_LIMIT,
            },
    {
        self.encrypt_tx_with_salt(transaction, random_bytes32())
    }

    /// Opens a mutation: it must name this cloud, verify under the cloud's
    /// public key, decrypt to the encoding of a transaction, and that
    /// transaction must carry the mutation's index.
    pub fn decrypt_tx(&self, mutation: Mutation) -> (r: Result<
        (JournalTransaction, u64),
        EnvelopeError,
    >)
        requires
            self.wf(),
        ensures
            match r {
                Ok((tx, index)) => open_envelope(self.secret(), mutation@) == Ok::<
                    (TransactionView, u64),
                    EnvelopeError,
                >((tx@, index)),
                Err(e) => open_envelope(self.secret(), mutation@) == Err::<
                    (TransactionView, u64),
                    EnvelopeError,
                >(e),
            },
    {
        if !bytes_eq(array_as_slice(&mutation.public_key_hash), array_as_slice(&self.id)) {
            return Err(EnvelopeError::BadIdentity);
        }
        match mutation.verify(self.public_key.clone()) {
            Err(e) => return Err(e),
            Ok(()) => {},
        }
        let key = derive_mutation_key(&self.private_key, mutation.index, &mutation.salt);
        let index = mutation.index;
        let mut data = mutation.data;
        if !chacha20_apply(&key, &mut data) {
            return Err(EnvelopeError::TooLarge);
        }
        open_plaintext(data.as_slice(), index)
    }

    /// Writes a metadata record to the cloud's journal, as the journal's next
    /// transaction, and takes it as the cloud's metadata.
    pub fn set_metadata(&mut self, metadata: CloudMetadata)
        requires
            old(self).wf(),
        ensures
            final(self).wf(),
            final(self).secret() == old(self).secret(),
            final(self).metadata_view() == metadata@,
            final(self).journal().log() == old(self).journal().log().push(
                TransactionView {
                    index: old(self).journal().log().len() as u64,
                    operations: seq![metadata_write(metadata@)],
                    last_tx_hash: expected_hash(
                        old(self).journal().log(),
                        old(self).journal().log().len() as int,
                    ),
                },
            ),
    {
        let bytes = metadata.to_bytes();
        self.db.insert(CLOUD_TABLE.as_bytes(), METADATA_KEY.as_bytes(), bytes.as_slice());
        self.metadata = metadata;
    }

    /// Takes the metadata record of the journal as the cloud's metadata;
    /// where the journal holds none, writes `fallback` and takes that. Where
    /// the record does not decode, nothing changes. Writing is for a cloud
    /// that was made on this device: a journal that is still to be rebuilt
    /// from the relay must stay empty until it is, see [`Cloud::from_key`].
    pub fn init_with(&mut self, fallback: CloudMetadata) -> (r: Result<(), EnvelopeError>)
        requires
            old(self).wf(),
        ensures
            final(self).wf(),
            final(self).secret() == old(self).secret(),
            match stored_metadata(old(self).journal()) {
                Ok(Some(m)) => r is Ok && final(self).metadata_view() == m && final(self).journal().log() == old(self).journal().log(),
                Ok(None) => r is Ok && final(self).metadata_view() == fallback@ && final(self).journal().log() == old(self).journal().log().push(
                    TransactionView {
                        index: old(self).journal().log().len() as u64,
                        operations: seq![metadata_write(fallback@)],
                        last_tx_hash: expected_hash(
                            old(self).journal().log(),
                            old(self).journal().log().len() as int,
                        ),
                    },
                ),
                Err(e) => r == Err::<(), EnvelopeError>(e) && final(self).metadata_view() == old(self).metadata_view() && final(self).journal().log() == old(self).journal().log(),
            },
    {
        match load_metadata(&self.db) {
            Err(e) => Err(e),
            Ok(Some(m)) => {
                self.metadata = m;
                Ok(())
            },
            Ok(None) => {
                self.set_metadata(fallback);
                Ok(())
            },
        }
    }

    /// [`Cloud::init_with`], the fallback being a record made now under a
    /// random name.
    pub fn init(&mut self) -> (r: Result<(), EnvelopeError>)
        requires
            old(self).wf(),
        ensures
            final(self).wf(),
            final(self).secret() == old(self).secret(),
            r is Ok <==> stored_metadata(old(self).journal()) is Ok,
            stored_metadata(old(self).journal()) matches Ok(Some(m)) ==> final(self).metadata_view() == m && final(self).journal().log() == old(self).journal().log(),
            stored_metadata(old(self).journal()) is Err ==> final(self).journal().log() == old(self).journal().log()
                && final(self).metadata_view() == old(self).metadata_view(),
            stored_metadata(old(self).journal()) matches Ok(None) ==> final(self).journal().log()
                == old(self).journal().log().push(
                TransactionView {
                    index: old(self).journal().log().len() as u64,
                    operations: seq![metadata_write(final(self).metadata_view())],
                    last_tx_hash: expected_hash(
                        old(self).journal().log(),
                        old(self).journal().log().len() as int,
                    ),
                },
            ),
    {
        self.init_with(CloudMetadata::fresh())
    }

    /// Commits a run of operations as the next transaction of the cloud's
    /// journal.
    pub fn commit(&mut self, operations: Vec<crate::transaction::Operation>) -> (tx:
        JournalTransaction)
        requires
            old(self).wf(),
        ensures
            final(self).wf(),
            final(self).secret() == old(self).secret(),
            final(self).metadata_view() == old(self).metadata_view(),
            final(self).journal().log() == old(self).journal().log().push(tx@),
            tx@ == (TransactionView {
                index: old(self).journal().log().len() as u64,
                operations: crate::transaction::operations_view(operations@),
                last_tx_hash: expected_hash(
                    old(self).journal().log(),
                    old(self).journal().log().len() as int,
                ),
            }),
    {
        self.db.commit(operations)
    }

    /// Puts a transaction that came from elsewhere behind the cloud's
    /// journal, if it continues the chain.
    pub fn append_tx(&mut self, tx: JournalTransaction) -> (r: Result<(), JournalError>)
        requires
            old(self).wf(),
        ensures
            final(self).wf(),
            final(self).secret() == old(self).secret(),
            final(self).metadata_view() == old(self).metadata_view(),
            r == crate::journal::append_check(old(self).journal().log(), tx@),
            r is Ok ==> final(self).journal().log() == old(self).journal().log().push(tx@),
            r is Err ==> final(self).journal().log() == old(self).journal().log(),
    {
        self.db.append_tx(tx)
    }

    /// Takes one response that the relay sent over the notification channel
    /// and hands back the action to answer it with, if there is one. A
    /// mutation that comes next in the journal is opened and appended; where
    /// that fails, the journal stays as it was.
    pub fn update(&mut self, response: Response) -> (r: Result<Option<Action>, UpdateError>)
        requires
            old(self).wf(),
        ensures
            final(self).wf(),
            final(self).secret() == old(self).secret(),
            final(self).metadata_view() == old(self).metadata_view(),
            match update_view(old(self).secret(), old(self).journal().log(), response@) {
                Ok((action, appended)) => {
                    &&& match r {
                        Ok(Some(a)) => action == Some(a@),
                        Ok(None) => action is None,
                        Err(_) => false,
                    }
                    &&& final(self).journal().log() == match appended {
                        Some(tx) => old(self).journal().log().push(tx),
                        None => old(self).journal().log(),
                    }
                },
                Err(e) => r == Err::<Option<Action>, UpdateError>(e) && final(self).journal().log()
                    == old(self).journal().log(),
            },
    {
        match response {
            Response::CloudMutated(index, _) => {
                if index >= self.db.journal_tx_len() {
                    Ok(Some(Action::GetMutation(index)))
                } else {
                    Ok(None)
                }
            },
            Response::CloudMutation(mutation) => {
                if mutation.index != self.db.journal_tx_len() {
                    return Ok(None);
                }
                let (tx, index) = match self.decrypt_tx(mutation) {
                    Ok(opened) => opened,
                    Err(e) => return Err(UpdateError::Envelope(e)),
                };
                match self.db.append_tx(tx) {
                    Ok(()) => Ok(None),
                    Err(e) => Err(UpdateError::Journal(e)),
                }
            },
            _ => Ok(None),
        }
    }

    /// A new cloud under the given secret whose journal is the first
    /// `index + 1` transactions of this one, unchanged: same indices, same
    /// operations, same hashes. The new cloud is called `new_name` and is
    /// otherwise described as this one. There is none where this journal is
    /// not that long.
    pub fn duplicate_at_with_key(&self, index: u64, new_name: String, private_key: [u8; 32]) -> (r:
        Option<Cloud>)
        requires
            self.wf(),
        ensures
            match r {
                Some(copy) => {
                    &&& index < self.journal().log().len()
                    &&& copy.wf()
                    &&& copy.secret() == private_key@
                    &&& copy.journal().log() == self.journal().log().take(index + 1)
                    &&& forall|i: int|
                        0 <= i <= index ==> transaction_hash(#[trigger] copy.journal().log()[i])
                            == transaction_hash(self.journal().log()[i])
                    &&& copy.metadata_view() == (MetadataView {
                        name: new_name@,
                        ..self.metadata_view()
                    })
                },
                None => index >= self.journal().log().len(),
            },
    {
        if index >= self.db.journal_tx_len() {
            return None;
        }
        let ghost log = self.db.log();
        let mut journal = Journal::new();
        let mut i: u64 = 0;
        proof {
            self.db.lemma_hash_chain();
            self.db.lemma_len_fits();
            assert(journal.log() =~= log.take(0));
        }
        while i <= index
            invariant
                i <= index + 1,
                index < log.len() <= u64::MAX,
                log == self.db.log(),
                crate::journal::chained(log),
                journal.wf(),
                journal.log() == log.take(i as int),
            decreases index + 1 - i,
        {
            let tx = match self.db.journal_tx_by_index(i) {
                Some(tx) => tx,
                None => return None,
            };
            proof {
                let front = log.take(i as int);
                assert(log[i as int].index == i);
                if i > 0 {
                    assert(front[i - 1] == log[i - 1]);
                }
                assert(crate::journal::append_check(front, tx@) is Ok);
                assert(front.push(tx@) =~= log.take(i + 1));
            }
            let appended = journal.append_tx(tx);
            i += 1;
        }
        let mut metadata = self.metadata.duplicate();
        metadata.name = new_name;
        let public_key = mldsa_public_key(&private_key);
        let id = blake3_hash(public_key.as_slice());
        Some(Cloud { metadata, public_key, private_key, db: journal, id })
    }

    /// Forks the cloud at `index` under a secret drawn at random: the new
    /// cloud starts with the first `index + 1` transactions of this one.
    pub fn duplicate_at(&self, index: u64, new_name: String) -> (r: Option<Cloud>)
        requires
            self.wf(),
        ensures
            match r {
                Some(copy) => {
                    &&& index < self.journal().log().len()
                    &&& copy.wf()
                    &&& copy.journal().log() == self.journal().log().take(index + 1)
                    &&& forall|i: int|
                        0 <= i <= index ==> transaction_hash(#[trigger] copy.journal().log()[i])
                            == transaction_hash(self.journal().log()[i])
                    &&& copy.metadata_view() == (MetadataView {
                        name: new_name@,
                        ..self.metadata_view()
                    })
                },
                None => index >= self.journal().log().len(),
            },
    {
        self.duplicate_at_with_key(index, new_name, random_bytes32())
    }
}

} // verus!
