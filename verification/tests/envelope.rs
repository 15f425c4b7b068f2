use btk_cloud::cloud::assemble_mutation;
use btk_cloud::cloud::load_metadata;
use btk_cloud::cloud::open_plaintext;
use btk_cloud::cloud::Cloud;
use btk_cloud::cloud::UpdateError;
use btk_cloud::cloud::CLOUD_TABLE;
use btk_cloud::cloud::METADATA_KEY;
use btk_cloud::journal::Journal;
use btk_cloud::journal::JournalError;
use btk_cloud::metadata::CloudMetadata;
use btk_cloud::mutation::EnvelopeError;
use btk_cloud::mutation::Mutation;
use btk_cloud::transaction::JournalTransaction;
use btk_cloud::transaction::Operation;
use btk_cloud::wire::Action;
use btk_cloud::wire::Response;
use chacha20::cipher::KeyIvInit;
use chacha20::cipher::StreamCipher;
use ml_dsa::signature::Keypair;

fn sample_metadata() -> CloudMetadata {
    CloudMetadata::create(1_700_000_000, "sample".to_string())
}

fn sample_cloud(seed: u8) -> Cloud {
    Cloud::from_key_with([seed; 32], sample_metadata())
}

fn note_tx(index: u64, last: [u8; 32]) -> JournalTransaction {
    JournalTransaction {
        index,
        operations: vec![Operation::Insert {
            table: b"notes".to_vec(),
            key: b"first".to_vec(),
            value: b"hello".to_vec(),
        }],
        last_tx_hash: last,
    }
}

fn public_key_of(seed: [u8; 32]) -> Vec<u8> {
    ml_dsa::SigningKey::<ml_dsa::MlDsa87>::from_seed(&seed.into())
        .verifying_key()
        .encode()
        .to_vec()
}

#[test]
fn identifier_is_the_digest_of_the_verifying_key() {
    let seed = [7; 32];
    let public_key = public_key_of(seed);
    assert_eq!(public_key.len(), 2592);
    let expected = *blake3::hash(&public_key).as_bytes();
    assert_eq!(Cloud::id_from_key(seed), expected);
    let cloud = sample_cloud(7);
    assert_eq!(*cloud.id(), expected);
    assert_ne!(Cloud::id_from_key([8; 32]), expected);
}

#[test]
fn identifier_and_secret_are_shown_in_lower_case_hex() {
    let cloud = Cloud::from_key_with([0xab; 32], sample_metadata());
    assert_eq!(cloud.export_key(), "ab".repeat(32));
    let id = *cloud.id();
    let expected: String = id.iter().map(|b| format!("{:02x}", b)).collect();
    assert_eq!(cloud.id_hex(), expected);
    assert_eq!(cloud.id_hex().len(), 64);
}

#[test]
fn sealed_transaction_opens_to_itself() {
    let cloud = sample_cloud(7);
    let tx = note_tx(1, [9; 32]);
    let mutation = cloud.encrypt_tx(&tx).unwrap();
    assert_eq!(mutation.index, 1);
    assert_eq!(mutation.public_key_hash, *cloud.id());
    assert!(mutation.public_key.is_none());
    assert!(mutation.mutation_key.is_none());
    assert_eq!(mutation.data.len(), tx.to_bytes().len());
    assert_ne!(mutation.data, tx.to_bytes());
    assert_eq!(cloud.decrypt_tx(mutation), Ok((tx, 1)));
}

#[test]
fn first_mutation_carries_the_public_key() {
    let cloud = sample_cloud(7);
    let tx = note_tx(0, [0; 32]);
    let mutation = cloud.encrypt_tx(&tx).unwrap();
    assert_eq!(mutation.public_key, Some(public_key_of([7; 32])));
    assert_eq!(cloud.decrypt_tx(mutation), Ok((tx, 0)));
}

#[test]
fn sealing_follows_the_key_derivation_to_the_byte() {
    let secret = [7u8; 32];
    let salt = [5u8; 32];
    let cloud = sample_cloud(7);
    let tx = note_tx(258, [9; 32]);
    let mutation = cloud.encrypt_tx_with_salt(&tx, salt).unwrap();
    assert_eq!(mutation.salt, salt);

    let mut preimage = secret.to_vec();
    preimage.extend_from_slice(&[2, 1, 0, 0, 0, 0, 0, 0]);
    preimage.extend_from_slice(&salt);
    let key = *blake3::hash(&preimage).as_bytes();
    let mut expected = tx.to_bytes();
    let mut cipher = chacha20::ChaCha20::new(&key.into(), &[0u8; 12].into());
    cipher.apply_keystream(&mut expected);
    assert_eq!(mutation.data, expected);

    let again = cloud.encrypt_tx_with_salt(&tx, salt).unwrap();
    assert_eq!(again, mutation);
    assert_eq!(mutation.signature.len(), 4627);
}

#[test]
fn two_sealings_differ_and_open_to_the_same() {
    let cloud = sample_cloud(7);
    let tx = note_tx(4, [9; 32]);
    let first = cloud.encrypt_tx(&tx).unwrap();
    let second = cloud.encrypt_tx(&tx).unwrap();
    assert_ne!(first.salt, second.salt);
    assert_ne!(first.data, second.data);
    assert_ne!(first.signature, second.signature);
    assert_eq!(cloud.decrypt_tx(first), Ok((tx.clone(), 4)));
    assert_eq!(cloud.decrypt_tx(second), Ok((tx, 4)));
}

#[test]
fn sealed_mutation_verifies_under_its_key_only() {
    let cloud = sample_cloud(7);
    let own = public_key_of([7; 32]);
    let other = public_key_of([8; 32]);
    let later = cloud.encrypt_tx(&note_tx(3, [9; 32])).unwrap();
    assert_eq!(later.verify(own.clone()), Ok(()));
    assert_eq!(later.verify(other.clone()), Err(EnvelopeError::BadPublicKey));
    assert_eq!(later.verify(Vec::new()), Err(EnvelopeError::BadPublicKey));
    let first = cloud.encrypt_tx(&note_tx(0, [0; 32])).unwrap();
    assert_eq!(first.verify(own.clone()), Ok(()));
    assert_eq!(first.verify(other), Err(EnvelopeError::BadPublicKey));

    let digest = *blake3::hash(&own).as_bytes();
    assert_eq!(first.check_key_binding(&own, &digest), Ok(()));
    assert_eq!(first.check_key_binding(&own, &[0; 32]), Err(EnvelopeError::BadPublicKey));
    let keyless = Mutation { public_key: None, ..first.clone() };
    assert_eq!(keyless.check_key_binding(&own, &digest), Err(EnvelopeError::BadPublicKey));
    assert_eq!(keyless.verify(own.clone()), Err(EnvelopeError::BadPublicKey));
    assert_eq!(cloud.decrypt_tx(keyless), Err(EnvelopeError::BadPublicKey));
    let relabelled = Mutation { public_key: Some(vec![1, 2, 3]), ..first };
    assert_eq!(relabelled.check_key_binding(&own, &digest), Err(EnvelopeError::BadPublicKey));
    assert_eq!(relabelled.verify(own), Err(EnvelopeError::BadPublicKey));
}

#[test]
fn tampering_with_any_part_of_the_body_is_noticed() {
    let cloud = sample_cloud(3);
    let own = public_key_of([3; 32]);
    let mutation = cloud.encrypt_tx(&note_tx(2, [1; 32])).unwrap();
    for position in [0, mutation.data.len() / 2, mutation.data.len() - 1] {
        for bit in [0x01u8, 0x80u8] {
            let mut tampered = mutation.clone();
            tampered.data[position] ^= bit;
            assert_eq!(tampered.verify(own.clone()), Err(EnvelopeError::BadSignature));
            assert_eq!(cloud.decrypt_tx(tampered), Err(EnvelopeError::BadSignature));
        }
    }
    let mut shorter = mutation.clone();
    shorter.data.pop();
    assert_eq!(shorter.verify(own.clone()), Err(EnvelopeError::BadSignature));
    let mut longer = mutation.clone();
    longer.data.push(0);
    assert_eq!(longer.verify(own.clone()), Err(EnvelopeError::BadSignature));
    let mut bad_signature = mutation.clone();
    bad_signature.signature[10] ^= 1;
    assert_eq!(bad_signature.verify(own.clone()), Err(EnvelopeError::BadSignature));
    let mut short_signature = mutation.clone();
    short_signature.signature.pop();
    assert_eq!(short_signature.verify(own.clone()), Err(EnvelopeError::BadSignature));
    let empty_signature = Mutation { signature: Vec::new(), ..mutation.clone() };
    assert_eq!(empty_signature.verify(own.clone()), Err(EnvelopeError::BadSignature));
    let mut long_signature = mutation.clone();
    long_signature.signature.push(0);
    assert_eq!(long_signature.verify(own.clone()), Err(EnvelopeError::BadSignature));
    let mut truncated_key = own.clone();
    truncated_key.pop();
    assert!(mutation.verify(truncated_key).is_err());
    let mut extended_key = own.clone();
    extended_key.push(0);
    assert!(mutation.verify(extended_key).is_err());
    assert!(mutation.verify(Vec::new()).is_err());
    assert_eq!(own.len(), btk_cloud::crypto::MLDSA_KEY_BYTES);
    assert_eq!(mutation.signature.len(), btk_cloud::crypto::MLDSA_SIGNATURE_BYTES);
}

#[test]
fn opening_fails_with_the_error_that_fits() {
    let cloud = sample_cloud(3);
    let stranger = sample_cloud(4);
    let tx = note_tx(2, [1; 32]);
    let mutation = cloud.encrypt_tx(&tx).unwrap();

    assert_eq!(stranger.decrypt_tx(mutation.clone()), Err(EnvelopeError::BadIdentity));

    let relabelled = Mutation { public_key_hash: *stranger.id(), ..mutation.clone() };
    assert_eq!(stranger.decrypt_tx(relabelled.clone()), Err(EnvelopeError::BadSignature));
    assert_eq!(cloud.decrypt_tx(relabelled), Err(EnvelopeError::BadIdentity));

    let wrong_key = Mutation { public_key: Some(vec![0; 2592]), ..mutation.clone() };
    assert_eq!(cloud.decrypt_tx(wrong_key), Err(EnvelopeError::BadPublicKey));

    let resalted = Mutation { salt: [0; 32], ..mutation.clone() };
    assert_eq!(cloud.decrypt_tx(resalted), Err(EnvelopeError::Malformed));

    let reindexed = Mutation { index: 3, ..mutation };
    assert_eq!(cloud.decrypt_tx(reindexed), Err(EnvelopeError::Malformed));
}

#[test]
fn plaintext_must_decode_and_carry_the_index() {
    let tx = note_tx(2, [1; 32]);
    let bytes = tx.to_bytes();
    assert_eq!(open_plaintext(&bytes, 2), Ok((tx, 2)));
    assert_eq!(open_plaintext(&bytes, 3), Err(EnvelopeError::IndexMismatch));
    assert_eq!(open_plaintext(&bytes, 0), Err(EnvelopeError::IndexMismatch));
    assert_eq!(open_plaintext(&bytes[1..], 2), Err(EnvelopeError::Malformed));
    assert_eq!(open_plaintext(&[], 0), Err(EnvelopeError::Malformed));
}

#[test]
fn assembled_mutation_carries_the_key_at_index_zero_only() {
    let key = vec![1, 2, 3];
    let first = assemble_mutation(0, vec![4], vec![5], [6; 32], &key, [7; 32]);
    assert_eq!(
        first,
        Mutation {
            index: 0,
            data: vec![4],
            signature: vec![5],
            public_key_hash: [6; 32],
            public_key: Some(vec![1, 2, 3]),
            salt: [7; 32],
            mutation_key: None,
        }
    );
    let later = assemble_mutation(1, vec![4], vec![5], [6; 32], &key, [7; 32]);
    assert_eq!(later.public_key, None);
    assert_eq!(later.index, 1);
    let last = assemble_mutation(u64::MAX, vec![], vec![], [0; 32], &key, [0; 32]);
    assert_eq!(last.public_key, None);
}

#[test]
fn new_cloud_writes_its_metadata_first() {
    let cloud = sample_cloud(1);
    assert_eq!(cloud.metadata(), &sample_metadata());
    assert_eq!(cloud.db().journal_tx_len(), 1);
    let first = cloud.db().journal_tx_by_index(0).unwrap();
    assert_eq!(first.last_tx_hash, [0; 32]);
    assert_eq!(
        first.operations,
        vec![Operation::Insert {
            table: CLOUD_TABLE.as_bytes().to_vec(),
            key: METADATA_KEY.as_bytes().to_vec(),
            value: sample_metadata().to_bytes(),
        }]
    );
    assert_eq!(load_metadata(cloud.db()), Ok(Some(sample_metadata())));

    let random = Cloud::new();
    assert_eq!(random.db().journal_tx_len(), 1);
    assert_ne!(random.export_key(), Cloud::new().export_key());
    assert_eq!(load_metadata(random.db()), Ok(Some(random.metadata().clone())));
    let first = random.db().journal_tx_by_index(0).unwrap();
    assert!(first.to_bytes().len() < 400);
    assert!(random.encrypt_tx(&first).is_ok());
}

#[test]
fn cloud_from_a_secret_alone_starts_empty() {
    let keyed = Cloud::from_key([2; 32]);
    assert_eq!(keyed.export_key(), "02".repeat(32));
    assert_eq!(*keyed.id(), Cloud::id_from_key([2; 32]));
    assert_eq!(keyed.db().journal_tx_len(), 0);
    assert_eq!(keyed.db().journal_tx_by_index(0), None);
    assert_eq!(load_metadata(keyed.db()), Ok(None));
    assert_eq!(keyed.metadata().description, "");
    assert_eq!(keyed.metadata().remote_url, None);

    let mut source = sample_cloud(2);
    source.commit(vec![Operation::Insert {
        table: b"notes".to_vec(),
        key: b"k".to_vec(),
        value: b"v".to_vec(),
    }]);
    let mut rebuilt = Cloud::from_key([2; 32]);
    for tx in source.db().journal_transactions() {
        let sealed = source.encrypt_tx(&tx).unwrap();
        let (opened, _) = rebuilt.decrypt_tx(sealed).unwrap();
        assert_eq!(rebuilt.append_tx(opened), Ok(()));
    }
    assert_eq!(rebuilt.db().journal_transactions(), source.db().journal_transactions());
    assert!(rebuilt.refresh_metadata());
    assert_eq!(rebuilt.metadata(), &sample_metadata());
}

#[test]
fn set_metadata_is_journaled() {
    let mut cloud = sample_cloud(1);
    let mut renamed = sample_metadata();
    renamed.name = "renamed".to_string();
    renamed.remote_url = Some("https://relay.example".to_string());
    cloud.set_metadata(renamed.clone());
    assert_eq!(cloud.metadata(), &renamed);
    assert_eq!(cloud.db().journal_tx_len(), 2);
    assert_eq!(load_metadata(cloud.db()), Ok(Some(renamed)));
}

#[test]
fn opening_a_journal_takes_its_metadata_and_writes_nothing() {
    let fallback = CloudMetadata::create(2, "fallback".to_string());

    let opened = Cloud::open([1; 32], Journal::new(), fallback.clone()).ok().unwrap();
    assert_eq!(opened.metadata(), &fallback);
    assert_eq!(opened.db().journal_tx_len(), 0);
    assert_eq!(load_metadata(opened.db()), Ok(None));

    let mut journal = Journal::new();
    journal.insert(b"notes", b"a", b"1");
    let without_record = Cloud::open([1; 32], journal, fallback.clone()).ok().unwrap();
    assert_eq!(without_record.metadata(), &fallback);
    assert_eq!(without_record.db().journal_tx_len(), 1);

    let mut journal = Journal::new();
    journal.insert(b"notes", b"a", b"1");
    journal.insert(CLOUD_TABLE.as_bytes(), METADATA_KEY.as_bytes(), &sample_metadata().to_bytes());
    let kept = Cloud::open([1; 32], journal, fallback.clone()).ok().unwrap();
    assert_eq!(kept.metadata(), &sample_metadata());
    assert_eq!(kept.db().journal_tx_len(), 2);
    assert_eq!(kept.db().get(b"notes", b"a"), Some(b"1".to_vec()));

    let mut broken = Journal::new();
    broken.insert(CLOUD_TABLE.as_bytes(), METADATA_KEY.as_bytes(), &[1, 2, 3]);
    assert_eq!(load_metadata(&broken), Err(EnvelopeError::Malformed));
    assert_eq!(Cloud::open([1; 32], broken, fallback).err(), Some(EnvelopeError::Malformed));
}

#[test]
fn init_reloads_or_writes_the_metadata() {
    let mut imported = Cloud::import([1; 32], CloudMetadata::create(0, "pending".to_string()));
    assert_eq!(imported.db().journal_tx_len(), 0);
    assert_eq!(imported.metadata().name, "pending");
    assert!(!imported.refresh_metadata());
    assert_eq!(imported.metadata().name, "pending");

    let source = sample_cloud(1);
    assert_eq!(imported.append_tx(source.db().journal_tx_by_index(0).unwrap()), Ok(()));
    assert!(imported.refresh_metadata());
    assert_eq!(imported.metadata(), &sample_metadata());
    assert_eq!(imported.init_with(CloudMetadata::create(9, "unused".to_string())), Ok(()));
    assert_eq!(imported.metadata(), &sample_metadata());
    assert_eq!(imported.db().journal_tx_len(), 1);
    assert_eq!(imported.init(), Ok(()));
    assert_eq!(imported.db().journal_tx_len(), 1);

    let mut empty = Cloud::import([1; 32], CloudMetadata::create(0, "pending".to_string()));
    assert_eq!(empty.init_with(CloudMetadata::create(9, "written".to_string())), Ok(()));
    assert_eq!(empty.metadata().name, "written");
    assert_eq!(empty.db().journal_tx_len(), 1);

    let mut fresh = Cloud::import([1; 32], CloudMetadata::create(0, "pending".to_string()));
    assert_eq!(fresh.init(), Ok(()));
    assert_eq!(fresh.db().journal_tx_len(), 1);
    assert_ne!(fresh.metadata().name, "pending");
}

#[test]
fn cloud_journal_takes_commits_and_appends() {
    let mut cloud = sample_cloud(1);
    let tx = cloud.commit(vec![Operation::Insert {
        table: b"notes".to_vec(),
        key: b"k".to_vec(),
        value: b"v".to_vec(),
    }]);
    assert_eq!(tx.index, 1);
    assert_eq!(cloud.db().get(b"notes", b"k"), Some(b"v".to_vec()));
    assert_eq!(cloud.append_tx(tx.clone()), Err(JournalError::IndexGap));
    let next = JournalTransaction { index: 2, operations: vec![], last_tx_hash: [0; 32] };
    assert_eq!(cloud.append_tx(next), Err(JournalError::ChainBreak));
    let next = JournalTransaction { index: 2, operations: vec![], last_tx_hash: tx.hash() };
    assert_eq!(cloud.append_tx(next), Ok(()));
    assert_eq!(cloud.db().journal_tx_len(), 3);
}

#[test]
fn fork_copies_the_first_transactions_unchanged() {
    let mut source = sample_cloud(1);
    for i in 0..9u8 {
        source.commit(vec![Operation::Insert {
            table: b"notes".to_vec(),
            key: vec![i],
            value: vec![i, i],
        }]);
    }
    assert_eq!(source.db().journal_tx_len(), 10);

    let fork = source.duplicate_at(3, "branch".to_string()).unwrap();
    assert_eq!(fork.db().journal_tx_len(), 4);
    assert_ne!(fork.id(), source.id());
    assert_ne!(fork.export_key(), source.export_key());
    assert_eq!(fork.metadata().name, "branch");
    assert_eq!(fork.metadata().created_at, source.metadata().created_at);
    for i in 0..4 {
        let ours = source.db().journal_tx_by_index(i).unwrap();
        let theirs = fork.db().journal_tx_by_index(i).unwrap();
        assert_eq!(ours, theirs);
        assert_eq!(ours.hash(), theirs.hash());
        let resealed = fork.encrypt_tx(&theirs).unwrap();
        assert_eq!(source.decrypt_tx(resealed.clone()), Err(EnvelopeError::BadIdentity));
        assert_eq!(fork.decrypt_tx(resealed), Ok((ours, i)));
    }
    assert_eq!(fork.db().get(b"notes", &[2]), Some(vec![2, 2]));
    assert_eq!(fork.db().get(b"notes", &[3]), None);

    let whole = source.duplicate_at_with_key(9, "all".to_string(), [5; 32]).unwrap();
    assert_eq!(whole.db().journal_transactions(), source.db().journal_transactions());
    assert_eq!(whole.export_key(), "05".repeat(32));
    let first = source.duplicate_at(0, "first".to_string()).unwrap();
    assert_eq!(first.db().journal_tx_len(), 1);
    assert!(source.duplicate_at(10, "none".to_string()).is_none());
    assert!(source.duplicate_at(u64::MAX, "none".to_string()).is_none());
}

#[test]
fn responses_from_the_channel_are_taken_in_order() {
    let mut source = sample_cloud(1);
    source.commit(vec![Operation::Insert {
        table: b"notes".to_vec(),
        key: b"k".to_vec(),
        value: b"v".to_vec(),
    }]);
    let sealed = |index: u64| source.encrypt_tx(&source.db().journal_tx_by_index(index).unwrap()).unwrap();
    let mut device = Cloud::import([1; 32], sample_metadata());

    assert_eq!(device.update(Response::Pong), Ok(None));
    assert_eq!(device.update(Response::Authenticated(7)), Ok(None));
    assert_eq!(device.update(Response::CloudMutated(0, None)), Ok(Some(Action::GetMutation(0))));
    assert_eq!(
        device.update(Response::CloudMutated(5, Some([1; 32]))),
        Ok(Some(Action::GetMutation(5)))
    );
    assert_eq!(device.update(Response::CloudMutation(sealed(1))), Ok(None));
    assert_eq!(device.db().journal_tx_len(), 0);

    let mut tampered = sealed(0);
    tampered.data[0] ^= 1;
    assert_eq!(
        device.update(Response::CloudMutation(tampered)),
        Err(UpdateError::Envelope(EnvelopeError::BadSignature))
    );
    let stranger = sample_cloud(2);
    let foreign = stranger.encrypt_tx(&stranger.db().journal_tx_by_index(0).unwrap()).unwrap();
    assert_eq!(
        device.update(Response::CloudMutation(foreign)),
        Err(UpdateError::Envelope(EnvelopeError::BadIdentity))
    );
    assert_eq!(device.db().journal_tx_len(), 0);

    assert_eq!(device.update(Response::CloudMutation(sealed(0))), Ok(None));
    assert_eq!(device.db().journal_tx_len(), 1);
    assert_eq!(device.update(Response::CloudMutation(sealed(0))), Ok(None));
    assert_eq!(device.update(Response::CloudMutated(0, None)), Ok(None));
    assert_eq!(device.update(Response::CloudMutated(1, None)), Ok(Some(Action::GetMutation(1))));

    let unchained = JournalTransaction {
        index: 1,
        operations: vec![],
        last_tx_hash: [9; 32],
    };
    assert_eq!(
        device.update(Response::CloudMutation(source.encrypt_tx(&unchained).unwrap())),
        Err(UpdateError::Journal(JournalError::ChainBreak))
    );
    assert_eq!(device.update(Response::CloudMutation(sealed(1))), Ok(None));
    assert_eq!(device.db().journal_transactions(), source.db().journal_transactions());
    assert_eq!(device.db().get(b"notes", b"k"), Some(b"v".to_vec()));
}
