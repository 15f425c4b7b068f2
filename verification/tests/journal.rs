use btk_cloud::journal::Journal;
use btk_cloud::journal::JournalError;
use btk_cloud::journal::TxBuilder;
use btk_cloud::transaction::JournalTransaction;
use btk_cloud::transaction::Operation;

fn insert(table: &[u8], key: &[u8], value: &[u8]) -> Operation {
    Operation::Insert { table: table.to_vec(), key: key.to_vec(), value: value.to_vec() }
}

fn populated() -> Journal {
    let mut journal = Journal::new();
    journal.insert(b"notes", b"a", b"1");
    journal.insert(b"notes", b"b", b"2");
    journal.insert(b"files", b"a", b"3");
    journal
}

#[test]
fn empty_journal_has_nothing() {
    let journal = Journal::new();
    assert_eq!(journal.journal_tx_len(), 0);
    assert_eq!(journal.journal_tx_by_index(0), None);
    assert!(journal.journal_transactions().is_empty());
    assert_eq!(journal.tail_hash(), [0; 32]);
    assert_eq!(journal.get(b"notes", b"a"), None);
    assert!(journal.list_keys(b"notes").is_empty());
    assert_eq!(journal.count(b"notes"), 0);
}

#[test]
fn indices_count_up_without_a_gap() {
    let journal = populated();
    assert_eq!(journal.journal_tx_len(), 3);
    let all = journal.journal_transactions();
    assert_eq!(all.len(), 3);
    for (position, tx) in all.iter().enumerate() {
        assert_eq!(tx.index, position as u64);
        assert_eq!(journal.journal_tx_by_index(position as u64).as_ref(), Some(tx));
    }
    assert_eq!(journal.journal_tx_by_index(3), None);
    assert_eq!(journal.journal_tx_by_index(u64::MAX), None);
}

#[test]
fn every_transaction_names_the_hash_of_the_one_before() {
    let journal = populated();
    let all = journal.journal_transactions();
    assert_eq!(all[0].last_tx_hash, [0; 32]);
    for i in 1..all.len() {
        assert_eq!(all[i].last_tx_hash, all[i - 1].hash());
    }
    assert_eq!(journal.tail_hash(), all[2].hash());
}

#[test]
fn commit_builds_the_next_transaction() {
    let mut journal = Journal::new();
    let first = journal.commit(vec![insert(b"t", b"k", b"v"), insert(b"t", b"l", b"w")]);
    assert_eq!(first.index, 0);
    assert_eq!(first.last_tx_hash, [0; 32]);
    assert_eq!(first.operations.len(), 2);
    let second = journal.commit(vec![]);
    assert_eq!(second.index, 1);
    assert_eq!(second.last_tx_hash, first.hash());
    assert!(second.operations.is_empty());
    assert_eq!(journal.journal_tx_len(), 2);
    assert_eq!(journal.get(b"t", b"k"), Some(b"v".to_vec()));
    assert_eq!(journal.get(b"t", b"l"), Some(b"w".to_vec()));
}

#[test]
fn builder_collects_one_transaction() {
    let mut journal = populated();
    let mut builder = TxBuilder::new();
    builder.insert(b"notes", b"c", b"4");
    builder.remove(b"notes", b"a");
    builder.delete_table(b"files");
    let tx = builder.commit(&mut journal);
    assert_eq!(tx.index, 3);
    assert_eq!(
        tx.operations,
        vec![
            insert(b"notes", b"c", b"4"),
            Operation::Remove { table: b"notes".to_vec(), key: b"a".to_vec() },
            Operation::DeleteTable { table: b"files".to_vec() },
        ]
    );
    assert_eq!(journal.journal_tx_len(), 4);
    assert_eq!(journal.get(b"notes", b"a"), None);
    assert_eq!(journal.get(b"notes", b"b"), Some(b"2".to_vec()));
    assert_eq!(journal.get(b"notes", b"c"), Some(b"4".to_vec()));
    assert_eq!(journal.get(b"files", b"a"), None);
    assert_eq!(journal.count(b"files"), 0);
    assert_eq!(journal.count(b"notes"), 2);
}

#[test]
fn store_follows_the_operations_in_order() {
    let mut journal = Journal::new();
    journal.commit(vec![
        insert(b"t", b"k", b"old"),
        insert(b"t", b"k", b"new"),
        insert(b"u", b"k", b"other"),
        Operation::Remove { table: b"t".to_vec(), key: b"missing".to_vec() },
    ]);
    assert_eq!(journal.get(b"t", b"k"), Some(b"new".to_vec()));
    assert_eq!(journal.get(b"u", b"k"), Some(b"other".to_vec()));
    assert_eq!(journal.count(b"t"), 1);
    journal.commit(vec![
        Operation::DeleteTable { table: b"t".to_vec() },
        insert(b"t", b"fresh", b"1"),
    ]);
    assert_eq!(journal.get(b"t", b"k"), None);
    assert_eq!(journal.get(b"t", b"fresh"), Some(b"1".to_vec()));
    assert_eq!(journal.get(b"u", b"k"), Some(b"other".to_vec()));
    assert_eq!(journal.list_keys(b"t"), vec![b"fresh".to_vec()]);
    assert_eq!(journal.get(b"", b""), None);
    journal.insert(b"", b"", b"");
    assert_eq!(journal.get(b"", b""), Some(Vec::new()));
}

#[test]
fn keys_are_listed_once_each() {
    let mut journal = populated();
    journal.insert(b"notes", b"a", b"again");
    let mut keys = journal.list_keys(b"notes");
    keys.sort();
    assert_eq!(keys, vec![b"a".to_vec(), b"b".to_vec()]);
    assert_eq!(journal.count(b"notes"), 2);
    assert_eq!(journal.count(b"files"), 1);
    assert_eq!(journal.count(b"none"), 0);
    assert_eq!(journal.get(b"notes", b"a"), Some(b"again".to_vec()));
}

#[test]
fn append_takes_only_what_continues_the_chain() {
    let source = populated();
    let all = source.journal_transactions();
    let mut copy = Journal::new();

    assert_eq!(copy.append_tx(all[1].clone()), Err(JournalError::IndexGap));
    assert_eq!(copy.journal_tx_len(), 0);

    let bad_first = JournalTransaction { last_tx_hash: [1; 32], ..all[0].clone() };
    assert_eq!(copy.append_tx(bad_first), Err(JournalError::ChainBreak));
    assert_eq!(copy.journal_tx_len(), 0);
    assert_eq!(copy.get(b"notes", b"a"), None);

    assert_eq!(copy.append_tx(all[0].clone()), Ok(()));
    assert_eq!(copy.append_tx(all[0].clone()), Err(JournalError::IndexGap));
    assert_eq!(copy.append_tx(all[2].clone()), Err(JournalError::IndexGap));

    let forged = JournalTransaction {
        index: 1,
        operations: vec![insert(b"notes", b"b", b"forged")],
        last_tx_hash: [0; 32],
    };
    assert_eq!(copy.append_tx(forged), Err(JournalError::ChainBreak));
    assert_eq!(copy.journal_tx_len(), 1);
    assert_eq!(copy.get(b"notes", b"b"), None);

    assert_eq!(copy.append_tx(all[1].clone()), Ok(()));
    assert_eq!(copy.append_tx(all[2].clone()), Ok(()));
    assert_eq!(copy.journal_transactions(), all);
    assert_eq!(copy.tail_hash(), source.tail_hash());
    assert_eq!(copy.get(b"notes", b"b"), Some(b"2".to_vec()));
    assert_eq!(copy.get(b"files", b"a"), Some(b"3".to_vec()));
}

#[test]
fn hash_depends_on_index_operations_and_previous_hash() {
    let tx = JournalTransaction {
        index: 4,
        operations: vec![insert(b"t", b"k", b"v")],
        last_tx_hash: [3; 32],
    };
    assert_eq!(tx.hash(), tx.clone().hash());
    assert_ne!(tx.hash(), JournalTransaction { index: 5, ..tx.clone() }.hash());
    assert_ne!(tx.hash(), JournalTransaction { last_tx_hash: [4; 32], ..tx.clone() }.hash());
    assert_ne!(tx.hash(), JournalTransaction { operations: vec![], ..tx.clone() }.hash());
    assert_ne!(
        tx.hash(),
        JournalTransaction { operations: vec![insert(b"t", b"k", b"w")], ..tx.clone() }.hash()
    );
}

#[test]
fn single_operations_commit_on_their_own() {
    let mut journal = populated();
    let removed = journal.remove(b"notes", b"a");
    assert_eq!(removed.index, 3);
    assert_eq!(
        removed.operations,
        vec![Operation::Remove { table: b"notes".to_vec(), key: b"a".to_vec() }]
    );
    assert_eq!(journal.get(b"notes", b"a"), None);
    assert_eq!(journal.get(b"files", b"a"), Some(b"3".to_vec()));
    let deleted = journal.delete_table(b"notes");
    assert_eq!(deleted.index, 4);
    assert_eq!(deleted.last_tx_hash, removed.hash());
    assert_eq!(deleted.operations, vec![Operation::DeleteTable { table: b"notes".to_vec() }]);
    assert_eq!(journal.count(b"notes"), 0);
    assert_eq!(journal.count(b"files"), 1);
    assert_eq!(journal.journal_tx_len(), 5);
}

#[test]
fn entries_of_a_table_come_with_their_values() {
    let mut journal = populated();
    journal.insert(b"notes", b"a", b"again");
    let mut found = journal.find_many(b"notes");
    found.sort();
    assert_eq!(
        found,
        vec![(b"a".to_vec(), b"again".to_vec()), (b"b".to_vec(), b"2".to_vec())]
    );
    assert_eq!(journal.find_many(b"files"), vec![(b"a".to_vec(), b"3".to_vec())]);
    assert!(journal.find_many(b"none").is_empty());
    let mut builder = journal.begin_write();
    builder.delete_table(b"notes");
    builder.commit(&mut journal);
    assert!(journal.find_many(b"notes").is_empty());
}
