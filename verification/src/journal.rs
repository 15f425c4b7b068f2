//! The journal: an append-only, hash-chained log of transactions, and the
//! key-value store that the log amounts to when it is replayed from the
//! start.

use vstd::prelude::*;
use vstd::array::array_as_slice;
use crate::codec::bytes_eq;
use crate::transaction::duplicate_operations;
use crate::transaction::genesis_hash;
use crate::transaction::JournalTransaction;
use crate::transaction::Operation;
use crate::transaction::operations_view;
use crate::transaction::OperationView;
use crate::transaction::transaction_hash;
use crate::transaction::TransactionView;

verus! {

/// The store as mathematics: values by table and key.
pub type StoreView = Map<(Seq<u8>, Seq<u8>), Seq<u8>>;

/// Why the journal refused a transaction.
#[derive(Clone, Copy, Debug, PartialEq, Eq, Structural)]
pub enum JournalError {
    /// The transaction's index is not the journal's length.
    IndexGap,
    /// The transaction does not name the hash of the journal's last entry.
    ChainBreak,
}

/// The pairs of a store that lie in `table`.
pub open spec fn in_table(table: Seq<u8>) -> Set<(Seq<u8>, Seq<u8>)> {
    Set::new(|p: (Seq<u8>, Seq<u8>)| p.0 == table)
}

/// What one operation makes of a store.
pub open spec fn apply_operation(store: StoreView, op: OperationView) -> StoreView {
    match op {
        OperationView::Insert { table, key, value } => store.insert((table, key), value),
        OperationView::Remove { table, key } => store.remove((table, key)),
        OperationView::DeleteTable { table } => store.remove_keys(in_table(table)),
    }
}

/// What a run of operations makes of a store, applied in order.
pub open spec fn apply_operations(store: StoreView, ops: Seq<OperationView>) -> StoreView
    decreases ops.len(),
{
    if ops.len() == 0 {
        store
    } else {
        apply_operation(apply_operations(store, ops.drop_last()), ops.last())
    }
}

/// The store that a log amounts to: every transaction applied, in order, to
/// the empty store.
pub open spec fn replay(log: Seq<TransactionView>) -> StoreView
    decreases log.len(),
{
    if log.len() == 0 {
        Map::empty()
    } else {
        apply_operations(replay(log.drop_last()), log.last().operations)
    }
}

/// The hash that the transaction at position `at` of a log has to name.
pub open spec fn expected_hash(log: Seq<TransactionView>, at: int) -> Seq<u8> {
    if at <= 0 {
        genesis_hash()
    } else {
        transaction_hash(log[at - 1])
    }
}

/// A log whose indices count up from zero without a gap and in which every
/// transaction names the hash of the one before it.
pub open spec fn chained(log: Seq<TransactionView>) -> bool {
    forall|i: int|
        0 <= i < log.len() ==> {
            &&& (#[trigger] log[i]).index == i
            &&& log[i].last_tx_hash == expected_hash(log, i)
        }
}

/// The keys of `table` in a store.
pub open spec fn table_keys(store: StoreView, table: Seq<u8>) -> Set<Seq<u8>> {
    Set::new(|key: Seq<u8>| store.dom().contains((table, key)))
}

/// One stored value with the table and key it stands under.
struct Entry {
    table: Vec<u8>,
    key: Vec<u8>,
    value: Vec<u8>,
}

impl Entry {
    spec fn place(&self) -> (Seq<u8>, Seq<u8>) {
        (self.table@, self.key@)
    }
}

/// The entries hold exactly what the store holds, each place once.
spec fn entries_match(entries: Seq<Entry>, store: StoreView) -> bool {
    &&& forall|i: int|
        0 <= i < entries.len() ==> store.dom().contains((#[trigger] entries[i]).place())
            && store[entries[i].place()] == entries[i].value@
    &&& forall|p: (Seq<u8>, Seq<u8>)| #[trigger]
        store.dom().contains(p) ==> exists|i: int| 0 <= i < entries.len() && (#[trigger] entries[i]).place() == p
    &&& forall|i: int, j: int|
        0 <= i < entries.len() && 0 <= j < entries.len() && i != j ==> (#[trigger] entries[i]).place()
            != (#[trigger] entries[j]).place()
}

/// The position of the entry for a place, if there is one.
fn find_entry(entries: &Vec<Entry>, table: &[u8], key: &[u8]) -> (r: Option<usize>)
    ensures
        match r {
            Some(i) => i < entries.len() && entries@[i as int].place() == (table@, key@),
            None => forall|i: int| 0 <= i < entries.len() ==> (#[trigger] entries@[i]).place() != (table@, key@),
        },
{
    let mut i: usize = 0;
    while i < entries.len()
        invariant
            i <= entries.len(),
            forall|j: int| 0 <= j < i ==> (#[trigger] entries@[j]).place() != (table@, key@),
        decreases entries.len() - i,
    {
        if bytes_eq(entries[i].table.as_slice(), table) && bytes_eq(entries[i].key.as_slice(), key) {
            return Some(i);
        }
        i += 1;
    }
    None
}

/// Applies one operation to the entries.
fn apply_to_entries(entries: &mut Vec<Entry>, op: &Operation, Ghost(store): Ghost<StoreView>)
    requires
        entries_match(old(entries)@, store),
    ensures
        entries_match(final(entries)@, apply_operation(store, op@)),
{
    let ghost before = entries@;
    let ghost after = apply_operation(store, op@);
    match op {
        Operation::Insert { table, key, value } => {
            let entry = Entry { table: table.clone(), key: key.clone(), value: value.clone() };
            match find_entry(entries, table.as_slice(), key.as_slice()) {
                Some(i) => {
                    entries.set(i, entry);
                    assert forall|p: (Seq<u8>, Seq<u8>)| #[trigger]
                        after.dom().contains(p) implies exists|j: int|
                        0 <= j < entries@.len() && (#[trigger] entries@[j]).place() == p by {
                        if p == (table@, key@) {
                            assert(entries@[i as int].place() == p);
                        } else {
                            let j = choose|j: int|
                                0 <= j < before.len() && (#[trigger] before[j]).place() == p;
                            assert(entries@[j].place() == p);
                        }
                    }
                },
                None => {
                    entries.push(entry);
                    assert forall|p: (Seq<u8>, Seq<u8>)| #[trigger]
                        after.dom().contains(p) implies exists|j: int|
                        0 <= j < entries@.len() && (#[trigger] entries@[j]).place() == p by {
                        if p == (table@, key@) {
                            assert(entries@[before.len() as int].place() == p);
                        } else {
                            let j = choose|j: int|
                                0 <= j < before.len() && (#[trigger] before[j]).place() == p;
                            assert(entries@[j].place() == p);
                        }
                    }
                },
            }
        },
        Operation::Remove { table, key } => {
            match find_entry(entries, table.as_slice(), key.as_slice()) {
                Some(i) => {
                    entries.remove(i);
                    assert forall|p: (Seq<u8>, Seq<u8>)| #[trigger]
                        after.dom().contains(p) implies exists|j: int|
                        0 <= j < entries@.len() && (#[trigger] entries@[j]).place() == p by {
                        let j = choose|j: int|
                            0 <= j < before.len() && (#[trigger] before[j]).place() == p;
                        if j < i {
                            assert(entries@[j].place() == p);
                        } else {
                            assert(entries@[j - 1].place() == p);
                        }
                    }
                    assert forall|a: int| 0 <= a < entries@.len() implies after.dom().contains(
                        (#[trigger] entries@[a]).place(),
                    ) && after[entries@[a].place()] == entries@[a].value@ by {
                        if a < i {
                            assert(entries@[a] == before[a]);
                        } else {
                            assert(entries@[a] == before[a + 1]);
                        }
                    }
                    assert forall|a: int, b: int|
                        0 <= a < entries@.len() && 0 <= b < entries@.len() && a != b implies (
                    #[trigger] entries@[a]).place() != (#[trigger] entries@[b]).place() by {
                        let a0 = if a < i { a } else { a + 1 };
                        let b0 = if b < i { b } else { b + 1 };
                        assert(entries@[a] == before[a0]);
                        assert(entries@[b] == before[b0]);
                    }
                },
                None => {
                    assert(after =~= store);
                },
            }
        },
        Operation::DeleteTable { table } => {
            let mut kept: Vec<Entry> = Vec::new();
            let ghost mut origin: Seq<int> = Seq::empty();
            let mut i: usize = 0;
            let total = entries.len();
            while i < total
                invariant
                    i <= total,
                    total == before.len(),
                    entries@.len() == total - i,
                    forall|j: int| 0 <= j < entries@.len() ==> entries@[j] == before[i + j],
                    origin.len() == kept@.len(),
                    forall|j: int|
                        0 <= j < kept@.len() ==> 0 <= #[trigger] origin[j] < i && kept@[j]
                            == before[origin[j]] && before[origin[j]].table@ != table@,
                    forall|a: int, b: int|
                        0 <= a < b < origin.len() ==> #[trigger] origin[a] < #[trigger] origin[b],
                    forall|j: int|
                        0 <= j < i && (#[trigger] before[j]).table@ != table@ ==> exists|a: int|
                            0 <= a < origin.len() && #[trigger] origin[a] == j,
                decreases total - i,
            {
                let entry = entries.remove(0);
                if !bytes_eq(entry.table.as_slice(), table.as_slice()) {
                    kept.push(entry);
                    proof {
                        let ghost old_origin = origin;
                        origin = origin.push(i as int);
                        assert forall|j: int|
                            0 <= j < i + 1 && (#[trigger] before[j]).table@ != table@ implies exists|
                            a: int,
                        | 0 <= a < origin.len() && #[trigger] origin[a] == j by {
                            if j < i {
                                let a = choose|a: int|
                                    0 <= a < old_origin.len() && #[trigger] old_origin[a] == j;
                                assert(origin[a] == j);
                            } else {
                                assert(origin[old_origin.len() as int] == j);
                            }
                        }
                    }
                }
                i += 1;
            }
            *entries = kept;
            assert forall|p: (Seq<u8>, Seq<u8>)| #[trigger]
                after.dom().contains(p) implies exists|j: int|
                0 <= j < entries@.len() && (#[trigger] entries@[j]).place() == p by {
                let j0 = choose|j: int| 0 <= j < before.len() && (#[trigger] before[j]).place() == p;
                let a = choose|a: int| 0 <= a < origin.len() && #[trigger] origin[a] == j0;
                assert(entries@[a].place() == p);
            }
            assert forall|a: int, b: int|
                0 <= a < entries@.len() && 0 <= b < entries@.len() && a != b implies (
            #[trigger] entries@[a]).place() != (#[trigger] entries@[b]).place() by {
                if a < b {
                    assert(origin[a] < origin[b]);
                } else {
                    assert(origin[b] < origin[a]);
                }
            }
            assert forall|a: int| 0 <= a < entries@.len() implies after.dom().contains(
                (#[trigger] entries@[a]).place(),
            ) && after[entries@[a].place()] == entries@[a].value@ by {
                let e = before[origin[a]];
                assert(entries@[a] == e);
                assert(!in_table(table@).contains(e.place()));
                assert(store.dom().contains(e.place()));
            }
        },
    }
}

/// The views of a run of transactions, in order.
pub open spec fn transactions_view(txs: Seq<JournalTransaction>) -> Seq<TransactionView> {
    txs.map_values(|tx: JournalTransaction| tx@)
}

/// The views of a run of byte strings, in order.
pub open spec fn keys_view(keys: Seq<Vec<u8>>) -> Seq<Seq<u8>> {
    keys.map_values(|key: Vec<u8>| key@)
}

/// The keys of a run of entries, in order.
pub open spec fn found_keys(found: Seq<(Vec<u8>, Vec<u8>)>) -> Seq<Seq<u8>> {
    found.map_values(|entry: (Vec<u8>, Vec<u8>)| entry.0@)
}

/// What [`Journal::append_tx`] answers for a log and a transaction offered
/// to it.
pub open spec fn append_check(log: Seq<TransactionView>, tx: TransactionView) -> Result<
    (),
    JournalError,
> {
    if tx.index != log.len() {
        Err(JournalError::IndexGap)
    } else if tx.last_tx_hash != expected_hash(log, log.len() as int) {
        Err(JournalError::ChainBreak)
    } else {
        Ok(())
    }
}

/// A chained log stays chained when a transaction that passes
/// [`append_check`] is put behind it.
pub proof fn lemma_chained_push(log: Seq<TransactionView>, tx: TransactionView)
    requires
        chained(log),
        append_check(log, tx) is Ok,
    ensures
        chained(log.push(tx)),
{
    let next = log.push(tx);
    assert forall|i: int| 0 <= i < next.len() implies {
        &&& (#[trigger] next[i]).index == i
        &&& next[i].last_tx_hash == expected_hash(next, i)
    } by {
        if i < log.len() {
            assert(next[i] == log[i]);
        }
        if i > 0 {
            assert(next[i - 1] == log[i - 1]);
        }
    }
}

/// Replaying a log with one more transaction is replaying the log and then
/// applying that transaction.
pub proof fn lemma_replay_push(log: Seq<TransactionView>, tx: TransactionView)
    ensures
        replay(log.push(tx)) == apply_operations(replay(log), tx.operations),
{
    assert(log.push(tx).drop_last() =~= log);
}

/// An append-only log of transactions together with the store that the log
/// replays to.
pub struct Journal {
    transactions: Vec<JournalTransaction>,
    entries: Vec<Entry>,
    tail_hash: [u8; 32],
}

impl Journal {
    /// The transactions of the journal, oldest first.
    pub closed spec fn log(&self) -> Seq<TransactionView> {
        transactions_view(self.transactions@)
    }

    /// The store that the journal's log replays to.
    pub open spec fn store(&self) -> StoreView {
        replay(self.log())
    }

    /// The journal's invariant: the log is chained, and the stored entries
    /// and the remembered tail hash are those that follow from the log.
    pub closed spec fn wf(&self) -> bool {
        &&& chained(self.log())
        &&& entries_match(self.entries@, replay(self.log()))
        &&& self.tail_hash@ == expected_hash(self.log(), self.log().len() as int)
    }

    /// In a journal the indices are exactly `0..len`, in order and without a
    /// gap.
    pub proof fn lemma_indices_contiguous(&self)
        requires
            self.wf(),
        ensures
            forall|i: int| 0 <= i < self.log().len() ==> (#[trigger] self.log()[i]).index == i,
    {
    }

    /// In a journal the first transaction names the all-zero hash, and every
    /// later one names the content hash of the transaction before it.
    pub proof fn lemma_hash_chain(&self)
        requires
            self.wf(),
        ensures
            self.log().len() > 0 ==> self.log()[0].last_tx_hash == genesis_hash(),
            forall|i: int|
                0 < i < self.log().len() ==> (#[trigger] self.log()[i]).last_tx_hash
                    == transaction_hash(self.log()[i - 1]),
            chained(self.log()),
    {
    }

    /// The journal's log has a length that fits a `u64`.
    pub proof fn lemma_len_fits(&self)
        ensures
            self.log().len() <= u64::MAX,
    {
        assert(self.transactions@.len() == self.transactions.len());
    }

    /// An empty journal.
    pub fn new() -> (journal: Journal)
        ensures
            journal.wf(),
            journal.log() == Seq::<TransactionView>::empty(),
    {
        let journal = Journal { transactions: Vec::new(), entries: Vec::new(), tail_hash: [0u8; 32] };
        assert(journal.log() =~= Seq::<TransactionView>::empty());
        assert(journal.tail_hash@ =~= genesis_hash());
        journal
    }

    /// The number of transactions in the journal.
    pub fn journal_tx_len(&self) -> (len: u64)
        ensures
            len == self.log().len(),
    {
        self.transactions.len() as u64
    }

    /// The transaction at `index`, if the journal is that long.
    pub fn journal_tx_by_index(&self, index: u64) -> (r: Option<JournalTransaction>)
        ensures
            match r {
                Some(tx) => index < self.log().len() && tx@ == self.log()[index as int],
                None => index >= self.log().len(),
            },
    {
        if index >= self.transactions.len() as u64 {
            return None;
        }
        Some(self.transactions[index as usize].duplicate())
    }

    /// All transactions of the journal, oldest first.
    pub fn journal_transactions(&self) -> (txs: Vec<JournalTransaction>)
        ensures
            transactions_view(txs@) == self.log(),
    {
        let mut txs: Vec<JournalTransaction> = Vec::new();
        let mut i: usize = 0;
        while i < self.transactions.len()
            invariant
                i <= self.transactions.len(),
                txs@.len() == i,
                forall|j: int| 0 <= j < i ==> txs@[j]@ == self.transactions@[j]@,
            decreases self.transactions.len() - i,
        {
            txs.push(self.transactions[i].duplicate());
            i += 1;
        }
        assert(transactions_view(txs@) =~= self.log());
        txs
    }

    /// The hash that the next transaction has to name: all zero for an empty
    /// journal, else the content hash of the last transaction.
    pub fn tail_hash(&self) -> (hash: [u8; 32])
        requires
            self.wf(),
        ensures
            hash@ == expected_hash(self.log(), self.log().len() as int),
    {
        self.tail_hash
    }

    /// Puts a transaction that was built elsewhere behind the log and applies
    /// it to the store. The transaction must carry the journal's length as
    /// its index and name the hash of the journal's last entry; any other is
    /// refused and the journal stays as it was.
    pub fn append_tx(&mut self, tx: JournalTransaction) -> (r: Result<(), JournalError>)
        requires
            old(self).wf(),
        ensures
            final(self).wf(),
            r == append_check(old(self).log(), tx@),
            r is Ok ==> final(self).log() == old(self).log().push(tx@),
            r is Err ==> final(self).log() == old(self).log(),
    {
        if tx.index != self.transactions.len() as u64 {
            return Err(JournalError::IndexGap);
        }
        if !bytes_eq(array_as_slice(&tx.last_tx_hash), array_as_slice(&self.tail_hash)) {
            return Err(JournalError::ChainBreak);
        }
        let ghost log = self.log();
        let ghost ops = tx@.operations;
        let mut i: usize = 0;
        while i < tx.operations.len()
            invariant
                i <= tx.operations.len(),
                ops == operations_view(tx.operations@),
                self.log() == log,
                entries_match(self.entries@, apply_operations(replay(log), ops.take(i as int))),
            decreases tx.operations.len() - i,
        {
            apply_to_entries(
                &mut self.entries,
                &tx.operations[i],
                Ghost(apply_operations(replay(log), ops.take(i as int))),
            );
            proof {
                let next = ops.take(i + 1);
                assert(next.drop_last() =~= ops.take(i as int));
                assert(next.last() == tx.operations@[i as int]@);
            }
            i += 1;
        }
        assert(ops.take(i as int) =~= ops);
        self.tail_hash = tx.hash();
        self.transactions.push(tx);
        proof {
            assert(self.log() =~= log.push(tx@));
            lemma_chained_push(log, tx@);
            lemma_replay_push(log, tx@);
        }
        Ok(())
    }

    /// Commits a run of operations as the journal's next transaction, chained
    /// to the one before, and hands back a copy of it.
    pub fn commit(&mut self, operations: Vec<Operation>) -> (tx: JournalTransaction)
        requires
            old(self).wf(),
        ensures
            final(self).wf(),
            final(self).log() == old(self).log().push(tx@),
            tx@ == (TransactionView {
                index: old(self).log().len() as u64,
                operations: operations_view(operations@),
                last_tx_hash: expected_hash(old(self).log(), old(self).log().len() as int),
            }),
    {
        let tx = JournalTransaction {
            index: self.transactions.len() as u64,
            operations: duplicate_operations(&operations),
            last_tx_hash: self.tail_hash,
        };
        let copy = tx.duplicate();
        let r = self.append_tx(tx);
        assert(r is Ok);
        copy
    }

    /// Commits a single insertion.
    pub fn insert(&mut self, table: &[u8], key: &[u8], value: &[u8]) -> (tx: JournalTransaction)
        requires
            old(self).wf(),
        ensures
            final(self).wf(),
            final(self).log() == old(self).log().push(tx@),
            tx@ == (TransactionView {
                index: old(self).log().len() as u64,
                operations: seq![
                    OperationView::Insert { table: table@, key: key@, value: value@ },
                ],
                last_tx_hash: expected_hash(old(self).log(), old(self).log().len() as int),
            }),
    {
        let mut operations: Vec<Operation> = Vec::new();
        operations.push(
            Operation::Insert {
                table: vstd::slice::slice_to_vec(table),
                key: vstd::slice::slice_to_vec(key),
                value: vstd::slice::slice_to_vec(value),
            },
        );
        assert(operations_view(operations@) =~= seq![
            OperationView::Insert { table: table@, key: key@, value: value@ },
        ]);
        self.commit(operations)
    }

    /// Commits a single removal.
    pub fn remove(&mut self, table: &[u8], key: &[u8]) -> (tx: JournalTransaction)
        requires
            old(self).wf(),
        ensures
            final(self).wf(),
            final(self).log() == old(self).log().push(tx@),
            tx@ == (TransactionView {
                index: old(self).log().len() as u64,
                operations: seq![OperationView::Remove { table: table@, key: key@ }],
                last_tx_hash: expected_hash(old(self).log(), old(self).log().len() as int),
            }),
    {
        let mut operations: Vec<Operation> = Vec::new();
        operations.push(
            Operation::Remove {
                table: vstd::slice::slice_to_vec(table),
                key: vstd::slice::slice_to_vec(key),
            },
        );
        assert(operations_view(operations@) =~= seq![
            OperationView::Remove { table: table@, key: key@ },
        ]);
        self.commit(operations)
    }

    /// Commits the deletion of a whole table.
    pub fn delete_table(&mut self, table: &[u8]) -> (tx: JournalTransaction)
        requires
            old(self).wf(),
        ensures
            final(self).wf(),
            final(self).log() == old(self).log().push(tx@),
            tx@ == (TransactionView {
                index: old(self).log().len() as u64,
                operations: seq![OperationView::DeleteTable { table: table@ }],
                last_tx_hash: expected_hash(old(self).log(), old(self).log().len() as int),
            }),
    {
        let mut operations: Vec<Operation> = Vec::new();
        operations.push(Operation::DeleteTable { table: vstd::slice::slice_to_vec(table) });
        assert(operations_view(operations@) =~= seq![OperationView::DeleteTable { table: table@ }]);
        self.commit(operations)
    }

    /// The value under `key` in `table`, if there is one.
    pub fn get(&self, table: &[u8], key: &[u8]) -> (r: Option<Vec<u8>>)
        requires
            self.wf(),
        ensures
            match r {
                Some(value) => self.store().dom().contains((table@, key@)) && self.store()[(
                    table@,
                    key@,
                )] == value@,
                None => !self.store().dom().contains((table@, key@)),
            },
    {
        match find_entry(&self.entries, table, key) {
            Some(i) => Some(self.entries[i].value.clone()),
            None => None,
        }
    }

    /// The keys of `table`, each once.
    pub fn list_keys(&self, table: &[u8]) -> (keys: Vec<Vec<u8>>)
        requires
            self.wf(),
        ensures
            keys_view(keys@).no_duplicates(),
            keys_view(keys@).to_set() == table_keys(self.store(), table@),
    {
        let mut keys: Vec<Vec<u8>> = Vec::new();
        let ghost mut origin: Seq<int> = Seq::empty();
        let mut i: usize = 0;
        while i < self.entries.len()
            invariant
                i <= self.entries.len(),
                origin.len() == keys@.len(),
                forall|j: int|
                    0 <= j < keys@.len() ==> 0 <= #[trigger] origin[j] < i && keys@[j]@
                        == self.entries@[origin[j]].key@ && self.entries@[origin[j]].table@
                        == table@,
                forall|a: int, b: int|
                    0 <= a < b < origin.len() ==> #[trigger] origin[a] < #[trigger] origin[b],
                forall|j: int|
                    0 <= j < i && (#[trigger] self.entries@[j]).table@ == table@ ==> exists|a: int|
                        0 <= a < origin.len() && #[trigger] origin[a] == j,
            decreases self.entries.len() - i,
        {
            if bytes_eq(self.entries[i].table.as_slice(), table) {
                keys.push(self.entries[i].key.clone());
                proof {
                    let ghost old_origin = origin;
                    origin = origin.push(i as int);
                    assert forall|j: int|
                        0 <= j < i + 1 && (#[trigger] self.entries@[j]).table@
                            == table@ implies exists|a: int|
                        0 <= a < origin.len() && #[trigger] origin[a] == j by {
                        if j < i {
                            let a = choose|a: int|
                                0 <= a < old_origin.len() && #[trigger] old_origin[a] == j;
                            assert(origin[a] == j);
                        } else {
                            assert(origin[old_origin.len() as int] == j);
                        }
                    }
                }
            }
            i += 1;
        }
        proof {
            let kv = keys_view(keys@);
            let store = self.store();
            assert forall|a: int, b: int| 0 <= a < kv.len() && 0 <= b < kv.len() && a != b implies kv[a]
                != kv[b] by {
                if a < b {
                    assert(origin[a] < origin[b]);
                } else {
                    assert(origin[b] < origin[a]);
                }
                assert(self.entries@[origin[a]].place() != self.entries@[origin[b]].place());
            }
            assert forall|key: Seq<u8>| kv.to_set().contains(key) <==> table_keys(
                store,
                table@,
            ).contains(key) by {
                if kv.to_set().contains(key) {
                    let a = choose|a: int| 0 <= a < kv.len() && kv[a] == key;
                    assert(self.entries@[origin[a]].place() == (table@, key));
                }
                if store.dom().contains((table@, key)) {
                    let j = choose|j: int|
                        0 <= j < self.entries@.len() && (#[trigger] self.entries@[j]).place() == (
                            table@,
                            key,
                        );
                    let a = choose|a: int| 0 <= a < origin.len() && #[trigger] origin[a] == j;
                    assert(kv[a] == key);
                }
            }
            assert(kv.to_set() =~= table_keys(store, table@));
        }
        keys
    }

    /// The keys of `table` with their values, each key once.
    pub fn find_many(&self, table: &[u8]) -> (found: Vec<(Vec<u8>, Vec<u8>)>)
        requires
            self.wf(),
        ensures
            found_keys(found@).no_duplicates(),
            found_keys(found@).to_set() == table_keys(self.store(), table@),
            forall|i: int|
                0 <= i < found@.len() ==> self.store()[(table@, (#[trigger] found@[i]).0@)]
                    == found@[i].1@,
    {
        let keys = self.list_keys(table);
        let mut found: Vec<(Vec<u8>, Vec<u8>)> = Vec::new();
        let mut i: usize = 0;
        while i < keys.len()
            invariant
                i <= keys.len(),
                self.wf(),
                keys_view(keys@).to_set() == table_keys(self.store(), table@),
                found@.len() == i,
                forall|j: int| 0 <= j < i ==> (#[trigger] found@[j]).0@ == keys@[j]@,
                forall|j: int|
                    0 <= j < i ==> self.store()[(table@, (#[trigger] found@[j]).0@)] == found@[j].1@,
            decreases keys.len() - i,
        {
            let key = keys[i].clone();
            proof {
                assert(keys_view(keys@)[i as int] == key@);
                assert(keys_view(keys@).to_set().contains(key@));
                assert(table_keys(self.store(), table@).contains(key@));
            }
            let value = match self.get(table, key.as_slice()) {
                Some(value) => value,
                None => vstd::pervasive::unreached(),
            };
            found.push((key, value));
            i += 1;
        }
        assert(found_keys(found@) =~= keys_view(keys@));
        found
    }

    /// A write transaction in the making, to be committed to this journal.
    pub fn begin_write(&self) -> (builder: TxBuilder)
        ensures
            builder.pending() == Seq::<OperationView>::empty(),
    {
        TxBuilder::new()
    }

    /// The number of keys in `table`.
    pub fn count(&self, table: &[u8]) -> (n: u64)
        requires
            self.wf(),
        ensures
            n == table_keys(self.store(), table@).len(),
            table_keys(self.store(), table@).finite(),
    {
        let keys = self.list_keys(table);
        proof {
            keys_view(keys@).unique_seq_to_set();
            vstd::seq_lib::seq_to_set_is_finite(keys_view(keys@));
        }
        keys.len() as u64
    }
}

/// A run of operations in the making: what a write transaction collects
/// before it is committed.
pub struct TxBuilder {
    operations: Vec<Operation>,
}

impl TxBuilder {
    /// The operations collected so far.
    pub closed spec fn pending(&self) -> Seq<OperationView> {
        operations_view(self.operations@)
    }

    /// A builder that holds nothing yet.
    pub fn new() -> (builder: TxBuilder)
        ensures
            builder.pending() == Seq::<OperationView>::empty(),
    {
        let builder = TxBuilder { operations: Vec::new() };
        assert(builder.pending() =~= Seq::<OperationView>::empty());
        builder
    }

    /// Adds an insertion.
    pub fn insert(&mut self, table: &[u8], key: &[u8], value: &[u8])
        ensures
            final(self).pending() == old(self).pending().push(
                OperationView::Insert { table: table@, key: key@, value: value@ },
            ),
    {
        self.operations.push(
            Operation::Insert {
                table: vstd::slice::slice_to_vec(table),
                key: vstd::slice::slice_to_vec(key),
                value: vstd::slice::slice_to_vec(value),
            },
        );
        assert(self.pending() =~= old(self).pending().push(
            OperationView::Insert { table: table@, key: key@, value: value@ },
        ));
    }

    /// Adds a removal.
    pub fn remove(&mut self, table: &[u8], key: &[u8])
        ensures
            final(self).pending() == old(self).pending().push(
                OperationView::Remove { table: table@, key: key@ },
            ),
    {
        self.operations.push(
            Operation::Remove {
                table: vstd::slice::slice_to_vec(table),
                key: vstd::slice::slice_to_vec(key),
            },
        );
        assert(self.pending() =~= old(self).pending().push(
            OperationView::Remove { table: table@, key: key@ },
        ));
    }

    /// Adds the deletion of a whole table.
    pub fn delete_table(&mut self, table: &[u8])
        ensures
            final(self).pending() == old(self).pending().push(
                OperationView::DeleteTable { table: table@ },
            ),
    {
        self.operations.push(Operation::DeleteTable { table: vstd::slice::slice_to_vec(table) });
        assert(self.pending() =~= old(self).pending().push(
            OperationView::DeleteTable { table: table@ },
        ));
    }

    /// Commits what was collected as one transaction of `journal`.
    pub fn commit(self, journal: &mut Journal) -> (tx: JournalTransaction)
        requires
            old(journal).wf(),
        ensures
            final(journal).wf(),
            final(journal).log() == old(journal).log().push(tx@),
            tx@ == (TransactionView {
                index: old(journal).log().len() as u64,
                operations: self.pending(),
                last_tx_hash: expected_hash(old(journal).log(), old(journal).log().len() as int),
            }),
    {
        journal.commit(self.operations)
    }
}

} // verus!
