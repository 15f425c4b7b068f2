//! Journal transactions: what one commit did to the tables, the place of the
//! commit in the history, and the hash that chains it to the commit before.

use vstd::prelude::*;
use vstd::array::array_as_slice;
use crate::codec::enc_bytes;
use crate::codec::enc_u64;
use crate::codec::get_bytes;
use crate::codec::get_raw;
use crate::codec::get_u64;
use crate::codec::lemma_enc_bytes_of_parse;
use crate::codec::lemma_enc_fixed_of_parse;
use crate::codec::lemma_enc_u64_len;
use crate::codec::lemma_enc_u64_of_parse;
use crate::codec::lemma_parse_bytes_of_enc;
use crate::codec::lemma_parse_fixed_of_enc;
use crate::codec::lemma_parse_u64_of_enc;
use crate::codec::lemma_stands_join;
use crate::codec::lemma_stands_split;
use crate::codec::lemma_stands_whole;
use crate::codec::parse_bytes;
use crate::codec::parse_fixed;
use crate::codec::parse_u64;
use crate::codec::Parsed;
use crate::codec::put_bytes;
use crate::codec::put_raw;
use crate::codec::put_u64;
use crate::codec::stands_at;
use crate::codec::to_array32;
use crate::crypto::blake3_digest;
use crate::crypto::blake3_hash;

verus! {

/// One change to a table of the store.
#[derive(Clone, Debug, PartialEq, Eq)]
pub enum Operation {
    /// Put `value` under `key`, replacing what was there.
    Insert { table: Vec<u8>, key: Vec<u8>, value: Vec<u8> },
    /// Take `key` out of the table.
    Remove { table: Vec<u8>, key: Vec<u8> },
    /// Take every key out of the table.
    DeleteTable { table: Vec<u8> },
}

/// An [`Operation`] as plain mathematical data.
pub enum OperationView {
    Insert { table: Seq<u8>, key: Seq<u8>, value: Seq<u8> },
    Remove { table: Seq<u8>, key: Seq<u8> },
    DeleteTable { table: Seq<u8> },
}

impl OperationView {
    /// Every byte string in the operation has a length that fits its prefix.
    pub open spec fn wf(self) -> bool {
        match self {
            OperationView::Insert { table, key, value } => {
                &&& table.len() <= u64::MAX
                &&& key.len() <= u64::MAX
                &&& value.len() <= u64::MAX
            },
            OperationView::Remove { table, key } => {
                &&& table.len() <= u64::MAX
                &&& key.len() <= u64::MAX
            },
            OperationView::DeleteTable { table } => table.len() <= u64::MAX,
        }
    }
}

impl View for Operation {
    type V = OperationView;

    open spec fn view(&self) -> OperationView {
        match *self {
            Operation::Insert { table, key, value } => OperationView::Insert {
                table: table@,
                key: key@,
                value: value@,
            },
            Operation::Remove { table, key } => OperationView::Remove { table: table@, key: key@ },
            Operation::DeleteTable { table } => OperationView::DeleteTable { table: table@ },
        }
    }
}

/// The views of a run of operations, in order.
pub open spec fn operations_view(ops: Seq<Operation>) -> Seq<OperationView> {
    ops.map_values(|op: Operation| op@)
}

/// One committed transaction of a journal.
#[derive(Clone, Debug, PartialEq, Eq)]
pub struct JournalTransaction {
    /// Position of the transaction in the journal, from zero.
    pub index: u64,
    /// What the transaction did, in the order it did it.
    pub operations: Vec<Operation>,
    /// Hash of the transaction before this one; all zero for the first.
    pub last_tx_hash: [u8; 32],
}

/// A [`JournalTransaction`] as plain mathematical data.
pub struct TransactionView {
    pub index: u64,
    pub operations: Seq<OperationView>,
    pub last_tx_hash: Seq<u8>,
}

impl TransactionView {
    /// The lengths that every transaction in memory has.
    pub open spec fn wf(self) -> bool {
        &&& self.operations.len() <= u64::MAX
        &&& forall|i: int| 0 <= i < self.operations.len() ==> (#[trigger] self.operations[i]).wf()
        &&& self.last_tx_hash.len() == 32
    }
}

impl View for JournalTransaction {
    type V = TransactionView;

    open spec fn view(&self) -> TransactionView {
        TransactionView {
            index: self.index,
            operations: operations_view(self.operations@),
            last_tx_hash: self.last_tx_hash@,
        }
    }
}

/// The hash that stands in the first transaction of every journal.
pub open spec fn genesis_hash() -> Seq<u8> {
    Seq::new(32, |i: int| 0u8)
}

/// The wire form of an operation: a tag byte, then its byte strings.
pub open spec fn encode_operation(op: OperationView) -> Seq<u8> {
    match op {
        OperationView::Insert { table, key, value } => seq![0u8] + enc_bytes(table) + enc_bytes(key)
            + enc_bytes(value),
        OperationView::Remove { table, key } => seq![1u8] + enc_bytes(table) + enc_bytes(key),
        OperationView::DeleteTable { table } => seq![2u8] + enc_bytes(table),
    }
}

/// Reads an operation at `pos`.
pub open spec fn parse_operation(s: Seq<u8>, pos: int) -> Parsed<OperationView> {
    if 0 <= pos < s.len() {
        if s[pos] == 0 {
            match parse_bytes(s, pos + 1) {
                Some((table, pos1)) => match parse_bytes(s, pos1) {
                    Some((key, pos2)) => match parse_bytes(s, pos2) {
                        Some((value, pos3)) => Some((OperationView::Insert { table, key, value }, pos3)),
                        None => None,
                    },
                    None => None,
                },
                None => None,
            }
        } else if s[pos] == 1 {
            match parse_bytes(s, pos + 1) {
                Some((table, pos1)) => match parse_bytes(s, pos1) {
                    Some((key, pos2)) => Some((OperationView::Remove { table, key }, pos2)),
                    None => None,
                },
                None => None,
            }
        } else if s[pos] == 2 {
            match parse_bytes(s, pos + 1) {
                Some((table, pos1)) => Some((OperationView::DeleteTable { table }, pos1)),
                None => None,
            }
        } else {
            None
        }
    } else {
        None
    }
}

/// What was written with [`encode_operation`] is read back, wherever it
/// stands.
pub proof fn lemma_parse_operation_of_enc(s: Seq<u8>, pos: int, op: OperationView)
    requires
        op.wf(),
        stands_at(s, pos, encode_operation(op)),
    ensures
        parse_operation(s, pos) == Some((op, pos + encode_operation(op).len())),
        encode_operation(op).len() >= 1,
{
    let e = encode_operation(op);
    assert(s[pos] == s.subrange(pos, pos + e.len())[0]);
    match op {
        OperationView::Insert { table, key, value } => {
            let t = seq![0u8];
            lemma_stands_split(s, pos, t + enc_bytes(table) + enc_bytes(key), enc_bytes(value));
            lemma_stands_split(s, pos, t + enc_bytes(table), enc_bytes(key));
            lemma_stands_split(s, pos, t, enc_bytes(table));
            lemma_parse_bytes_of_enc(s, pos + 1, table);
            let pos1 = pos + 1 + enc_bytes(table).len();
            lemma_parse_bytes_of_enc(s, pos1, key);
            let pos2 = pos1 + enc_bytes(key).len();
            lemma_parse_bytes_of_enc(s, pos2, value);
        },
        OperationView::Remove { table, key } => {
            let t = seq![1u8];
            lemma_stands_split(s, pos, t + enc_bytes(table), enc_bytes(key));
            lemma_stands_split(s, pos, t, enc_bytes(table));
            lemma_parse_bytes_of_enc(s, pos + 1, table);
            let pos1 = pos + 1 + enc_bytes(table).len();
            lemma_parse_bytes_of_enc(s, pos1, key);
        },
        OperationView::DeleteTable { table } => {
            let t = seq![2u8];
            lemma_stands_split(s, pos, t, enc_bytes(table));
            lemma_parse_bytes_of_enc(s, pos + 1, table);
        },
    }
}

/// What [`parse_operation`] reads is the encoding of the value it returns.
pub proof fn lemma_enc_operation_of_parse(s: Seq<u8>, pos: int)
    requires
        parse_operation(s, pos) is Some,
    ensures
        ({
            let (op, next) = parse_operation(s, pos).unwrap();
            &&& op.wf()
            &&& stands_at(s, pos, encode_operation(op))
            &&& next == pos + encode_operation(op).len()
        }),
{
    let t = seq![s[pos]];
    assert(s.subrange(pos, pos + 1) =~= t);
    lemma_enc_bytes_of_parse(s, pos + 1);
    let (table, pos1) = parse_bytes(s, pos + 1).unwrap();
    lemma_stands_join(s, pos, t, enc_bytes(table));
    if s[pos] == 0 {
        lemma_enc_bytes_of_parse(s, pos1);
        let (key, pos2) = parse_bytes(s, pos1).unwrap();
        lemma_enc_bytes_of_parse(s, pos2);
        let (value, pos3) = parse_bytes(s, pos2).unwrap();
        lemma_stands_join(s, pos, t + enc_bytes(table), enc_bytes(key));
        lemma_stands_join(s, pos, t + enc_bytes(table) + enc_bytes(key), enc_bytes(value));
    } else if s[pos] == 1 {
        lemma_enc_bytes_of_parse(s, pos1);
        let (key, pos2) = parse_bytes(s, pos1).unwrap();
        lemma_stands_join(s, pos, t + enc_bytes(table), enc_bytes(key));
    }
}

/// The wire form of a run of operations, one behind the other.
pub open spec fn encode_operations(ops: Seq<OperationView>) -> Seq<u8>
    decreases ops.len(),
{
    if ops.len() == 0 {
        Seq::<u8>::empty()
    } else {
        encode_operations(ops.drop_last()) + encode_operation(ops.last())
    }
}

/// Reads `count` operations, one behind the other, from `pos`.
pub open spec fn parse_operations(s: Seq<u8>, pos: int, count: nat) -> Parsed<Seq<OperationView>>
    decreases count,
{
    if count == 0 {
        if 0 <= pos <= s.len() {
            Some((Seq::<OperationView>::empty(), pos))
        } else {
            None
        }
    } else {
        match parse_operations(s, pos, (count - 1) as nat) {
            Some((front, p)) => match parse_operation(s, p) {
                Some((op, next)) => Some((front.push(op), next)),
                None => None,
            },
            None => None,
        }
    }
}

/// Once reading has failed, asking for more operations fails too.
pub proof fn lemma_parse_operations_fails_on(s: Seq<u8>, pos: int, failed: nat, count: nat)
    requires
        parse_operations(s, pos, failed) is None,
        failed <= count,
    ensures
        parse_operations(s, pos, count) is None,
    decreases count,
{
    if failed < count {
        lemma_parse_operations_fails_on(s, pos, failed, (count - 1) as nat);
    }
}

/// What was written with [`encode_operations`] is read back, wherever it
/// stands.
pub proof fn lemma_parse_operations_of_enc(s: Seq<u8>, pos: int, ops: Seq<OperationView>)
    requires
        forall|i: int| 0 <= i < ops.len() ==> (#[trigger] ops[i]).wf(),
        stands_at(s, pos, encode_operations(ops)),
    ensures
        parse_operations(s, pos, ops.len()) == Some((ops, pos + encode_operations(ops).len())),
    decreases ops.len(),
{
    if ops.len() > 0 {
        let front = ops.drop_last();
        lemma_stands_split(s, pos, encode_operations(front), encode_operation(ops.last()));
        lemma_parse_operations_of_enc(s, pos, front);
        lemma_parse_operation_of_enc(s, pos + encode_operations(front).len(), ops.last());
        assert(front.push(ops.last()) =~= ops);
    }
}

/// What [`parse_operations`] reads is the encoding of the value it returns.
pub proof fn lemma_enc_operations_of_parse(s: Seq<u8>, pos: int, count: nat)
    requires
        parse_operations(s, pos, count) is Some,
    ensures
        ({
            let (ops, next) = parse_operations(s, pos, count).unwrap();
            &&& ops.len() == count
            &&& forall|i: int| 0 <= i < ops.len() ==> (#[trigger] ops[i]).wf()
            &&& stands_at(s, pos, encode_operations(ops))
            &&& next == pos + encode_operations(ops).len()
        }),
    decreases count,
{
    if count == 0 {
        assert(s.subrange(pos, pos) =~= Seq::<u8>::empty());
    } else {
        let (front, p) = parse_operations(s, pos, (count - 1) as nat).unwrap();
        let (op, next) = parse_operation(s, p).unwrap();
        lemma_enc_operations_of_parse(s, pos, (count - 1) as nat);
        lemma_enc_operation_of_parse(s, p);
        let ops = front.push(op);
        assert(ops.drop_last() =~= front);
        lemma_stands_join(s, pos, encode_operations(front), encode_operation(op));
    }
}

/// The wire form of a transaction: index, number of operations, the
/// operations, and the hash of the transaction before.
pub open spec fn encode_transaction(tx: TransactionView) -> Seq<u8> {
    enc_u64(tx.index) + enc_u64(tx.operations.len() as u64) + encode_operations(tx.operations)
        + tx.last_tx_hash
}

/// Reads a transaction at `pos`.
pub open spec fn parse_transaction(s: Seq<u8>, pos: int) -> Parsed<TransactionView> {
    match parse_u64(s, pos) {
        Some((index, pos1)) => match parse_u64(s, pos1) {
            Some((count, pos2)) => match parse_operations(s, pos2, count as nat) {
                Some((operations, pos3)) => match parse_fixed(s, pos3, 32) {
                    Some((last_tx_hash, pos4)) => Some(
                        (TransactionView { index, operations, last_tx_hash }, pos4),
                    ),
                    None => None,
                },
                None => None,
            },
            None => None,
        },
        None => None,
    }
}

/// The transaction that a whole byte string encodes, if it encodes one.
pub open spec fn decode_transaction(s: Seq<u8>) -> Option<TransactionView> {
    match parse_transaction(s, 0) {
        Some((tx, next)) => if next == s.len() {
            Some(tx)
        } else {
            None
        },
        None => None,
    }
}

/// The content hash of a transaction: the BLAKE3 digest of its wire form,
/// and so a function of index, operations and previous hash alone.
pub open spec fn transaction_hash(tx: TransactionView) -> Seq<u8> {
    blake3_digest(encode_transaction(tx))
}

/// Decoding undoes encoding.
pub proof fn lemma_decode_encode_transaction(tx: TransactionView)
    requires
        tx.wf(),
    ensures
        decode_transaction(encode_transaction(tx)) == Some(tx),
{
    let s = encode_transaction(tx);
    let e1 = enc_u64(tx.index);
    let e2 = enc_u64(tx.operations.len() as u64);
    let e3 = encode_operations(tx.operations);
    let e4 = tx.last_tx_hash;
    lemma_stands_whole(s);
    lemma_stands_split(s, 0, e1 + e2 + e3, e4);
    lemma_stands_split(s, 0, e1 + e2, e3);
    lemma_stands_split(s, 0, e1, e2);
    lemma_enc_u64_len(tx.index);
    lemma_enc_u64_len(tx.operations.len() as u64);
    lemma_parse_u64_of_enc(s, 0, tx.index);
    lemma_parse_u64_of_enc(s, 8, tx.operations.len() as u64);
    lemma_parse_operations_of_enc(s, 16, tx.operations);
    lemma_parse_fixed_of_enc(s, 16 + e3.len() as int, e4);
}

/// Only the encoding of a transaction decodes to it: the wire form is unique.
pub proof fn lemma_encode_decode_transaction(s: Seq<u8>)
    requires
        decode_transaction(s) is Some,
    ensures
        decode_transaction(s).unwrap().wf(),
        encode_transaction(decode_transaction(s).unwrap()) == s,
{
    let tx = decode_transaction(s).unwrap();
    let (index, pos1) = parse_u64(s, 0).unwrap();
    let (count, pos2) = parse_u64(s, pos1).unwrap();
    let (operations, pos3) = parse_operations(s, pos2, count as nat).unwrap();
    let (last_tx_hash, pos4) = parse_fixed(s, pos3, 32).unwrap();
    lemma_enc_u64_of_parse(s, 0);
    lemma_enc_u64_of_parse(s, pos1);
    lemma_enc_operations_of_parse(s, pos2, count as nat);
    lemma_enc_fixed_of_parse(s, pos3, 32);
    let e1 = enc_u64(index);
    let e2 = enc_u64(count);
    let e3 = encode_operations(operations);
    lemma_enc_u64_len(index);
    lemma_enc_u64_len(count);
    lemma_stands_join(s, 0, e1, e2);
    lemma_stands_join(s, 0, e1 + e2, e3);
    lemma_stands_join(s, 0, e1 + e2 + e3, last_tx_hash);
    assert(s.subrange(0, s.len() as int) =~= s);
}

/// Appends the wire form of an operation.
pub fn put_operation(out: &mut Vec<u8>, op: &Operation)
    ensures
        final(out)@ == old(out)@ + encode_operation(op@),
{
    let ghost before = out@;
    match op {
        Operation::Insert { table, key, value } => {
            out.push(0u8);
            put_bytes(out, table.as_slice());
            put_bytes(out, key.as_slice());
            put_bytes(out, value.as_slice());
        },
        Operation::Remove { table, key } => {
            out.push(1u8);
            put_bytes(out, table.as_slice());
            put_bytes(out, key.as_slice());
        },
        Operation::DeleteTable { table } => {
            out.push(2u8);
            put_bytes(out, table.as_slice());
        },
    }
    assert(out@ =~= before + encode_operation(op@));
}

/// Reads an operation at `pos`.
pub fn get_operation(input: &[u8], pos: usize) -> (r: Option<(Operation, usize)>)
    ensures
        match r {
            Some((op, next)) => parse_operation(input@, pos as int) == Some((op@, next as int)),
            None => parse_operation(input@, pos as int) is None,
        },
{
    if pos >= input.len() {
        return None;
    }
    let tag = input[pos];
    if tag > 2 {
        return None;
    }
    let (table, pos1) = match get_bytes(input, pos + 1) {
        Some(x) => x,
        None => return None,
    };
    if tag == 2 {
        return Some((Operation::DeleteTable { table }, pos1));
    }
    let (key, pos2) = match get_bytes(input, pos1) {
        Some(x) => x,
        None => return None,
    };
    if tag == 1 {
        return Some((Operation::Remove { table, key }, pos2));
    }
    let (value, pos3) = match get_bytes(input, pos2) {
        Some(x) => x,
        None => return None,
    };
    Some((Operation::Insert { table, key, value }, pos3))
}

impl Operation {
    /// A copy of the operation.
    pub fn duplicate(&self) -> (copy: Operation)
        ensures
            copy@ == self@,
    {
        match self {
            Operation::Insert { table, key, value } => Operation::Insert {
                table: table.clone(),
                key: key.clone(),
                value: value.clone(),
            },
            Operation::Remove { table, key } => Operation::Remove {
                table: table.clone(),
                key: key.clone(),
            },
            Operation::DeleteTable { table } => Operation::DeleteTable { table: table.clone() },
        }
    }
}

/// A copy of a run of operations.
pub fn duplicate_operations(ops: &Vec<Operation>) -> (copy: Vec<Operation>)
    ensures
        operations_view(copy@) == operations_view(ops@),
{
    let mut copy: Vec<Operation> = Vec::new();
    let mut i: usize = 0;
    while i < ops.len()
        invariant
            i <= ops.len(),
            copy@.len() == i,
            forall|j: int| 0 <= j < i ==> copy@[j]@ == ops@[j]@,
        decreases ops.len() - i,
    {
        copy.push(ops[i].duplicate());
        i += 1;
    }
    assert(operations_view(copy@) =~= operations_view(ops@));
    copy
}

impl JournalTransaction {
    /// Every transaction in memory has the lengths of [`TransactionView::wf`].
    pub proof fn lemma_view_wf(&self)
        ensures
            self@.wf(),
    {
        assert(self.operations@.len() == self.operations.len());
        assert(self.last_tx_hash@.len() == 32);
        assert forall|i: int| 0 <= i < self@.operations.len() implies (
        #[trigger] self@.operations[i]).wf() by {
            let op = self.operations@[i];
            match op {
                Operation::Insert { table, key, value } => {
                    assert(table@.len() == table.len());
                    assert(key@.len() == key.len());
                    assert(value@.len() == value.len());
                },
                Operation::Remove { table, key } => {
                    assert(table@.len() == table.len());
                    assert(key@.len() == key.len());
                },
                Operation::DeleteTable { table } => {
                    assert(table@.len() == table.len());
                },
            }
        }
    }

    /// A copy of the transaction.
    pub fn duplicate(&self) -> (copy: JournalTransaction)
        ensures
            copy@ == self@,
    {
        JournalTransaction {
            index: self.index,
            operations: duplicate_operations(&self.operations),
            last_tx_hash: self.last_tx_hash,
        }
    }

    /// The wire form of the transaction.
    pub fn to_bytes(&self) -> (bytes: Vec<u8>)
        ensures
            bytes@ == encode_transaction(self@),
            self@.wf(),
    {
        let mut out: Vec<u8> = Vec::new();
        put_u64(&mut out, self.index);
        put_u64(&mut out, self.operations.len() as u64);
        let ghost header = out@;
        let ghost ops = self@.operations;
        let mut i: usize = 0;
        while i < self.operations.len()
            invariant
                i <= self.operations.len(),
                ops == operations_view(self.operations@),
                out@ == header + encode_operations(ops.take(i as int)),
            decreases self.operations.len() - i,
        {
            let ghost before = out@;
            put_operation(&mut out, &self.operations[i]);
            proof {
                let next = ops.take(i + 1);
                assert(next.drop_last() =~= ops.take(i as int));
                assert(next.last() == self.operations@[i as int]@);
                assert(out@ =~= header + encode_operations(next));
            }
            i += 1;
        }
        assert(ops.take(i as int) =~= ops);
        put_raw(&mut out, array_as_slice(&self.last_tx_hash));
        assert(out@ =~= encode_transaction(self@));
        proof {
            self.lemma_view_wf();
        }
        out
    }

    /// Reads a transaction from its wire form. Bytes that are not the wire
    /// form of any transaction, or that go on behind one, are refused.
    pub fn from_bytes(bytes: &[u8]) -> (r: Option<JournalTransaction>)
        ensures
            match r {
                Some(tx) => decode_transaction(bytes@) == Some(tx@),
                None => decode_transaction(bytes@) is None,
            },
    {
        let (index, pos1) = match get_u64(bytes, 0) {
            Some(x) => x,
            None => return None,
        };
        let (count, pos2) = match get_u64(bytes, pos1) {
            Some(x) => x,
            None => return None,
        };
        let mut operations: Vec<Operation> = Vec::new();
        let mut pos: usize = pos2;
        let mut i: u64 = 0;
        while i < count
            invariant
                i <= count,
                parse_u64(bytes@, 0) == Some((index, pos1 as int)),
                parse_u64(bytes@, pos1 as int) == Some((count, pos2 as int)),
                parse_operations(bytes@, pos2 as int, i as nat) == Some(
                    (operations_view(operations@), pos as int),
                ),
            decreases count - i,
        {
            let ghost front = operations_view(operations@);
            match get_operation(bytes, pos) {
                Some((op, next)) => {
                    operations.push(op);
                    pos = next;
                    assert(operations_view(operations@) =~= front.push(op@));
                },
                None => {
                    proof {
                        assert(parse_operations(bytes@, pos2 as int, (i + 1) as nat) is None);
                        lemma_parse_operations_fails_on(
                            bytes@,
                            pos2 as int,
                            (i + 1) as nat,
                            count as nat,
                        );
                    }
                    return None;
                },
            }
            i += 1;
        }
        let (hash, pos4) = match get_raw(bytes, pos, 32) {
            Some(x) => x,
            None => return None,
        };
        if pos4 != bytes.len() {
            return None;
        }
        Some(JournalTransaction { index, operations, last_tx_hash: to_array32(hash.as_slice()) })
    }

    /// The content hash of the transaction.
    pub fn hash(&self) -> (digest: [u8; 32])
        ensures
            digest@ == transaction_hash(self@),
    {
        let bytes = self.to_bytes();
        blake3_hash(bytes.as_slice())
    }
}

} // verus!
