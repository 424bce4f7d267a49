//! Blocks and transactions, and the rule that replays them into the set of
//! unspent outputs: each transaction first spends its inputs, then creates its
//! outputs.
use crate::codec::{encode_key, is_outpoint_key, outpoint_key};
use crate::utxo_set::{EntryView, UtxoEntry, UtxoSet};
use vstd::prelude::*;

verus! {

/// A reference to output `index` of transaction `txid`.
pub struct OutPoint {
    pub txid: [u8; 32],
    pub index: u32,
}

/// An output created by a transaction.
pub struct TxOutput {
    pub value: u64,
    pub address: String,
}

/// A transaction, with the input and output counts that its encoding declares.
pub struct Transaction {
    pub txid: [u8; 32],
    pub inputs: Vec<OutPoint>,
    pub outputs: Vec<TxOutput>,
    pub in_count: u64,
    pub out_count: u64,
}

/// A block, with the transaction count that its encoding declares.
pub struct Block {
    pub txs: Vec<Transaction>,
    pub tx_count: u64,
}

/// Why a block was not applied.
#[derive(PartialEq, Eq, Structural, Debug, Clone, Copy)]
pub enum ReplayError {
    /// A transaction declares another number of inputs than it holds.
    InputCountMismatch,
    /// A transaction declares another number of outputs than it holds.
    OutputCountMismatch,
    /// The block declares another number of transactions than it holds.
    TxCountMismatch,
    /// A running counter would pass `u64::MAX`.
    CounterOverflow,
    /// An output's key is live already: two transactions share an id.
    KeyCollision,
}

/// The key of the output that an input spends.
pub open spec fn input_key(o: OutPoint) -> Seq<char> {
    outpoint_key(o.txid@, o.index as nat)
}

/// The entry that an output becomes at a given height.
pub open spec fn output_entry(o: TxOutput, height: usize) -> EntryView {
    EntryView { height, value: o.value, address: o.address@ }
}

/// The set after the inputs, in order, have spent what they reference;
/// a reference to nothing live changes nothing.
pub open spec fn spend_all(m: Map<Seq<char>, EntryView>, ins: Seq<OutPoint>) -> Map<Seq<char>, EntryView>
    decreases ins.len(),
{
    if ins.len() == 0 {
        m
    } else {
        spend_all(m, ins.drop_last()).remove(input_key(ins.last()))
    }
}

/// The set after the outputs of transaction `txid`, in order, have been added
/// under their positions; `None` where one of their keys is live already.
pub open spec fn create_all(
    m: Map<Seq<char>, EntryView>,
    txid: Seq<u8>,
    outs: Seq<TxOutput>,
    height: usize,
) -> Option<Map<Seq<char>, EntryView>>
    decreases outs.len(),
{
    if outs.len() == 0 {
        Some(m)
    } else {
        match create_all(m, txid, outs.drop_last(), height) {
            Some(m2) => {
                let k = outpoint_key(txid, (outs.len() - 1) as nat);
                if m2.contains_key(k) {
                    None
                } else {
                    Some(m2.insert(k, output_entry(outs.last(), height)))
                }
            },
            None => None,
        }
    }
}

/// One transaction: spends, then creations.
pub open spec fn apply_tx(m: Map<Seq<char>, EntryView>, tx: Transaction, height: usize) -> Option<
    Map<Seq<char>, EntryView>,
> {
    create_all(spend_all(m, tx.inputs@), tx.txid@, tx.outputs@, height)
}

/// The transactions, in order; `None` where a key collides.
pub open spec fn apply_txs(m: Map<Seq<char>, EntryView>, txs: Seq<Transaction>, height: usize) -> Option<
    Map<Seq<char>, EntryView>,
>
    decreases txs.len(),
{
    if txs.len() == 0 {
        Some(m)
    } else {
        match apply_txs(m, txs.drop_last(), height) {
            Some(m2) => apply_tx(m2, txs.last(), height),
            None => None,
        }
    }
}

/// The first mismatch between a transaction's declared counts and what it holds.
pub open spec fn count_mismatch(txs: Seq<Transaction>) -> Option<ReplayError>
    decreases txs.len(),
{
    if txs.len() == 0 {
        None
    } else {
        match count_mismatch(txs.drop_last()) {
            Some(e) => Some(e),
            None => {
                let tx = txs.last();
                if tx.in_count != tx.inputs@.len() {
                    Some(ReplayError::InputCountMismatch)
                } else if tx.out_count != tx.outputs@.len() {
                    Some(ReplayError::OutputCountMismatch)
                } else {
                    None
                }
            },
        }
    }
}

/// The number of inputs of the transactions.
pub open spec fn total_inputs(txs: Seq<Transaction>) -> nat
    decreases txs.len(),
{
    if txs.len() == 0 {
        0
    } else {
        total_inputs(txs.drop_last()) + txs.last().inputs@.len()
    }
}

/// The number of outputs of the transactions.
pub open spec fn total_outputs(txs: Seq<Transaction>) -> nat
    decreases txs.len(),
{
    if txs.len() == 0 {
        0
    } else {
        total_outputs(txs.drop_last()) + txs.last().outputs@.len()
    }
}

/// Why `block` is refused before anything is applied, given the counters so far.
pub open spec fn block_error(block: Block, tx_count: u64, in_count: u64, out_count: u64) -> Option<ReplayError> {
    match count_mismatch(block.txs@) {
        Some(e) => Some(e),
        None => if block.tx_count != block.txs@.len() {
            Some(ReplayError::TxCountMismatch)
        } else if tx_count + block.txs@.len() > u64::MAX || in_count + total_inputs(block.txs@)
            > u64::MAX || out_count + total_outputs(block.txs@) > u64::MAX {
            Some(ReplayError::CounterOverflow)
        } else {
            None
        },
    }
}

/// Spending outputs that are not live leaves the set as it was.
pub proof fn lemma_spend_absent(m: Map<Seq<char>, EntryView>, ins: Seq<OutPoint>)
    requires
        forall|i: int| 0 <= i < ins.len() ==> !m.contains_key(#[trigger] input_key(ins[i])),
    ensures
        spend_all(m, ins) == m,
    decreases ins.len(),
{
    if ins.len() > 0 {
        lemma_spend_absent(m, ins.drop_last());
        assert(!m.contains_key(input_key(ins[ins.len() - 1])));
        assert(m.remove(input_key(ins.last())) =~= m);
    }
}

/// Input and output totals add up over consecutive runs of transactions, so
/// that counting block by block gives the totals of all transactions however
/// they were cut into blocks.
pub proof fn lemma_totals_concat(a: Seq<Transaction>, b: Seq<Transaction>)
    ensures
        total_inputs(a + b) == total_inputs(a) + total_inputs(b),
        total_outputs(a + b) == total_outputs(a) + total_outputs(b),
    decreases b.len(),
{
    if b.len() == 0 {
        assert(a + b =~= a);
    } else {
        lemma_totals_concat(a, b.drop_last());
        assert((a + b).drop_last() =~= a + b.drop_last());
    }
}

/// All transactions of the blocks, block after block.
pub open spec fn all_txs(blocks: Seq<Block>) -> Seq<Transaction>
    decreases blocks.len(),
{
    if blocks.len() == 0 {
        seq![]
    } else {
        all_txs(blocks.drop_last()) + blocks.last().txs@
    }
}

/// The transaction, input and output counts gathered block by block.
pub open spec fn counted(blocks: Seq<Block>) -> (nat, nat, nat)
    decreases blocks.len(),
{
    if blocks.len() == 0 {
        (0, 0, 0)
    } else {
        let (t, i, o) = counted(blocks.drop_last());
        let txs = blocks.last().txs@;
        (t + txs.len(), i + total_inputs(txs), o + total_outputs(txs))
    }
}

/// Counting block by block gives the number of transactions, inputs and
/// outputs of all the blocks together, however many blocks there are.
pub proof fn lemma_counted_blocks(blocks: Seq<Block>)
    ensures
        counted(blocks) == (
            all_txs(blocks).len(),
            total_inputs(all_txs(blocks)),
            total_outputs(all_txs(blocks)),
        ),
    decreases blocks.len(),
{
    if blocks.len() > 0 {
        lemma_counted_blocks(blocks.drop_last());
        lemma_totals_concat(all_txs(blocks.drop_last()), blocks.last().txs@);
    }
}

proof fn lemma_create_prefix_none(
    m: Map<Seq<char>, EntryView>,
    txid: Seq<u8>,
    outs: Seq<TxOutput>,
    height: usize,
    j: int,
)
    requires
        0 <= j <= outs.len(),
        create_all(m, txid, outs.take(j), height) is None,
    ensures
        create_all(m, txid, outs, height) is None,
    decreases outs.len(),
{
    if j == outs.len() {
        assert(outs.take(j) =~= outs);
    } else {
        assert(outs.drop_last().take(j) =~= outs.take(j));
        lemma_create_prefix_none(m, txid, outs.drop_last(), height, j);
    }
}

proof fn lemma_apply_prefix_none(m: Map<Seq<char>, EntryView>, txs: Seq<Transaction>, height: usize, j: int)
    requires
        0 <= j <= txs.len(),
        apply_txs(m, txs.take(j), height) is None,
    ensures
        apply_txs(m, txs, height) is None,
    decreases txs.len(),
{
    if j == txs.len() {
        assert(txs.take(j) =~= txs);
    } else {
        assert(txs.drop_last().take(j) =~= txs.take(j));
        lemma_apply_prefix_none(m, txs.drop_last(), height, j);
    }
}

proof fn lemma_mismatch_prefix(txs: Seq<Transaction>, j: int)
    requires
        0 <= j <= txs.len(),
        count_mismatch(txs.take(j)) is Some,
    ensures
        count_mismatch(txs) == count_mismatch(txs.take(j)),
    decreases txs.len(),
{
    if j == txs.len() {
        assert(txs.take(j) =~= txs);
    } else {
        assert(txs.drop_last().take(j) =~= txs.take(j));
        lemma_mismatch_prefix(txs.drop_last(), j);
    }
}

proof fn lemma_totals_prefix(txs: Seq<Transaction>, j: int)
    requires
        0 <= j <= txs.len(),
    ensures
        total_inputs(txs.take(j)) <= total_inputs(txs),
        total_outputs(txs.take(j)) <= total_outputs(txs),
{
    lemma_totals_concat(txs.take(j), txs.skip(j));
    assert(txs.take(j) + txs.skip(j) =~= txs);
}

/// Whether every live key is the key of an outpoint.
pub open spec fn keys_valid(m: Map<Seq<char>, EntryView>) -> bool {
    forall|k: Seq<char>| #[trigger] m.contains_key(k) ==> is_outpoint_key(k)
}

/// Checks a block before it is applied: its declared counts, then the room
/// left in the counters. Gives the counters as they will stand afterwards.
pub fn check_block(block: &Block, tx_count: u64, in_count: u64, out_count: u64) -> (r: Result<
    (u64, u64, u64),
    ReplayError,
>)
    ensures
        match r {
            Ok((t, i, o)) => {
                &&& block_error(*block, tx_count, in_count, out_count) is None
                &&& t == tx_count + block.txs@.len()
                &&& i == in_count + total_inputs(block.txs@)
                &&& o == out_count + total_outputs(block.txs@)
            },
            Err(e) => block_error(*block, tx_count, in_count, out_count) == Some(e),
        },
{
    let txs = &block.txs;
    let mut j: usize = 0;
    assert(txs@.take(0) =~= Seq::<Transaction>::empty());
    while j < txs.len()
        invariant
            j <= txs@.len(),
            block.txs@ == txs@,
            count_mismatch(txs@.take(j as int)) is None,
        decreases txs@.len() - j,
    {
        let tx = &txs[j];
        assert(txs@.take(j + 1).drop_last() =~= txs@.take(j as int));
        assert(txs@.take(j + 1).last() == txs@[j as int]);
        if tx.in_count != tx.inputs.len() as u64 {
            proof {
                lemma_mismatch_prefix(txs@, j + 1);
            }
            return Err(ReplayError::InputCountMismatch);
        }
        if tx.out_count != tx.outputs.len() as u64 {
            proof {
                lemma_mismatch_prefix(txs@, j + 1);
            }
            return Err(ReplayError::OutputCountMismatch);
        }
        j = j + 1;
    }
    assert(txs@.take(j as int) =~= txs@);
    if block.tx_count != txs.len() as u64 {
        return Err(ReplayError::TxCountMismatch);
    }
    let t = match tx_count.checked_add(txs.len() as u64) {
        Some(v) => v,
        None => return Err(ReplayError::CounterOverflow),
    };
    let mut ins: u64 = in_count;
    let mut outs: u64 = out_count;
    let mut j: usize = 0;
    assert(txs@.take(0) =~= Seq::<Transaction>::empty());
    while j < txs.len()
        invariant
            j <= txs@.len(),
            block.txs == txs,
            count_mismatch(txs@) is None,
            block.tx_count == txs@.len(),
            tx_count + txs@.len() <= u64::MAX,
            ins == in_count + total_inputs(txs@.take(j as int)),
            outs == out_count + total_outputs(txs@.take(j as int)),
        decreases txs@.len() - j,
    {
        let tx = &txs[j];
        assert(txs@.take(j + 1).drop_last() =~= txs@.take(j as int));
        proof {
            lemma_totals_prefix(txs@, j + 1);
        }
        ins = match ins.checked_add(tx.inputs.len() as u64) {
            Some(v) => v,
            None => return Err(ReplayError::CounterOverflow),
        };
        outs = match outs.checked_add(tx.outputs.len() as u64) {
            Some(v) => v,
            None => return Err(ReplayError::CounterOverflow),
        };
        j = j + 1;
    }
    assert(txs@.take(j as int) =~= txs@);
    Ok((t, ins, outs))
}

/// Spends the inputs of `tx`, then adds its outputs at `height`. Returns
/// `false`, with the set in some state that is still well formed, where an
/// output's key is live already.
pub fn apply_transaction(set: &mut UtxoSet, tx: &Transaction, height: usize) -> (ok: bool)
    requires
        old(set).wf(),
        keys_valid(old(set)@),
    ensures
        final(set).wf(),
        keys_valid(final(set)@),
        ok == apply_tx(old(set)@, *tx, height) is Some,
        ok ==> apply_tx(old(set)@, *tx, height) == Some(final(set)@),
{
    let ghost start = set@;
    let mut i: usize = 0;
    assert(tx.inputs@.take(0) =~= Seq::<OutPoint>::empty());
    while i < tx.inputs.len()
        invariant
            i <= tx.inputs@.len(),
            start == old(set)@,
            set.wf(),
            keys_valid(set@),
            set@ == spend_all(start, tx.inputs@.take(i as int)),
        decreases tx.inputs@.len() - i,
    {
        let o = &tx.inputs[i];
        let k = encode_key(&o.txid, o.index as u64);
        let _ = set.remove(k.as_str());
        assert(tx.inputs@.take(i + 1).drop_last() =~= tx.inputs@.take(i as int));
        i = i + 1;
    }
    assert(tx.inputs@.take(i as int) =~= tx.inputs@);
    let ghost spent = set@;
    let mut j: usize = 0;
    assert(tx.outputs@.take(0) =~= Seq::<TxOutput>::empty());
    while j < tx.outputs.len()
        invariant
            j <= tx.outputs@.len(),
            start == old(set)@,
            set.wf(),
            keys_valid(set@),
            spent == spend_all(start, tx.inputs@),
            create_all(spent, tx.txid@, tx.outputs@.take(j as int), height) == Some(set@),
        decreases tx.outputs@.len() - j,
    {
        let out = &tx.outputs[j];
        let k = encode_key(&tx.txid, j as u64);
        assert(tx.outputs@.take(j + 1).drop_last() =~= tx.outputs@.take(j as int));
        assert(tx.outputs@.take(j + 1).last() == tx.outputs@[j as int]);
        if set.contains(k.as_str()) {
            proof {
                assert(create_all(spent, tx.txid@, tx.outputs@.take(j + 1), height) is None);
                lemma_create_prefix_none(spent, tx.txid@, tx.outputs@, height, j + 1);
            }
            return false;
        }
        let ghost kv = k@;
        proof {
            assert(tx.txid@.len() == 32);
            assert(outpoint_key(tx.txid@, (j as u64) as nat) == kv);
        }
        set.insert_new(k, UtxoEntry { height, value: out.value, address: out.address.clone() });
        j = j + 1;
    }
    assert(tx.outputs@.take(j as int) =~= tx.outputs@);
    true
}

/// Applies the transactions in order. Returns `false`, with the set in some
/// state that is still well formed, where an output's key is live already.
pub fn apply_transactions(set: &mut UtxoSet, txs: &Vec<Transaction>, height: usize) -> (ok: bool)
    requires
        old(set).wf(),
        keys_valid(old(set)@),
    ensures
        final(set).wf(),
        keys_valid(final(set)@),
        ok == apply_txs(old(set)@, txs@, height) is Some,
        ok ==> apply_txs(old(set)@, txs@, height) == Some(final(set)@),
{
    let ghost start = set@;
    let mut t: usize = 0;
    assert(txs@.take(0) =~= Seq::<Transaction>::empty());
    while t < txs.len()
        invariant
            t <= txs@.len(),
            start == old(set)@,
            set.wf(),
            keys_valid(set@),
            apply_txs(start, txs@.take(t as int), height) == Some(set@),
        decreases txs@.len() - t,
    {
        assert(txs@.take(t + 1).drop_last() =~= txs@.take(t as int));
        assert(txs@.take(t + 1).last() == txs@[t as int]);
        if !apply_transaction(set, &txs[t], height) {
            proof {
                lemma_apply_prefix_none(start, txs@, height, t + 1);
            }
            return false;
        }
        t = t + 1;
    }
    assert(txs@.take(t as int) =~= txs@);
    true
}

} // verus!
