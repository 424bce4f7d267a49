//! The state of one run: the set of unspent outputs and the running counters,
//! driven by a start hook, a hook per block and a completion hook.
use crate::export::{export_set, is_dump_of, record_views, UtxoRecord};
use crate::replay::{apply_transactions, apply_txs, block_error, check_block, keys_valid, total_inputs, total_outputs, Block, ReplayError};
use crate::utxo_set::{EntryView, UtxoSet};
use vstd::prelude::*;

verus! {

/// How many live outputs the set makes room for at the start.
pub const EXPECTED_LIVE_OUTPUTS: usize = 10000000;

/// The mathematical value of a run's state.
pub struct DumpView {
    pub utxos: Map<Seq<char>, EntryView>,
    pub start_height: usize,
    pub end_height: usize,
    pub tx_count: u64,
    pub in_count: u64,
    pub out_count: u64,
}

/// Builds the set of unspent outputs by replaying blocks, and hands it out as
/// records once the last block is in.
pub struct UnspentMongoDump {
    utxos: UtxoSet,
    start_height: usize,
    end_height: usize,
    tx_count: u64,
    in_count: u64,
    out_count: u64,
}

impl View for UnspentMongoDump {
    type V = DumpView;

    closed spec fn view(&self) -> DumpView {
        DumpView {
            utxos: self.utxos@,
            start_height: self.start_height,
            end_height: self.end_height,
            tx_count: self.tx_count,
            in_count: self.in_count,
            out_count: self.out_count,
        }
    }
}

impl UnspentMongoDump {
    /// The set is well formed and every live key is the key of an outpoint.
    pub closed spec fn wf(&self) -> bool {
        self.utxos.wf() && keys_valid(self.utxos@)
    }

    /// A run with nothing replayed yet, with room for `capacity` live outputs.
    pub fn with_capacity(capacity: usize) -> (d: UnspentMongoDump)
        ensures
            d.wf(),
            d@ == (DumpView {
                utxos: Map::empty(),
                start_height: 0,
                end_height: 0,
                tx_count: 0,
                in_count: 0,
                out_count: 0,
            }),
    {
        UnspentMongoDump {
            utxos: UtxoSet::with_capacity(capacity),
            start_height: 0,
            end_height: 0,
            tx_count: 0,
            in_count: 0,
            out_count: 0,
        }
    }

    /// A run with nothing replayed yet, sized for a full chain.
    pub fn new() -> (d: UnspentMongoDump)
        ensures
            d.wf(),
            d@ == (DumpView {
                utxos: Map::empty(),
                start_height: 0,
                end_height: 0,
                tx_count: 0,
                in_count: 0,
                out_count: 0,
            }),
    {
        Self::with_capacity(EXPECTED_LIVE_OUTPUTS)
    }

    /// Records the height of the first block.
    pub fn on_start(&mut self, block_height: usize)
        requires
            old(self).wf(),
        ensures
            final(self).wf(),
            final(self)@ == (DumpView { start_height: block_height, ..old(self)@ }),
    {
        self.start_height = block_height;
    }

    /// Replays one block at `block_height`. A block whose declared counts are
    /// off, or that would overflow a counter, is refused and changes nothing.
    /// A key collision is fatal: the counters stay, the set is left as far as
    /// the replay got.
    pub fn on_block(&mut self, block: &Block, block_height: usize) -> (r: Result<(), ReplayError>)
        requires
            old(self).wf(),
        ensures
            final(self).wf(),
            final(self)@.start_height == old(self)@.start_height,
            final(self)@.end_height == old(self)@.end_height,
            match block_error(*block, old(self)@.tx_count, old(self)@.in_count, old(self)@.out_count) {
                Some(e) => r == Err::<(), ReplayError>(e) && final(self)@ == old(self)@,
                None => match apply_txs(old(self)@.utxos, block.txs@, block_height) {
                    Some(m) => {
                        &&& r is Ok
                        &&& final(self)@.utxos == m
                        &&& final(self)@.tx_count == old(self)@.tx_count + block.txs@.len()
                        &&& final(self)@.in_count == old(self)@.in_count + total_inputs(block.txs@)
                        &&& final(self)@.out_count == old(self)@.out_count + total_outputs(block.txs@)
                    },
                    None => {
                        &&& r == Err::<(), ReplayError>(ReplayError::KeyCollision)
                        &&& final(self)@.tx_count == old(self)@.tx_count
                        &&& final(self)@.in_count == old(self)@.in_count
                        &&& final(self)@.out_count == old(self)@.out_count
                    },
                },
            },
    {
        let (t, i, o) = match check_block(block, self.tx_count, self.in_count, self.out_count) {
            Ok(counts) => counts,
            Err(e) => return Err(e),
        };
        if !apply_transactions(&mut self.utxos, &block.txs, block_height) {
            return Err(ReplayError::KeyCollision);
        }
        self.tx_count = t;
        self.in_count = i;
        self.out_count = o;
        Ok(())
    }

    /// One record for each live output; the state is left as it is.
    pub fn export(&self) -> (rs: Vec<UtxoRecord>)
        requires
            self.wf(),
        ensures
            is_dump_of(record_views(rs@), self@.utxos),
    {
        export_set(&self.utxos)
    }

    /// Records the height of the last block and exports the set.
    pub fn on_complete(&mut self, block_height: usize) -> (rs: Vec<UtxoRecord>)
        requires
            old(self).wf(),
        ensures
            final(self).wf(),
            final(self)@ == (DumpView { end_height: block_height, ..old(self)@ }),
            is_dump_of(record_views(rs@), old(self)@.utxos),
    {
        self.end_height = block_height;
        self.export()
    }

    /// The set of unspent outputs.
    pub fn utxos(&self) -> (s: &UtxoSet)
        ensures
            s@ == self@.utxos,
    {
        &self.utxos
    }

    /// The height given to the start hook.
    pub fn start_height(&self) -> (h: usize)
        ensures
            h == self@.start_height,
    {
        self.start_height
    }

    /// The height given to the completion hook.
    pub fn end_height(&self) -> (h: usize)
        ensures
            h == self@.end_height,
    {
        self.end_height
    }

    /// Transactions replayed so far.
    pub fn tx_count(&self) -> (n: u64)
        ensures
            n == self@.tx_count,
    {
        self.tx_count
    }

    /// Inputs replayed so far.
    pub fn in_count(&self) -> (n: u64)
        ensures
            n == self@.in_count,
    {
        self.in_count
    }

    /// Outputs replayed so far.
    pub fn out_count(&self) -> (n: u64)
        ensures
            n == self@.out_count,
    {
        self.out_count
    }
}

} // verus!
