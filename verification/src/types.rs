//! Plain-value models of the entities that flow through synchronisation.

use vstd::prelude::*;

verus! {

/// A 256-bit hash, held as two big-endian halves.
#[derive(Clone, Copy, Debug, PartialEq, Eq, Hash, Structural)]
pub struct Hash256 {
    pub hi: u128,
    pub lo: u128,
}

/// Identifier of a transaction.
pub type Txid = Hash256;

/// Identifier of a block.
pub type BlockHash = Hash256;

impl Hash256 {
    /// The hash whose bytes are all zero, used where a block has no parent.
    pub fn all_zeros() -> (h: Hash256)
        ensures
            h == (Hash256 { hi: 0, lo: 0 }),
    {
        Hash256 { hi: 0, lo: 0 }
    }

    /// The two halves as a pair.
    pub open spec fn pair(self) -> (u128, u128) {
        (self.hi, self.lo)
    }

    /// The hash with the given halves.
    pub fn from_pair(p: (u128, u128)) -> (h: Hash256)
        ensures
            h.pair() == p,
    {
        Hash256 { hi: p.0, lo: p.1 }
    }
}

/// Reference to one output of an earlier transaction.
#[derive(Clone, Copy, Debug, PartialEq, Eq, Hash, Structural)]
pub struct OutPoint {
    pub txid: Txid,
    pub vout: u32,
}

/// What synchronisation reads of a transaction: its id, the outputs it
/// spends and the values (in satoshis) of the outputs it creates.
#[derive(Debug)]
pub struct Transaction {
    pub txid: Txid,
    pub inputs: Vec<OutPoint>,
    pub outputs: Vec<u64>,
}

/// Mathematical value of a [`Transaction`].
pub struct TransactionView {
    pub txid: Txid,
    pub inputs: Seq<OutPoint>,
    pub outputs: Seq<u64>,
}

impl View for Transaction {
    type V = TransactionView;

    open spec fn view(&self) -> TransactionView {
        TransactionView { txid: self.txid, inputs: self.inputs@, outputs: self.outputs@ }
    }
}

impl Transaction {
    /// An independent copy with the same id, inputs and outputs.
    pub fn duplicate(&self) -> (copy: Transaction)
        ensures
            copy@ == self@,
    {
        let mut inputs: Vec<OutPoint> = Vec::new();
        let mut i: usize = 0;
        while i < self.inputs.len()
            invariant
                i <= self.inputs.len(),
                inputs@ == self.inputs@.take(i as int),
            decreases self.inputs.len() - i,
        {
            inputs.push(self.inputs[i]);
            assert(self.inputs@.take(i + 1) =~= self.inputs@.take(i as int).push(self.inputs@[i as int]));
            i = i + 1;
        }
        assert(self.inputs@.take(i as int) =~= self.inputs@);
        let mut outputs: Vec<u64> = Vec::new();
        let mut j: usize = 0;
        while j < self.outputs.len()
            invariant
                j <= self.outputs.len(),
                outputs@ == self.outputs@.take(j as int),
            decreases self.outputs.len() - j,
        {
            outputs.push(self.outputs[j]);
            assert(self.outputs@.take(j + 1) =~= self.outputs@.take(j as int).push(self.outputs@[j as int]));
            j = j + 1;
        }
        assert(self.outputs@.take(j as int) =~= self.outputs@);
        Transaction { txid: self.txid, inputs, outputs }
    }
}

/// What synchronisation reads of a block: its hash, its parent and the ids
/// of the transactions it confirms.
#[derive(Debug)]
pub struct Block {
    pub hash: BlockHash,
    pub previousblockhash: Option<BlockHash>,
    pub tx: Vec<Txid>,
}

/// One event of the node's ordered notification feed.
#[derive(Clone, Copy, Debug, PartialEq, Eq, Structural)]
pub enum SequenceMessage {
    BlockHashConnected(BlockHash, u32),
    BlockHashDisconnected(BlockHash, u32),
    TxHashAdded { txid: Txid, mempool_seq: u64, zmq_seq: u32 },
    TxHashRemoved { txid: Txid, mempool_seq: u64, zmq_seq: u32 },
}

/// One pending fetch. The flag of `Tx` says whether the transaction is
/// wanted in the mempool, or only to value another transaction's inputs.
#[derive(Clone, Copy, Debug, PartialEq, Eq, Hash, Structural)]
pub enum RequestItem {
    Block(BlockHash),
    Tx(Txid, bool),
}

/// One fetched block or transaction.
#[derive(Debug)]
pub enum ResponseItem {
    Block(Block),
    Tx(Transaction, bool),
}

/// A fetched item, or a batch of fetched transactions.
#[derive(Debug)]
pub enum BatchedResponseItem {
    BatchTx(Vec<(Transaction, bool)>),
    Single(ResponseItem),
}


} // verus!
