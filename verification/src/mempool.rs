//! The replica: the chain tip, the blocks seen, and the unconfirmed
//! transactions with their fees.

use vstd::prelude::*;
use crate::table::HashTable;
use crate::types::{Block, BlockHash, Hash256, Transaction, Txid};

verus! {

/// A transaction of the mempool with what it pays: the value of its inputs
/// less the value of its outputs.
#[derive(Debug)]
pub struct MempoolEntry {
    pub tx: Transaction,
    pub fee_delta: u64,
}

/// The best block known and every block fetched so far.
#[derive(Debug)]
pub struct Chain {
    pub tip: BlockHash,
    pub blocks: HashTable<Block>,
}

#[derive(Debug)]
pub struct Mempool {
    pub chain: Chain,
    pub txs: HashTable<MempoolEntry>,
}

/// `after` is `before` with the transaction `tx` bound to its id at fee
/// `fee_delta`, and every other entry as it was.
pub open spec fn admitted(
    before: Map<Hash256, MempoolEntry>,
    after: Map<Hash256, MempoolEntry>,
    tx: Transaction,
    fee_delta: u64,
) -> bool {
    &&& after.dom() == before.dom().insert(tx.txid)
    &&& after[tx.txid].tx@ == tx@
    &&& after[tx.txid].fee_delta == fee_delta
    &&& forall|k: Hash256| k != tx.txid && before.contains_key(k) ==> #[trigger] after[k] == before[k]
}

impl Mempool {
    pub open spec fn wf(&self) -> bool {
        self.chain.blocks.wf() && self.txs.wf()
    }

    /// An empty mempool on top of `tip`.
    pub fn new(tip: BlockHash) -> (m: Self)
        ensures
            m.wf(),
            m.chain.tip == tip,
            m.chain.blocks@ == Map::<Hash256, Block>::empty(),
            m.txs@ == Map::<Hash256, MempoolEntry>::empty(),
    {
        Mempool { chain: Chain { tip, blocks: HashTable::new() }, txs: HashTable::new() }
    }

    /// Admits `tx` at the given fee, in place of an entry with the same id.
    pub fn insert(&mut self, tx: Transaction, fee_delta: u64)
        requires
            old(self).wf(),
        ensures
            final(self).wf(),
            final(self).chain == old(self).chain,
            final(self).txs@ == old(self).txs@.insert(tx.txid, MempoolEntry { tx, fee_delta }),
            admitted(old(self).txs@, final(self).txs@, tx, fee_delta),
    {
        let txid = tx.txid;
        self.txs.insert(txid, MempoolEntry { tx, fee_delta });
        assert(final(self).txs@.dom() =~= old(self).txs@.dom().insert(txid));
    }

    /// Drops the transaction `txid` and hands its entry out, if it is there.
    pub fn remove(&mut self, txid: Txid) -> (removed: Option<MempoolEntry>)
        requires
            old(self).wf(),
        ensures
            final(self).wf(),
            final(self).chain == old(self).chain,
            final(self).txs@ == old(self).txs@.remove(txid),
            old(self).txs@.contains_key(txid) ==> removed == Some(old(self).txs@[txid]),
            !old(self).txs@.contains_key(txid) ==> removed is None,
    {
        self.txs.remove(txid)
    }

    /// The fee recorded for `txid`, if it is in the mempool.
    pub fn fee_delta(&self, txid: Txid) -> (fee: Option<u64>)
        requires
            self.wf(),
        ensures
            fee == (if self.txs@.contains_key(txid) { Some(self.txs@[txid].fee_delta) } else { None }),
    {
        match self.txs.get(txid) {
            Some(entry) => Some(entry.fee_delta),
            None => None,
        }
    }
}

} // verus!
