//! The actor's own state, the acceptance policy and the ways the actor ends.

use vstd::prelude::*;
use std::collections::VecDeque;
use crate::request_queue::RequestQueue;
use crate::table::HashTable;
use crate::types::{Hash256, SequenceMessage, Transaction, Txid};

verus! {

/// The acceptance policy: decides whether a transaction whose fee is known
/// may enter the mempool.
pub trait CusfEnforcer {
    type AcceptTxError;

    /// `Ok(true)` to accept `tx`, `Ok(false)` to reject it.
    fn accept_tx(&mut self, tx: &Transaction) -> Result<bool, Self::AcceptTxError>;
}

/// The mempool container refused to take a transaction.
#[derive(Clone, Copy, Debug, PartialEq, Eq, Structural)]
pub struct MempoolInsertError {
    pub txid: Txid,
}

/// The mempool container failed to drop a transaction.
#[derive(Clone, Copy, Debug, PartialEq, Eq, Structural)]
pub struct MempoolRemoveError {
    pub txid: Txid,
}

/// A fetch failed.
#[derive(Debug)]
pub struct RequestError {
    pub message: String,
}

/// The notification feed failed.
#[derive(Debug)]
pub struct SequenceStreamError {
    pub message: String,
}

/// Why the actor ended. Every variant is fatal to it.
pub enum SyncTaskError<Enforcer: CusfEnforcer> {
    /// No further notification or response can arrive.
    CombinedStreamEnded,
    /// The acceptance policy failed.
    CusfEnforcer(Enforcer::AcceptTxError),
    /// No fee can be told for a transaction whose inputs are all known.
    FeeOverflow,
    MempoolInsert(MempoolInsertError),
    MempoolRemove(MempoolRemoveError),
    Request(RequestError),
    SequenceStream(SequenceStreamError),
}

/// What the actor keeps besides the mempool.
#[derive(Debug)]
pub struct SyncState {
    /// Fetches to make, the next one first.
    pub request_queue: RequestQueue,
    /// Notifications received and not yet applied, oldest first.
    pub seq_message_queue: VecDeque<SequenceMessage>,
    /// Every transaction fetched so far, by id.
    pub tx_cache: HashTable<Transaction>,
}

impl Default for SyncState {
    fn default() -> (s: Self)
        ensures
            s.wf(),
            s.request_queue@.len() == 0,
            s.seq_message_queue@.len() == 0,
            s.tx_cache@ == Map::<Hash256, Transaction>::empty(),
    {
        SyncState::new()
    }
}

/// Every transaction of `cache` is filed under its own id.
pub open spec fn filed_by_id(cache: Map<Hash256, Transaction>) -> bool {
    forall|k: Hash256| cache.contains_key(k) ==> (#[trigger] cache[k]).txid == k
}

impl SyncState {
    pub open spec fn wf(&self) -> bool {
        &&& self.request_queue.wf()
        &&& self.tx_cache.wf()
        &&& filed_by_id(self.tx_cache@)
    }

    /// Nothing to fetch, nothing to apply, nothing cached.
    pub fn new() -> (s: Self)
        ensures
            s.wf(),
            s.request_queue@.len() == 0,
            s.seq_message_queue@.len() == 0,
            s.tx_cache@ == Map::<Hash256, Transaction>::empty(),
    {
        SyncState { request_queue: RequestQueue::new(), seq_message_queue: VecDeque::new(), tx_cache: HashTable::new() }
    }
}

} // verus!
