//! The handlers that fold notifications and fetched data into the mempool.

use vstd::prelude::*;
use crate::fee::{fee_outlook, resolve_fee, FeeOutlook, FeeResolution};
use crate::mempool::{admitted, Mempool, MempoolEntry};
use crate::request_queue::{pushed_back, pushed_front, without, RequestQueue};
use crate::state::{CusfEnforcer, SyncState, SyncTaskError};
use crate::types::{Block, BlockHash, Hash256, RequestItem, SequenceMessage, Transaction, Txid};

verus! {

/// The request queue after a notification was received, given the blocks
/// fetched so far: a connected block is requested, a disconnected one
/// unless it is at hand, an added transaction is requested for the mempool,
/// and the request for a removed one is withdrawn.
pub open spec fn queue_after_message(
    q: Seq<RequestItem>,
    msg: SequenceMessage,
    blocks: Map<Hash256, Block>,
) -> Seq<RequestItem> {
    match msg {
        SequenceMessage::BlockHashConnected(hash, _) => pushed_back(q, RequestItem::Block(hash)),
        SequenceMessage::BlockHashDisconnected(hash, _) => if blocks.contains_key(hash) {
            q
        } else {
            pushed_back(q, RequestItem::Block(hash))
        },
        SequenceMessage::TxHashAdded { txid, .. } => pushed_back(q, RequestItem::Tx(txid, true)),
        SequenceMessage::TxHashRemoved { txid, .. } => without(q, RequestItem::Tx(txid, true)),
    }
}

/// Receives a notification: adjusts the pending fetches and queues the
/// notification for later application. The mempool is only read.
pub fn handle_seq_message(mempool: &Mempool, sync_state: &mut SyncState, seq_msg: SequenceMessage)
    requires
        mempool.wf(),
        old(sync_state).wf(),
    ensures
        final(sync_state).wf(),
        final(sync_state).tx_cache@ == old(sync_state).tx_cache@,
        final(sync_state).seq_message_queue@ == old(sync_state).seq_message_queue@.push(seq_msg),
        final(sync_state).request_queue@ == queue_after_message(
            old(sync_state).request_queue@,
            seq_msg,
            mempool.chain.blocks@,
        ),
{
    match seq_msg {
        SequenceMessage::BlockHashConnected(block_hash, _) => {
            sync_state.request_queue.push_back(RequestItem::Block(block_hash));
        },
        SequenceMessage::BlockHashDisconnected(block_hash, _) => {
            if !mempool.chain.blocks.contains_key(block_hash) {
                sync_state.request_queue.push_back(RequestItem::Block(block_hash));
            }
        },
        SequenceMessage::TxHashAdded { txid, mempool_seq: _, zmq_seq: _ } => {
            sync_state.request_queue.push_back(RequestItem::Tx(txid, true));
        },
        SequenceMessage::TxHashRemoved { txid, mempool_seq: _, zmq_seq: _ } => {
            let _was: bool = sync_state.request_queue.remove(RequestItem::Tx(txid, true));
        },
    }
    sync_state.seq_message_queue.push_back(seq_msg);
}

/// The request queue after each of `ids` was asked for with priority, the
/// last of them first: `ids[0]` ends up at the very front.
pub open spec fn fronted(q: Seq<RequestItem>, ids: Seq<Txid>) -> Seq<RequestItem>
    decreases ids.len(),
{
    if ids.len() == 0 {
        q
    } else {
        pushed_front(fronted(q, ids.drop_first()), RequestItem::Tx(ids[0], false))
    }
}

/// Puts a priority request for each of `ids` at the front, in reverse
/// order.
pub fn push_front_all(queue: &mut RequestQueue, ids: &Vec<Txid>)
    requires
        old(queue).wf(),
    ensures
        final(queue).wf(),
        final(queue)@ == fronted(old(queue)@, ids@),
{
    let mut k: usize = ids.len();
    assert(ids@.skip(k as int) =~= Seq::<Txid>::empty());
    while k > 0
        invariant
            k <= ids@.len(),
            queue.wf(),
            queue@ == fronted(old(queue)@, ids@.skip(k as int)),
        decreases k,
    {
        k = k - 1;
        proof {
            assert(ids@.skip(k as int).drop_first() =~= ids@.skip(k + 1));
            assert(ids@.skip(k as int)[0] == ids@[k as int]);
        }
        queue.push_front(RequestItem::Tx(ids[k], false));
    }
    assert(ids@.skip(0) =~= ids@);
}

/// Carries out the policy's decision on a transaction whose fee is known:
/// an accepted one enters the mempool; a rejected one does not; either way
/// the transaction is dealt with. A failure of the policy is handed on.
pub fn settle_admission<Enforcer: CusfEnforcer>(
    mempool: &mut Mempool,
    tx: Transaction,
    fee_delta: u64,
    decision: Result<bool, Enforcer::AcceptTxError>,
) -> (r: Result<bool, SyncTaskError<Enforcer>>)
    requires
        old(mempool).wf(),
    ensures
        final(mempool).wf(),
        final(mempool).chain == old(mempool).chain,
        match decision {
            Ok(true) => r == Ok::<bool, SyncTaskError<Enforcer>>(true) && final(mempool).txs@ == old(mempool).txs@.insert(tx.txid, MempoolEntry { tx, fee_delta }) && admitted(
                old(mempool).txs@,
                final(mempool).txs@,
                tx,
                fee_delta,
            ),
            Ok(false) => r == Ok::<bool, SyncTaskError<Enforcer>>(true) && final(mempool).txs@ == old(mempool).txs@,
            Err(e) => r == Err::<bool, SyncTaskError<Enforcer>>(SyncTaskError::CusfEnforcer(e)) && final(mempool).txs@ == old(mempool).txs@,
        },
{
    match decision {
        Ok(true) => {
            mempool.insert(tx, fee_delta);
            Ok(true)
        },
        Ok(false) => Ok(true),
        Err(e) => Err(SyncTaskError::CusfEnforcer(e)),
    }
}

/// What an attempt to add the transaction `txid` may lead to, once the
/// policy has been asked: the transaction is dealt with and the mempool is
/// as before or holds it at fee `fee_delta`; or the policy failed and
/// nothing changed.
pub open spec fn decided<Enforcer: CusfEnforcer>(
    before: Map<Hash256, MempoolEntry>,
    after: Map<Hash256, MempoolEntry>,
    tx: Transaction,
    fee_delta: u64,
    r: Result<bool, SyncTaskError<Enforcer>>,
) -> bool {
    ||| r == Ok::<bool, SyncTaskError<Enforcer>>(true) && (after == before || admitted(before, after, tx, fee_delta))
    ||| r is Err && r->Err_0 is CusfEnforcer && after == before
}

/// Tries to add the transaction `txid` to the mempool from the cache.
/// Returns `true` if the transaction was dealt with, `false` if it has to
/// wait: for its own data, or for the transactions it spends from, which
/// are then requested with priority.
pub fn try_add_tx_from_cache<Enforcer: CusfEnforcer>(
    enforcer: &mut Enforcer,
    mempool: &mut Mempool,
    sync_state: &mut SyncState,
    txid: &Txid,
) -> (r: Result<bool, SyncTaskError<Enforcer>>)
    requires
        old(mempool).wf(),
        old(sync_state).wf(),
    ensures
        final(mempool).wf(),
        final(sync_state).wf(),
        final(mempool).chain == old(mempool).chain,
        final(sync_state).tx_cache@ == old(sync_state).tx_cache@,
        final(sync_state).seq_message_queue@ == old(sync_state).seq_message_queue@,
        match fee_outlook(*txid, old(sync_state).tx_cache@, old(mempool).txs@) {
            FeeOutlook::NotCached => {
                &&& r == Ok::<bool, SyncTaskError<Enforcer>>(false)
                &&& final(mempool).txs@ == old(mempool).txs@
                &&& final(sync_state).request_queue@ == old(sync_state).request_queue@
            },
            FeeOutlook::Missing(ids) => {
                &&& r == Ok::<bool, SyncTaskError<Enforcer>>(false)
                &&& final(mempool).txs@ == old(mempool).txs@
                &&& final(sync_state).request_queue@ == fronted(old(sync_state).request_queue@, ids)
            },
            FeeOutlook::Unpayable => {
                &&& r == Err::<bool, SyncTaskError<Enforcer>>(SyncTaskError::FeeOverflow)
                &&& final(mempool).txs@ == old(mempool).txs@
                &&& final(sync_state).request_queue@ == old(sync_state).request_queue@
            },
            FeeOutlook::Ready(fee) => {
                &&& decided(old(mempool).txs@, final(mempool).txs@, old(sync_state).tx_cache@[*txid], fee, r)
                &&& final(sync_state).request_queue@ == old(sync_state).request_queue@
            },
        },
{
    match resolve_fee(&sync_state.tx_cache, &mempool.txs, *txid) {
        FeeResolution::NotCached => Ok(false),
        FeeResolution::Missing(ids) => {
            push_front_all(&mut sync_state.request_queue, &ids);
            Ok(false)
        },
        FeeResolution::Unpayable => Err(SyncTaskError::FeeOverflow),
        FeeResolution::Ready(fee) => {
            match sync_state.tx_cache.get(*txid) {
                Some(tx) => {
                    let decision = enforcer.accept_tx(tx);
                    let copy = tx.duplicate();
                    settle_admission(mempool, copy, fee, decision)
                },
                None => Ok(false),
            }
        },
    }
}

/// The hash of the block below one whose parent is `parent`: all zeros
/// where there is none.
pub open spec fn parent_or_zero(parent: Option<BlockHash>) -> BlockHash {
    match parent {
        Some(hash) => hash,
        None => Hash256 { hi: 0, lo: 0 },
    }
}

/// No disconnection that is waiting names a block that is at hand and
/// confirms transactions. To undo such a block its transactions would have
/// to go back into the mempool, with fees that nothing has kept: the
/// handlers leave that case to their caller.
pub open spec fn reorg_clear(seq: Seq<SequenceMessage>, blocks: Map<Hash256, Block>) -> bool {
    forall|i: int|
        0 <= i < seq.len() ==> match #[trigger] seq[i] {
            SequenceMessage::BlockHashDisconnected(hash, _) => blocks.contains_key(hash) ==> blocks[hash].tx@.len()
                == 0,
            _ => true,
        }
}

/// Whether the oldest unapplied notification can be acted on as things
/// are: a disconnection of the tip whose block is at hand, the removal of a
/// transaction that is in the mempool, or an added transaction whose inputs
/// are all known. The last is applied where its fee can be told and the
/// policy answers, and ends the actor otherwise. A connection waits for its
/// block to arrive.
pub open spec fn applicable(
    seq: Seq<SequenceMessage>,
    tip: BlockHash,
    blocks: Map<Hash256, Block>,
    cache: Map<Hash256, Transaction>,
    pool: Map<Hash256, MempoolEntry>,
) -> bool {
    seq.len() > 0 && match seq[0] {
        SequenceMessage::BlockHashConnected(_, _) => false,
        SequenceMessage::BlockHashDisconnected(hash, _) => tip == hash && blocks.contains_key(hash),
        SequenceMessage::TxHashAdded { txid, .. } => fee_outlook(txid, cache, pool) is Ready || fee_outlook(
            txid,
            cache,
            pool,
        ) is Unpayable,
        SequenceMessage::TxHashRemoved { txid, .. } => pool.contains_key(txid),
    }
}

/// The request queue after an attempt that could not apply the oldest
/// notification: if that is an added transaction with unknown sources, they
/// were requested with priority.
pub open spec fn queue_after_stall(
    q: Seq<RequestItem>,
    seq: Seq<SequenceMessage>,
    cache: Map<Hash256, Transaction>,
    pool: Map<Hash256, MempoolEntry>,
) -> Seq<RequestItem> {
    if seq.len() > 0 {
        match seq[0] {
            SequenceMessage::TxHashAdded { txid, .. } => match fee_outlook(txid, cache, pool) {
                FeeOutlook::Missing(ids) => fronted(q, ids),
                _ => q,
            },
            _ => q,
        }
    } else {
        q
    }
}

/// Tries once to apply the oldest unapplied notification. Returns `true`,
/// and drops the notification, if it was applied. A disconnection that is
/// due must be of a block without transactions.
pub fn try_apply_next_seq_message<Enforcer: CusfEnforcer>(
    enforcer: &mut Enforcer,
    mempool: &mut Mempool,
    sync_state: &mut SyncState,
) -> (r: Result<bool, SyncTaskError<Enforcer>>)
    requires
        old(mempool).wf(),
        old(sync_state).wf(),
        old(sync_state).seq_message_queue@.len() > 0 ==> match old(sync_state).seq_message_queue@[0] {
            SequenceMessage::BlockHashDisconnected(hash, _) => old(mempool).chain.tip == hash && old(mempool).chain.blocks@.contains_key(hash) ==> old(mempool).chain.blocks@[hash].tx@.len() == 0,
            _ => true,
        },
    ensures
        final(mempool).wf(),
        final(sync_state).wf(),
        final(mempool).chain.blocks@ == old(mempool).chain.blocks@,
        final(sync_state).tx_cache@ == old(sync_state).tx_cache@,
        r == Ok::<bool, SyncTaskError<Enforcer>>(true) ==> final(sync_state).seq_message_queue@ == old(sync_state).seq_message_queue@.drop_first(),
        r != Ok::<bool, SyncTaskError<Enforcer>>(true) ==> final(sync_state).seq_message_queue@ == old(sync_state).seq_message_queue@,
        !applicable(
            old(sync_state).seq_message_queue@,
            old(mempool).chain.tip,
            old(mempool).chain.blocks@,
            old(sync_state).tx_cache@,
            old(mempool).txs@,
        ) ==> {
            &&& r == Ok::<bool, SyncTaskError<Enforcer>>(false)
            &&& final(mempool).chain.tip == old(mempool).chain.tip
            &&& final(mempool).txs@ == old(mempool).txs@
            &&& final(sync_state).request_queue@ == queue_after_stall(
                old(sync_state).request_queue@,
                old(sync_state).seq_message_queue@,
                old(sync_state).tx_cache@,
                old(mempool).txs@,
            )
        },
        applicable(
            old(sync_state).seq_message_queue@,
            old(mempool).chain.tip,
            old(mempool).chain.blocks@,
            old(sync_state).tx_cache@,
            old(mempool).txs@,
        ) ==> final(sync_state).request_queue@ == old(sync_state).request_queue@ && match old(sync_state).seq_message_queue@[0] {
            SequenceMessage::BlockHashConnected(_, _) => false,
            SequenceMessage::BlockHashDisconnected(hash, _) => {
                &&& r == Ok::<bool, SyncTaskError<Enforcer>>(true)
                &&& final(mempool).chain.tip == parent_or_zero(old(mempool).chain.blocks@[hash].previousblockhash)
                &&& final(mempool).txs@ == old(mempool).txs@
            },
            SequenceMessage::TxHashAdded { txid, .. } => {
                &&& final(mempool).chain.tip == old(mempool).chain.tip
                &&& match fee_outlook(txid, old(sync_state).tx_cache@, old(mempool).txs@) {
                    FeeOutlook::Ready(fee) => decided(
                        old(mempool).txs@,
                        final(mempool).txs@,
                        old(sync_state).tx_cache@[txid],
                        fee,
                        r,
                    ),
                    _ => r == Err::<bool, SyncTaskError<Enforcer>>(SyncTaskError::FeeOverflow) && final(mempool).txs@ == old(mempool).txs@,
                }
            },
            SequenceMessage::TxHashRemoved { txid, .. } => {
                &&& r == Ok::<bool, SyncTaskError<Enforcer>>(true)
                &&& final(mempool).chain.tip == old(mempool).chain.tip
                &&& final(mempool).txs@ == old(mempool).txs@.remove(txid)
            },
        },
{
    if sync_state.seq_message_queue.len() == 0 {
        return Ok(false);
    }
    let front: SequenceMessage = sync_state.seq_message_queue[0];
    let res: bool = match front {
        SequenceMessage::BlockHashDisconnected(block_hash, _) => {
            if mempool.chain.tip != block_hash {
                false
            } else {
                let parent: Option<Option<BlockHash>> = match mempool.chain.blocks.get(block_hash) {
                    Some(block) => Some(block.previousblockhash),
                    None => None,
                };
                match parent {
                    Some(previous) => {
                        mempool.chain.tip = match previous {
                            Some(hash) => hash,
                            None => Hash256::all_zeros(),
                        };
                        true
                    },
                    None => false,
                }
            }
        },
        SequenceMessage::TxHashAdded { txid, mempool_seq: _, zmq_seq: _ } => {
            match try_add_tx_from_cache(enforcer, mempool, sync_state, &txid) {
                Ok(done) => done,
                Err(e) => {
                    return Err(e);
                },
            }
        },
        SequenceMessage::TxHashRemoved { txid, mempool_seq: _, zmq_seq: _ } => {
            mempool.remove(txid).is_some()
        },
        SequenceMessage::BlockHashConnected(_, _) => false,
    };
    if res {
        let _applied = sync_state.seq_message_queue.pop_front();
        assert(final(sync_state).seq_message_queue@ =~= old(sync_state).seq_message_queue@.drop_first());
    }
    Ok(res)
}

} // verus!
