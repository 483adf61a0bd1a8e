//! The actor's step: one item of the merged feeds at a time.

use vstd::prelude::*;
use crate::fee::{fee_outlook, FeeOutlook};
use crate::mempool::{admitted, Mempool, MempoolEntry};
use crate::response::{absorb_response, absorbed, snapshot, Snapshot};
use crate::state::{CusfEnforcer, RequestError, SequenceStreamError, SyncState, SyncTaskError};
use crate::sync::{
    applicable,
    handle_seq_message,
    parent_or_zero,
    queue_after_message,
    queue_after_stall,
    reorg_clear,
    try_apply_next_seq_message,
};
use crate::types::{
    BatchedResponseItem,
    Block,
    BlockHash,
    Hash256,
    RequestItem,
    ResponseItem,
    SequenceMessage,
    Txid,
};

verus! {

/// The next thing the actor has to absorb: a notification or a response,
/// or the failure of the feed that it came from.
#[derive(Debug)]
pub enum CombinedStreamItem {
    ZmqSeq(Result<SequenceMessage, SequenceStreamError>),
    Response(Result<BatchedResponseItem, RequestError>),
}

/// No notification can be applied as things are.
pub open spec fn stalled(a: Snapshot) -> bool {
    !applicable(a.seq, a.tip, a.blocks, a.cache, a.txs)
}

/// The transactions that `applied` leaves of `content`: each one added
/// and not removed afterwards, besides those of `content` not removed.
pub open spec fn net_content(applied: Seq<SequenceMessage>, content: Set<Txid>) -> Set<Txid>
    decreases applied.len(),
{
    if applied.len() == 0 {
        content
    } else {
        let before = net_content(applied.drop_last(), content);
        match applied.last() {
            SequenceMessage::TxHashAdded { txid, .. } => before.insert(txid),
            SequenceMessage::TxHashRemoved { txid, .. } => before.remove(txid),
            _ => before,
        }
    }
}

/// The transactions of `content` that `applied` does not remove.
pub open spec fn kept_content(applied: Seq<SequenceMessage>, content: Set<Txid>) -> Set<Txid>
    decreases applied.len(),
{
    if applied.len() == 0 {
        content
    } else {
        let before = kept_content(applied.drop_last(), content);
        match applied.last() {
            SequenceMessage::TxHashRemoved { txid, .. } => before.remove(txid),
            _ => before,
        }
    }
}

/// The tip that `applied` leaves of `tip`: the parent of the block last
/// disconnected, all zeros where it has none.
pub open spec fn net_tip(applied: Seq<SequenceMessage>, tip: BlockHash, blocks: Map<Hash256, Block>) -> BlockHash
    decreases applied.len(),
{
    if applied.len() == 0 {
        tip
    } else {
        match applied.last() {
            SequenceMessage::BlockHashDisconnected(hash, _) => parent_or_zero(blocks[hash].previousblockhash),
            _ => net_tip(applied.drop_last(), tip, blocks),
        }
    }
}

/// `b` is what applying the oldest notification of `a` leaves: the
/// notification is gone and nothing else has changed but what it asks
/// for. A disconnection of the tip puts the tip back on its parent; a
/// removal takes the transaction out of the mempool; an addition whose fee
/// is known puts the cached transaction in at that fee, or, where
/// `accepting` is false, may also leave the mempool as it is, which is what
/// a rejection by the policy does.
pub open spec fn stepped(a: Snapshot, b: Snapshot, accepting: bool) -> bool {
    &&& a.seq.len() > 0
    &&& b.seq == a.seq.drop_first()
    &&& b.queue == a.queue
    &&& b.cache == a.cache
    &&& b.blocks == a.blocks
    &&& match a.seq[0] {
        SequenceMessage::BlockHashConnected(_, _) => false,
        SequenceMessage::BlockHashDisconnected(hash, _) => {
            &&& a.tip == hash
            &&& a.blocks.contains_key(hash)
            &&& b.tip == parent_or_zero(a.blocks[hash].previousblockhash)
            &&& b.txs == a.txs
        },
        SequenceMessage::TxHashAdded { txid, .. } => {
            &&& b.tip == a.tip
            &&& match fee_outlook(txid, a.cache, a.txs) {
                FeeOutlook::Ready(fee) => admitted(a.txs, b.txs, a.cache[txid], fee) || (!accepting && b.txs
                    == a.txs),
                _ => false,
            }
        },
        SequenceMessage::TxHashRemoved { txid, .. } => {
            &&& a.txs.contains_key(txid)
            &&& b.tip == a.tip
            &&& b.txs == a.txs.remove(txid)
        },
    }
}

/// `b` is what applying the `n` oldest notifications of `a`, one after the
/// other, leaves.
pub open spec fn applied_run(a: Snapshot, b: Snapshot, n: nat, accepting: bool) -> bool
    decreases n,
{
    if n == 0 {
        b == a
    } else {
        exists|m: Snapshot| applied_run(a, m, (n - 1) as nat, accepting) && #[trigger] stepped(m, b, accepting)
    }
}

/// `a` with the request queue `queue`.
pub open spec fn with_queue(a: Snapshot, queue: Seq<RequestItem>) -> Snapshot {
    Snapshot { tip: a.tip, blocks: a.blocks, txs: a.txs, queue, seq: a.seq, cache: a.cache }
}

/// The oldest notification adds a transaction whose inputs are all known,
/// so that nothing but a failure keeps it from being applied.
pub open spec fn halted(a: Snapshot) -> bool {
    a.seq.len() > 0 && a.seq[0] is TxHashAdded && (fee_outlook(a.seq[0]->TxHashAdded_txid, a.cache, a.txs) is Ready
        || fee_outlook(a.seq[0]->TxHashAdded_txid, a.cache, a.txs) is Unpayable)
}

/// Some number of the oldest notifications of `a` was applied, leaving
/// `b`: the tip is where they put it, and the mempool holds every
/// transaction that they did not remove, and none but those that they
/// leave of it. What it holds between the two is up to the policy.
pub open spec fn replayed(a: Snapshot, b: Snapshot) -> bool {
    exists|n: int|
        0 <= n <= a.seq.len() && b.seq == #[trigger] a.seq.skip(n) && b.txs.dom().subset_of(
            net_content(a.seq.take(n), a.txs.dom()),
        ) && kept_content(a.seq.take(n), a.txs.dom()).subset_of(b.txs.dom()) && b.tip == net_tip(
            a.seq.take(n),
            a.tip,
            a.blocks,
        )
}

/// Every transaction that the mempool of `b` holds was in the mempool of
/// `a` with the same fee, or is a transaction of the cache.
pub open spec fn carried(a: Snapshot, b: Snapshot) -> bool {
    forall|k: Hash256| #[trigger]
        b.txs.contains_key(k) ==> (a.txs.contains_key(k) && b.txs[k] == a.txs[k]) || (a.cache.contains_key(k)
            && b.txs[k].tx@ == a.cache[k]@)
}

/// What holds after notifications were applied from `a` until none could
/// be (`completed`), or until a failure, leaving `b`: the cache and the
/// blocks are untouched; the notifications and the mempool are as
/// [`replayed`] and [`carried`] say; the request queue is as it was, but for the sources
/// requested by the last attempt where that could apply nothing; and where
/// nothing could be applied to begin with, nothing else has changed.
pub open spec fn drained(a: Snapshot, b: Snapshot, completed: bool) -> bool {
    &&& exists|n: nat| #[trigger] applied_run(a, with_queue(b, a.queue), n, false)
    &&& b.cache == a.cache
    &&& b.blocks == a.blocks
    &&& replayed(a, b)
    &&& carried(a, b)
    &&& if completed {
        stalled(b) && b.queue == queue_after_stall(a.queue, b.seq, b.cache, b.txs)
    } else {
        halted(b) && b.queue == a.queue
    }
    &&& stalled(a) ==> completed && b.tip == a.tip && b.txs == a.txs && b.seq == a.seq
}

/// Which failure ends the actor in the state `b`: that of the fee, exactly
/// where no fee can be told for the transaction that the oldest
/// notification adds; that of the policy, where the fee is known.
pub open spec fn failure_of<Enforcer: CusfEnforcer>(b: Snapshot, r: Result<(), SyncTaskError<Enforcer>>) -> bool {
    r is Err ==> {
        &&& halted(b)
        &&& match fee_outlook(b.seq[0]->TxHashAdded_txid, b.cache, b.txs) {
            FeeOutlook::Unpayable => r == Err::<(), SyncTaskError<Enforcer>>(SyncTaskError::FeeOverflow),
            FeeOutlook::Ready(_) => r->Err_0 is CusfEnforcer,
            _ => false,
        }
    }
}

/// Applies unapplied notifications, oldest first, until one cannot be
/// applied yet or a failure ends the actor. No disconnection that is
/// waiting may name a block with transactions that is at hand.
pub fn apply_until_stalled<Enforcer: CusfEnforcer>(
    enforcer: &mut Enforcer,
    mempool: &mut Mempool,
    sync_state: &mut SyncState,
) -> (r: Result<(), SyncTaskError<Enforcer>>)
    requires
        old(mempool).wf(),
        old(sync_state).wf(),
        reorg_clear(old(sync_state).seq_message_queue@, old(mempool).chain.blocks@),
    ensures
        final(mempool).wf(),
        final(sync_state).wf(),
        drained(snapshot(*old(mempool), *old(sync_state)), snapshot(*final(mempool), *final(sync_state)), r is Ok),
        failure_of(snapshot(*final(mempool), *final(sync_state)), r),
{
    let ghost mut applied: int = 0;
    assert(sync_state.seq_message_queue@.skip(0) =~= sync_state.seq_message_queue@);
    assert(sync_state.seq_message_queue@.take(0) =~= Seq::<SequenceMessage>::empty());
    loop
        invariant
            mempool.wf(),
            sync_state.wf(),
            sync_state.tx_cache@ == old(sync_state).tx_cache@,
            mempool.chain.blocks@ == old(mempool).chain.blocks@,
            0 <= applied <= old(sync_state).seq_message_queue@.len(),
            sync_state.seq_message_queue@ == old(sync_state).seq_message_queue@.skip(applied),
            mempool.txs@.dom().subset_of(
                net_content(old(sync_state).seq_message_queue@.take(applied), old(mempool).txs@.dom()),
            ),
            kept_content(old(sync_state).seq_message_queue@.take(applied), old(mempool).txs@.dom()).subset_of(
                mempool.txs@.dom(),
            ),
            mempool.chain.tip == net_tip(
                old(sync_state).seq_message_queue@.take(applied),
                old(mempool).chain.tip,
                old(mempool).chain.blocks@,
            ),
            sync_state.request_queue@ == old(sync_state).request_queue@,
            reorg_clear(sync_state.seq_message_queue@, mempool.chain.blocks@),
            carried(snapshot(*old(mempool), *old(sync_state)), snapshot(*mempool, *sync_state)),
            applied_run(
                snapshot(*old(mempool), *old(sync_state)),
                snapshot(*mempool, *sync_state),
                applied as nat,
                false,
            ),
            applied == 0 ==> *mempool == *old(mempool) && *sync_state == *old(sync_state),
            applied > 0 ==> !stalled(snapshot(*old(mempool), *old(sync_state))),
        decreases sync_state.seq_message_queue@.len(),
    {
        let ghost m = *mempool;
        let ghost s = *sync_state;
        match try_apply_next_seq_message(enforcer, mempool, sync_state) {
            Ok(true) => {
                proof {
                    let q0 = old(sync_state).seq_message_queue@;
                    let a = snapshot(*old(mempool), *old(sync_state));
                    let p = snapshot(m, s);
                    let c = snapshot(*mempool, *sync_state);
                    assert(!stalled(p));
                    assert forall|k: Hash256| #[trigger] c.txs.contains_key(k) implies (a.txs.contains_key(k)
                        && c.txs[k] == a.txs[k]) || (a.cache.contains_key(k) && c.txs[k].tx@ == a.cache[k]@) by {
                        match p.seq[0] {
                            SequenceMessage::TxHashAdded { txid, .. } => {
                                if c.txs != p.txs {
                                    assert(p.cache.contains_key(txid));
                                    assert(p.cache[txid].txid == txid);
                                    if k != txid {
                                        assert(p.txs.contains_key(k));
                                        assert(c.txs[k] == p.txs[k]);
                                    }
                                } else {
                                    assert(p.txs.contains_key(k));
                                }
                            },
                            SequenceMessage::TxHashRemoved { txid, .. } => {
                                assert(p.txs.contains_key(k));
                            },
                            _ => {
                                assert(p.txs.contains_key(k));
                            },
                        }
                    }
                    assert forall|i: int| 0 <= i < c.seq.len() implies match #[trigger] c.seq[i] {
                        SequenceMessage::BlockHashDisconnected(hash, _) => c.blocks.contains_key(hash)
                            ==> c.blocks[hash].tx@.len() == 0,
                        _ => true,
                    } by {
                        assert(c.seq[i] == p.seq[i + 1]);
                    }
                    assert(stepped(p, c, false));
                    assert(applied_run(a, c, (applied + 1) as nat, false));
                    assert(s.seq_message_queue@.len() > 0);
                    assert(sync_state.seq_message_queue@ =~= q0.skip(applied + 1));
                    assert(q0.take(applied + 1).drop_last() =~= q0.take(applied));
                    assert(q0.take(applied + 1).last() == s.seq_message_queue@[0]);
                    applied = applied + 1;
                }
            },
            Ok(false) => {
                proof {
                    assert(stalled(snapshot(m, s)));
                    assert(mempool.txs@ == m.txs@);
                    let a = snapshot(*old(mempool), *old(sync_state));
                    let b = snapshot(*mempool, *sync_state);
                    assert(with_queue(b, a.queue) == snapshot(m, s));
                    assert(applied_run(a, with_queue(b, a.queue), applied as nat, false));
                }
                return Ok(());
            },
            Err(e) => {
                proof {
                    assert(!stalled(snapshot(m, s)));
                    let a = snapshot(*old(mempool), *old(sync_state));
                    let b = snapshot(*mempool, *sync_state);
                    assert(b == snapshot(m, s));
                    assert(with_queue(b, a.queue) == b);
                    assert(applied_run(a, with_queue(b, a.queue), applied as nat, false));
                    assert(halted(b));
                }
                return Err(e);
            },
        }
    }
}

/// Tells whether `resp` can be handled: whether no disconnection that is
/// waiting names a block with transactions that is at hand or comes with
/// the response.
pub fn can_handle(mempool: &Mempool, sync_state: &SyncState, resp: &BatchedResponseItem) -> (b: bool)
    requires
        mempool.wf(),
        sync_state.wf(),
    ensures
        b == reorg_clear(sync_state.seq_message_queue@, absorbed(snapshot(*mempool, *sync_state), *resp).blocks),
{
    let ghost seq = sync_state.seq_message_queue@;
    let ghost blocks = absorbed(snapshot(*mempool, *sync_state), *resp).blocks;
    let mut clear: bool = true;
    let mut i: usize = 0;
    while i < sync_state.seq_message_queue.len()
        invariant
            mempool.wf(),
            i <= seq.len(),
            seq == sync_state.seq_message_queue@,
            blocks == absorbed(snapshot(*mempool, *sync_state), *resp).blocks,
            clear == reorg_clear(seq.take(i as int), blocks),
        decreases seq.len() - i,
    {
        let msg: SequenceMessage = sync_state.seq_message_queue[i];
        let here: bool = match msg {
            SequenceMessage::BlockHashDisconnected(hash, _) => {
                let incoming: Option<usize> = match resp {
                    BatchedResponseItem::Single(ResponseItem::Block(block)) => if block.hash == hash {
                        Some(block.tx.len())
                    } else {
                        None
                    },
                    _ => None,
                };
                match incoming {
                    Some(n) => n == 0,
                    None => match mempool.chain.blocks.get(hash) {
                        Some(block) => block.tx.len() == 0,
                        None => true,
                    },
                }
            },
            _ => true,
        };
        proof {
            let prev = seq.take(i as int);
            let next = seq.take(i + 1);
            assert(next[i as int] == msg);
            if reorg_clear(next, blocks) {
                assert forall|j: int| 0 <= j < prev.len() implies match #[trigger] prev[j] {
                    SequenceMessage::BlockHashDisconnected(hash, _) => blocks.contains_key(hash)
                        ==> blocks[hash].tx@.len() == 0,
                    _ => true,
                } by {
                    assert(prev[j] == next[j]);
                }
            }
            if reorg_clear(prev, blocks) && here {
                assert forall|j: int| 0 <= j < next.len() implies match #[trigger] next[j] {
                    SequenceMessage::BlockHashDisconnected(hash, _) => blocks.contains_key(hash)
                        ==> blocks[hash].tx@.len() == 0,
                    _ => true,
                } by {
                    if j < i {
                        assert(prev[j] == next[j]);
                    }
                }
            }
        }
        clear = clear && here;
        i = i + 1;
    }
    assert(seq.take(i as int) =~= seq);
    clear
}

/// Handles a response: takes it in, then applies every notification that
/// has become applicable. No disconnection that is waiting may name a
/// block with transactions that is at hand or comes with the response.
pub fn handle_resp<Enforcer: CusfEnforcer>(
    enforcer: &mut Enforcer,
    mempool: &mut Mempool,
    sync_state: &mut SyncState,
    resp: BatchedResponseItem,
) -> (r: Result<(), SyncTaskError<Enforcer>>)
    requires
        old(mempool).wf(),
        old(sync_state).wf(),
        reorg_clear(
            old(sync_state).seq_message_queue@,
            absorbed(snapshot(*old(mempool), *old(sync_state)), resp).blocks,
        ),
    ensures
        final(mempool).wf(),
        final(sync_state).wf(),
        drained(
            absorbed(snapshot(*old(mempool), *old(sync_state)), resp),
            snapshot(*final(mempool), *final(sync_state)),
            r is Ok,
        ),
        failure_of(snapshot(*final(mempool), *final(sync_state)), r),
{
    absorb_response(mempool, sync_state, resp);
    proof {
        let before = old(sync_state).seq_message_queue@;
        let after = sync_state.seq_message_queue@;
        assert forall|i: int| 0 <= i < after.len() implies match #[trigger] after[i] {
            SequenceMessage::BlockHashDisconnected(hash, _) => mempool.chain.blocks@.contains_key(hash)
                ==> mempool.chain.blocks@[hash].tx@.len() == 0,
            _ => true,
        } by {
            if after == before {
                assert(after[i] == before[i]);
            } else {
                assert(after[i] == before[i + 1]);
            }
        }
    }
    apply_until_stalled(enforcer, mempool, sync_state)
}

/// One step of the actor on the next item of the merged feeds, `None` if
/// they have ended. With a response, no disconnection that is waiting may
/// name a block with transactions that is at hand or comes with it. A notification is received; a response is handled; the
/// end of the feeds, or the failure of one of them, ends the actor and
/// leaves everything as it was.
pub fn task_step<Enforcer: CusfEnforcer>(
    enforcer: &mut Enforcer,
    mempool: &mut Mempool,
    sync_state: &mut SyncState,
    item: Option<CombinedStreamItem>,
) -> (r: Result<(), SyncTaskError<Enforcer>>)
    requires
        old(mempool).wf(),
        old(sync_state).wf(),
        match item {
            Some(CombinedStreamItem::Response(Ok(resp))) => reorg_clear(
                old(sync_state).seq_message_queue@,
                absorbed(snapshot(*old(mempool), *old(sync_state)), resp).blocks,
            ),
            _ => true,
        },
    ensures
        final(mempool).wf(),
        final(sync_state).wf(),
        match item {
            None => r == Err::<(), SyncTaskError<Enforcer>>(SyncTaskError::CombinedStreamEnded) && *final(mempool)
                == *old(mempool) && *final(sync_state) == *old(sync_state),
            Some(CombinedStreamItem::ZmqSeq(Err(e))) => r == Err::<(), SyncTaskError<Enforcer>>(
                SyncTaskError::SequenceStream(e),
            ) && *final(mempool) == *old(mempool) && *final(sync_state) == *old(sync_state),
            Some(CombinedStreamItem::Response(Err(e))) => r == Err::<(), SyncTaskError<Enforcer>>(
                SyncTaskError::Request(e),
            ) && *final(mempool) == *old(mempool) && *final(sync_state) == *old(sync_state),
            Some(CombinedStreamItem::ZmqSeq(Ok(msg))) => {
                &&& r == Ok::<(), SyncTaskError<Enforcer>>(())
                &&& *final(mempool) == *old(mempool)
                &&& final(sync_state).tx_cache@ == old(sync_state).tx_cache@
                &&& final(sync_state).seq_message_queue@ == old(sync_state).seq_message_queue@.push(msg)
                &&& final(sync_state).request_queue@ == queue_after_message(
                    old(sync_state).request_queue@,
                    msg,
                    old(mempool).chain.blocks@,
                )
            },
            Some(CombinedStreamItem::Response(Ok(resp))) => {
                &&& drained(
                    absorbed(snapshot(*old(mempool), *old(sync_state)), resp),
                    snapshot(*final(mempool), *final(sync_state)),
                    r is Ok,
                )
                &&& failure_of(snapshot(*final(mempool), *final(sync_state)), r)
            },
        },
{
    match item {
        None => Err(SyncTaskError::CombinedStreamEnded),
        Some(CombinedStreamItem::ZmqSeq(Err(e))) => Err(SyncTaskError::SequenceStream(e)),
        Some(CombinedStreamItem::Response(Err(e))) => Err(SyncTaskError::Request(e)),
        Some(CombinedStreamItem::ZmqSeq(Ok(msg))) => {
            handle_seq_message(mempool, sync_state, msg);
            Ok(())
        },
        Some(CombinedStreamItem::Response(Ok(resp))) => handle_resp(enforcer, mempool, sync_state, resp),
    }
}

} // verus!
