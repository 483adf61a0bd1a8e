//! Folding fetched blocks and transactions into the cache and the mempool.

use vstd::prelude::*;
use hashlink::DefaultHashBuilder;
use hashlink::LinkedHashSet;
use crate::mempool::{Mempool, MempoolEntry};
use crate::ordered_set::{
    lemma_linked_ids_contains,
    linked_ids,
    linked_items,
    linked_set_into_rev,
    linked_set_new,
    linked_set_replace,
};
use crate::request_queue::{without, RequestQueue};
use crate::state::SyncState;
use crate::sync::{fronted, parent_or_zero, push_front_all};
use crate::table::HashTable;
use crate::types::{
    BatchedResponseItem,
    Block,
    BlockHash,
    Hash256,
    OutPoint,
    RequestItem,
    ResponseItem,
    SequenceMessage,
    Transaction,
    Txid,
};

verus! {

/// The mathematical value of the actor's whole state.
pub struct Snapshot {
    pub tip: BlockHash,
    pub blocks: Map<Hash256, Block>,
    pub txs: Map<Hash256, MempoolEntry>,
    pub queue: Seq<RequestItem>,
    pub seq: Seq<SequenceMessage>,
    pub cache: Map<Hash256, Transaction>,
}

/// The value of a mempool and the state that goes with it.
pub open spec fn snapshot(mempool: Mempool, sync_state: SyncState) -> Snapshot {
    Snapshot {
        tip: mempool.chain.tip,
        blocks: mempool.chain.blocks@,
        txs: mempool.txs@,
        queue: sync_state.request_queue@,
        seq: sync_state.seq_message_queue@,
        cache: sync_state.tx_cache@,
    }
}

/// Files a fetched transaction in the cache, under its id.
pub fn handle_resp_tx(sync_state: &mut SyncState, tx: Transaction)
    requires
        old(sync_state).wf(),
    ensures
        final(sync_state).wf(),
        final(sync_state).tx_cache@ == old(sync_state).tx_cache@.insert(tx.txid, tx),
        final(sync_state).request_queue == old(sync_state).request_queue,
        final(sync_state).seq_message_queue == old(sync_state).seq_message_queue,
{
    let txid = tx.txid;
    sync_state.tx_cache.insert(txid, tx);
}

/// The request queue after the mempool requests for each of `ids` were
/// withdrawn.
pub open spec fn without_all(q: Seq<RequestItem>, ids: Seq<Txid>) -> Seq<RequestItem>
    decreases ids.len(),
{
    if ids.len() == 0 {
        q
    } else {
        without(without_all(q, ids.drop_last()), RequestItem::Tx(ids.last(), true))
    }
}

/// The mempool's transactions after each of `ids` was dropped.
pub open spec fn pool_without_all(pool: Map<Hash256, MempoolEntry>, ids: Seq<Txid>) -> Map<Hash256, MempoolEntry>
    decreases ids.len(),
{
    if ids.len() == 0 {
        pool
    } else {
        pool_without_all(pool, ids.drop_last()).remove(ids.last())
    }
}

/// What a fetched block means for the chain.
pub enum BlockTurn {
    /// The oldest unapplied notification connects this block.
    Connect,
    /// The oldest unapplied notification disconnects this block, and it is
    /// the tip.
    Disconnect,
    /// It is not this block's turn.
    Wait,
}

/// What the block `hash` means, given the unapplied notifications and the
/// tip.
pub open spec fn block_turn(seq: Seq<SequenceMessage>, tip: BlockHash, hash: BlockHash) -> BlockTurn {
    if seq.len() == 0 {
        BlockTurn::Wait
    } else {
        match seq[0] {
            SequenceMessage::BlockHashConnected(h, _) => if h == hash {
                BlockTurn::Connect
            } else {
                BlockTurn::Wait
            },
            SequenceMessage::BlockHashDisconnected(h, _) => if h == hash && tip == hash {
                BlockTurn::Disconnect
            } else {
                BlockTurn::Wait
            },
            _ => BlockTurn::Wait,
        }
    }
}

/// The state after a response was taken in and before any notification is
/// applied.
pub open spec fn absorbed(a: Snapshot, resp: BatchedResponseItem) -> Snapshot {
    match resp {
        BatchedResponseItem::Single(ResponseItem::Block(block)) => {
            let blocks = a.blocks.insert(block.hash, block);
            match block_turn(a.seq, a.tip, block.hash) {
                BlockTurn::Connect => Snapshot {
                    tip: block.hash,
                    blocks,
                    txs: pool_without_all(a.txs, block.tx@),
                    queue: without_all(a.queue, block.tx@),
                    seq: a.seq.drop_first(),
                    cache: a.cache,
                },
                BlockTurn::Disconnect => Snapshot {
                    tip: parent_or_zero(block.previousblockhash),
                    blocks,
                    txs: a.txs,
                    queue: a.queue,
                    seq: a.seq.drop_first(),
                    cache: a.cache,
                },
                BlockTurn::Wait => Snapshot {
                    tip: a.tip,
                    blocks,
                    txs: a.txs,
                    queue: a.queue,
                    seq: a.seq,
                    cache: a.cache,
                },
            }
        },
        _ => Snapshot {
            tip: a.tip,
            blocks: a.blocks,
            txs: a.txs,
            queue: fronted(a.queue, response_noted(a.cache, resp)),
            seq: a.seq,
            cache: response_cache(a.cache, resp),
        },
    }
}

/// Takes in a fetched block. If the oldest unapplied notification connects
/// it, its transactions leave the mempool and the request queue and it
/// becomes the tip. If that notification disconnects it and it is the tip,
/// the tip goes back to its parent; such a block must be without
/// transactions, so that none has to go back into the mempool. Otherwise
/// only the block is kept. The block is kept in every case.
pub fn handle_resp_block(mempool: &mut Mempool, sync_state: &mut SyncState, block: Block)
    requires
        old(mempool).wf(),
        old(sync_state).wf(),
        block_turn(old(sync_state).seq_message_queue@, old(mempool).chain.tip, block.hash) is Disconnect
            ==> block.tx@.len() == 0,
    ensures
        final(mempool).wf(),
        final(sync_state).wf(),
        snapshot(*final(mempool), *final(sync_state)) == absorbed(
            snapshot(*old(mempool), *old(sync_state)),
            BatchedResponseItem::Single(ResponseItem::Block(block)),
        ),
{
    if sync_state.seq_message_queue.len() > 0 {
        let front: SequenceMessage = sync_state.seq_message_queue[0];
        match front {
            SequenceMessage::BlockHashConnected(block_hash, _) => {
                if block_hash == block.hash {
                    let mut i: usize = 0;
                    assert(block.tx@.take(0) =~= Seq::<Txid>::empty());
                    while i < block.tx.len()
                        invariant
                            i <= block.tx@.len(),
                            mempool.wf(),
                            sync_state.wf(),
                            mempool.chain == old(mempool).chain,
                            sync_state.tx_cache@ == old(sync_state).tx_cache@,
                            sync_state.seq_message_queue == old(sync_state).seq_message_queue,
                            mempool.txs@ == pool_without_all(old(mempool).txs@, block.tx@.take(i as int)),
                            sync_state.request_queue@ == without_all(
                                old(sync_state).request_queue@,
                                block.tx@.take(i as int),
                            ),
                        decreases block.tx@.len() - i,
                    {
                        let txid = block.tx[i];
                        proof {
                            assert(block.tx@.take(i + 1).drop_last() =~= block.tx@.take(i as int));
                            assert(block.tx@.take(i + 1).last() == txid);
                        }
                        let _removed = mempool.remove(txid);
                        let _was: bool = sync_state.request_queue.remove(RequestItem::Tx(txid, true));
                        i = i + 1;
                    }
                    assert(block.tx@.take(i as int) =~= block.tx@);
                    mempool.chain.tip = block.hash;
                    let _applied = sync_state.seq_message_queue.pop_front();
                    assert(sync_state.seq_message_queue@ =~= old(sync_state).seq_message_queue@.drop_first());
                }
            },
            SequenceMessage::BlockHashDisconnected(block_hash, _) => {
                if block_hash == block.hash && mempool.chain.tip == block.hash {
                    mempool.chain.tip = match block.previousblockhash {
                        Some(hash) => hash,
                        None => Hash256::all_zeros(),
                    };
                    let _applied = sync_state.seq_message_queue.pop_front();
                    assert(sync_state.seq_message_queue@ =~= old(sync_state).seq_message_queue@.drop_first());
                }
            },
            _ => {},
        }
    }
    let hash = block.hash;
    mempool.chain.blocks.insert(hash, block);
}

/// `acc`, followed by the id of each transaction that `inputs` spend from
/// and that is neither cached nor noted already, in the order of the
/// inputs.
pub open spec fn noted(acc: Seq<Txid>, inputs: Seq<OutPoint>, cache: Map<Hash256, Transaction>) -> Seq<Txid>
    decreases inputs.len(),
{
    if inputs.len() == 0 {
        acc
    } else {
        let rest = noted(acc, inputs.drop_last(), cache);
        let id = inputs.last().txid;
        if cache.contains_key(id) || rest.contains(id) {
            rest
        } else {
            rest.push(id)
        }
    }
}

/// Notes in `needed` the uncached transactions that `tx` spends from.
fn note_uncached_inputs(
    needed: &mut LinkedHashSet<(u128, u128), DefaultHashBuilder>,
    tx: &Transaction,
    cache: &HashTable<Transaction>,
)
    requires
        cache.wf(),
    ensures
        linked_ids(*final(needed)) == noted(linked_ids(*old(needed)), tx.inputs@, cache@),
{
    let mut i: usize = 0;
    assert(tx.inputs@.take(0) =~= Seq::<OutPoint>::empty());
    while i < tx.inputs.len()
        invariant
            cache.wf(),
            i <= tx.inputs@.len(),
            linked_ids(*needed) == noted(linked_ids(*old(needed)), tx.inputs@.take(i as int), cache@),
        decreases tx.inputs@.len() - i,
    {
        let id = tx.inputs[i].txid;
        proof {
            assert(tx.inputs@.take(i + 1).drop_last() =~= tx.inputs@.take(i as int));
            assert(tx.inputs@.take(i + 1).last().txid == id);
            lemma_linked_ids_contains(*needed, id);
        }
        if !cache.contains_key(id) {
            let ghost before = *needed;
            let _replaced = linked_set_replace(needed, id);
            proof {
                if !linked_items(before).contains(id.pair()) {
                    assert(linked_ids(*needed) =~= linked_ids(before).push(id));
                } else {
                    assert(linked_ids(*needed) =~= linked_ids(before));
                }
            }
        }
        i = i + 1;
    }
    assert(tx.inputs@.take(i as int) =~= tx.inputs@);
}

/// `ids` in the opposite order.
fn reversed(ids: &Vec<Txid>) -> (r: Vec<Txid>)
    ensures
        r@ == ids@.reverse(),
{
    let mut r: Vec<Txid> = Vec::new();
    let mut k: usize = ids.len();
    while k > 0
        invariant
            k <= ids@.len(),
            r@.len() == ids@.len() - k,
            forall|j: int| 0 <= j < r@.len() ==> r@[j] == ids@[ids@.len() - 1 - j],
        decreases k,
    {
        k = k - 1;
        r.push(ids[k]);
    }
    assert(r@ =~= ids@.reverse());
    r
}

/// Requests with priority what `needed` holds, the oldest at the very
/// front.
fn request_needed(queue: &mut RequestQueue, needed: LinkedHashSet<(u128, u128), DefaultHashBuilder>)
    requires
        old(queue).wf(),
    ensures
        final(queue).wf(),
        final(queue)@ == fronted(old(queue)@, linked_ids(needed)),
{
    let newest_first = linked_set_into_rev(needed);
    let ids = reversed(&newest_first);
    assert(ids@ =~= linked_ids(needed));
    push_front_all(queue, &ids);
}

/// The cache after each transaction of a batch was filed, in order.
pub open spec fn batch_cache(cache: Map<Hash256, Transaction>, txs: Seq<(Transaction, bool)>) -> Map<
    Hash256,
    Transaction,
>
    decreases txs.len(),
{
    if txs.len() == 0 {
        cache
    } else {
        batch_cache(cache, txs.drop_last()).insert(txs.last().0.txid, txs.last().0)
    }
}

/// The transactions to request after a batch was filed: for each
/// transaction that is wanted in the mempool, the sources that were not
/// cached when its turn came, each noted once, in the order met.
pub open spec fn batch_noted(cache: Map<Hash256, Transaction>, txs: Seq<(Transaction, bool)>) -> Seq<Txid>
    decreases txs.len(),
{
    if txs.len() == 0 {
        Seq::empty()
    } else {
        let before = batch_noted(cache, txs.drop_last());
        if txs.last().1 {
            noted(before, txs.last().0.inputs@, batch_cache(cache, txs.drop_last()))
        } else {
            before
        }
    }
}

/// The cache after a response was taken in.
pub open spec fn response_cache(cache: Map<Hash256, Transaction>, resp: BatchedResponseItem) -> Map<
    Hash256,
    Transaction,
> {
    match resp {
        BatchedResponseItem::BatchTx(txs) => batch_cache(cache, txs@),
        BatchedResponseItem::Single(ResponseItem::Tx(tx, _)) => cache.insert(tx.txid, tx),
        BatchedResponseItem::Single(ResponseItem::Block(_)) => cache,
    }
}

/// The transactions to request with priority after a response was taken
/// in.
pub open spec fn response_noted(cache: Map<Hash256, Transaction>, resp: BatchedResponseItem) -> Seq<Txid> {
    match resp {
        BatchedResponseItem::BatchTx(txs) => batch_noted(cache, txs@),
        BatchedResponseItem::Single(ResponseItem::Tx(tx, wanted)) => if wanted {
            noted(Seq::empty(), tx.inputs@, cache)
        } else {
            Seq::empty()
        },
        BatchedResponseItem::Single(ResponseItem::Block(_)) => Seq::empty(),
    }
}

/// Takes in a response, before any notification is applied, as
/// [`absorbed`] says: transactions are filed in the cache and the uncached
/// sources of those wanted in the mempool are requested with priority; a
/// block is handled as [`handle_resp_block`] does.
pub fn absorb_response(mempool: &mut Mempool, sync_state: &mut SyncState, resp: BatchedResponseItem)
    requires
        old(mempool).wf(),
        old(sync_state).wf(),
        match resp {
            BatchedResponseItem::Single(ResponseItem::Block(block)) => block_turn(
                old(sync_state).seq_message_queue@,
                old(mempool).chain.tip,
                block.hash,
            ) is Disconnect ==> block.tx@.len() == 0,
            _ => true,
        },
    ensures
        final(mempool).wf(),
        final(sync_state).wf(),
        snapshot(*final(mempool), *final(sync_state)) == absorbed(snapshot(*old(mempool), *old(sync_state)), resp),
{
    match resp {
        BatchedResponseItem::BatchTx(txs) => {
            let ghost all = txs@;
            let mut txs = txs;
            let mut needed = linked_set_new();
            let ghost mut done: int = 0;
            assert(linked_ids(needed) =~= Seq::<Txid>::empty());
            assert(all.take(0) =~= Seq::<(Transaction, bool)>::empty());
            while txs.len() > 0
                invariant
                    0 <= done <= all.len(),
                    txs@ == all.skip(done),
                    sync_state.wf(),
                    sync_state.request_queue == old(sync_state).request_queue,
                    sync_state.seq_message_queue == old(sync_state).seq_message_queue,
                    sync_state.tx_cache@ == batch_cache(old(sync_state).tx_cache@, all.take(done)),
                    linked_ids(needed) == batch_noted(old(sync_state).tx_cache@, all.take(done)),
                decreases txs@.len(),
            {
                let (tx, in_mempool) = txs.remove(0);
                proof {
                    assert(all.take(done + 1).drop_last() =~= all.take(done));
                    assert(all.take(done + 1).last() == all[done]);
                    assert(txs@ =~= all.skip(done + 1));
                    assert((tx, in_mempool) == all[done]);
                }
                if in_mempool {
                    note_uncached_inputs(&mut needed, &tx, &sync_state.tx_cache);
                }
                handle_resp_tx(sync_state, tx);
                proof {
                    done = done + 1;
                }
            }
            assert(all.take(done) =~= all);
            request_needed(&mut sync_state.request_queue, needed);
        },
        BatchedResponseItem::Single(ResponseItem::Block(block)) => {
            handle_resp_block(mempool, sync_state, block);
        },
        BatchedResponseItem::Single(ResponseItem::Tx(tx, in_mempool)) => {
            let mut needed = linked_set_new();
            assert(linked_ids(needed) =~= Seq::<Txid>::empty());
            if in_mempool {
                note_uncached_inputs(&mut needed, &tx, &sync_state.tx_cache);
            }
            handle_resp_tx(sync_state, tx);
            request_needed(&mut sync_state.request_queue, needed);
        },
    }
}

} // verus!
