//! What the handlers' contracts add up to.

use vstd::prelude::*;
use crate::actor::{applied_run, drained, net_content, stalled, stepped};
use crate::mempool::{Mempool, MempoolEntry};
use crate::request_queue::{
    lemma_index_of_unique,
    lemma_pushed_front_keeps_order,
    lemma_pushed_front_no_duplicates,
    lemma_without,
    lemma_without_pushed_front_other,
    lemma_without_pushed_front_same,
    pushed_front,
    without,
};
use crate::fee::{fee_outlook, missing_sources, source_tx, FeeOutlook};
use crate::sync::queue_after_stall;
use crate::types::OutPoint;
use crate::response::{absorbed, block_turn, noted, snapshot, BlockTurn, Snapshot};
use crate::state::{filed_by_id, SyncState};
use crate::sync::{applicable, fronted, queue_after_message};
use crate::types::{
    BatchedResponseItem,
    Block,
    BlockHash,
    Hash256,
    RequestItem,
    ResponseItem,
    SequenceMessage,
    Transaction,
    Txid,
};

verus! {

/// A request that is put first is first, occurs nowhere else, and every
/// other pending request stays pending behind it.
pub proof fn lemma_pushed_front_leads(q: Seq<RequestItem>, item: RequestItem)
    requires
        q.no_duplicates(),
    ensures
        pushed_front(q, item).len() > 0,
        pushed_front(q, item)[0] == item,
        pushed_front(q, item).skip(1) == without(q, item),
        !pushed_front(q, item).skip(1).contains(item),
        forall|other: RequestItem|
            other != item && q.contains(other) ==> #[trigger] pushed_front(q, item).skip(1).contains(other),
{
    lemma_without(q, item);
    assert(pushed_front(q, item).skip(1) =~= without(q, item));
}

/// Where the sources of a transaction are requested with priority, the
/// first of them is the next fetch, whatever was pending before.
pub proof fn lemma_fronted_leads(q: Seq<RequestItem>, ids: Seq<Txid>)
    requires
        ids.len() > 0,
    ensures
        fronted(q, ids).len() > 0,
        fronted(q, ids)[0] == RequestItem::Tx(ids[0], false),
{
}

/// Priority requests withdraw nothing that was pending.
pub proof fn lemma_fronted_keeps(q: Seq<RequestItem>, ids: Seq<Txid>, x: RequestItem)
    requires
        q.no_duplicates(),
        q.contains(x),
    ensures
        fronted(q, ids).contains(x),
    decreases ids.len(),
{
    if ids.len() > 0 {
        let inner = fronted(q, ids.drop_first());
        let first = RequestItem::Tx(ids[0], false);
        lemma_fronted_keeps(q, ids.drop_first(), x);
        lemma_fronted_no_duplicates(q, ids.drop_first());
        lemma_without(inner, first);
        let r = pushed_front(inner, first);
        if x == first {
            assert(r[0] == x);
        } else {
            let w = without(inner, first);
            assert(w.contains(x));
            let k = w.index_of(x);
            assert(0 <= k < w.len() && w[k] == x);
            assert(r[k + 1] == x);
        }
    }
}

/// Each source that is requested with priority is fetched before every
/// request that was pending and is not such a source itself.
pub proof fn lemma_fronted_precedes(q: Seq<RequestItem>, ids: Seq<Txid>, j: int, x: RequestItem)
    requires
        q.no_duplicates(),
        0 <= j < ids.len(),
        q.contains(x),
        forall|k: int| 0 <= k < ids.len() ==> x != RequestItem::Tx(#[trigger] ids[k], false),
    ensures
        fronted(q, ids).contains(RequestItem::Tx(ids[j], false)),
        fronted(q, ids).contains(x),
        fronted(q, ids).index_of(RequestItem::Tx(ids[j], false)) < fronted(q, ids).index_of(x),
    decreases ids.len(),
{
    let tail = ids.drop_first();
    let inner = fronted(q, tail);
    let first = RequestItem::Tx(ids[0], false);
    let source = RequestItem::Tx(ids[j], false);
    let r = fronted(q, ids);
    lemma_fronted_no_duplicates(q, tail);
    lemma_fronted_no_duplicates(q, ids);
    lemma_fronted_keeps(q, tail, x);
    lemma_fronted_keeps(q, ids, x);
    assert(x != first);
    if source == first {
        assert(r[0] == source);
        lemma_index_of_unique(r, 0);
        let k = r.index_of(x);
        assert(r[k] == x);
    } else {
        assert(tail[j - 1] == ids[j]);
        assert forall|k: int| 0 <= k < tail.len() implies x != RequestItem::Tx(#[trigger] tail[k], false) by {
            assert(tail[k] == ids[k + 1]);
        }
        lemma_fronted_precedes(q, tail, j - 1, x);
        lemma_pushed_front_keeps_order(inner, first, source, x);
    }
}

/// Every uncached transaction that `inputs` spend from is noted.
pub proof fn lemma_uncached_input_is_noted(
    acc: Seq<Txid>,
    inputs: Seq<OutPoint>,
    cache: Map<Hash256, Transaction>,
    i: int,
)
    requires
        0 <= i < inputs.len(),
        !cache.contains_key(inputs[i].txid),
    ensures
        noted(acc, inputs, cache).contains(inputs[i].txid),
    decreases inputs.len(),
{
    let rest = noted(acc, inputs.drop_last(), cache);
    let all = noted(acc, inputs, cache);
    let id = inputs[i].txid;
    if i < inputs.len() - 1 {
        assert(inputs.drop_last()[i] == inputs[i]);
        lemma_uncached_input_is_noted(acc, inputs.drop_last(), cache, i);
        let k = rest.index_of(id);
        assert(all[k] == id);
    } else if !rest.contains(id) {
        assert(all == rest.push(id));
        assert(all[rest.len() as int] == id);
    }
}

/// When a transaction wanted in the mempool arrives and spends from a
/// transaction that is not cached, that source is fetched before every
/// request that was pending, other than the priority requests for the
/// sources of the same transaction.
pub proof fn lemma_unresolved_source_is_fetched_first(a: Snapshot, tx: Transaction, i: int, x: RequestItem)
    requires
        a.queue.no_duplicates(),
        0 <= i < tx.inputs@.len(),
        !a.cache.contains_key(tx.inputs@[i].txid),
        a.queue.contains(x),
        forall|k: int|
            0 <= k < noted(Seq::empty(), tx.inputs@, a.cache).len() ==> x != RequestItem::Tx(
                #[trigger] noted(Seq::empty(), tx.inputs@, a.cache)[k],
                false,
            ),
    ensures
        ({
            let after = absorbed(a, BatchedResponseItem::Single(ResponseItem::Tx(tx, true))).queue;
            let source = RequestItem::Tx(tx.inputs@[i].txid, false);
            after.contains(source) && after.contains(x) && after.index_of(source) < after.index_of(x)
        }),
{
    let ids = noted(Seq::empty(), tx.inputs@, a.cache);
    lemma_uncached_input_is_noted(Seq::empty(), tx.inputs@, a.cache, i);
    let j = ids.index_of(tx.inputs@[i].txid);
    lemma_fronted_precedes(a.queue, ids, j, x);
}

/// Priority requests keep the queue free of repeats.
pub proof fn lemma_fronted_no_duplicates(q: Seq<RequestItem>, ids: Seq<Txid>)
    requires
        q.no_duplicates(),
    ensures
        fronted(q, ids).no_duplicates(),
    decreases ids.len(),
{
    if ids.len() > 0 {
        lemma_fronted_no_duplicates(q, ids.drop_first());
        lemma_pushed_front_no_duplicates(fronted(q, ids.drop_first()), RequestItem::Tx(ids[0], false));
    }
}

/// Priority requests leave the requests that were pending, and are not
/// among them, in the order they were in.
pub proof fn lemma_fronted_keeps_order(q: Seq<RequestItem>, ids: Seq<Txid>, x: RequestItem, y: RequestItem)
    requires
        q.no_duplicates(),
        q.contains(x),
        q.contains(y),
        q.index_of(x) < q.index_of(y),
        forall|k: int| 0 <= k < ids.len() ==> x != RequestItem::Tx(#[trigger] ids[k], false),
        forall|k: int| 0 <= k < ids.len() ==> y != RequestItem::Tx(#[trigger] ids[k], false),
    ensures
        fronted(q, ids).contains(x),
        fronted(q, ids).contains(y),
        fronted(q, ids).index_of(x) < fronted(q, ids).index_of(y),
    decreases ids.len(),
{
    if ids.len() > 0 {
        let tail = ids.drop_first();
        let first = RequestItem::Tx(ids[0], false);
        assert forall|k: int| 0 <= k < tail.len() implies x != RequestItem::Tx(#[trigger] tail[k], false) by {
            assert(tail[k] == ids[k + 1]);
        }
        assert forall|k: int| 0 <= k < tail.len() implies y != RequestItem::Tx(#[trigger] tail[k], false) by {
            assert(tail[k] == ids[k + 1]);
        }
        lemma_fronted_keeps_order(q, tail, x, y);
        lemma_fronted_no_duplicates(q, tail);
        assert(x != first);
        assert(y != first);
        lemma_pushed_front_keeps_order(fronted(q, tail), first, x, y);
    }
}

/// When a transaction wanted in the mempool arrives, the requests that
/// were pending, other than the priority requests for its sources, stay in
/// the order they were in.
pub proof fn lemma_pending_keep_order_after_response(a: Snapshot, tx: Transaction, x: RequestItem, y: RequestItem)
    requires
        a.queue.no_duplicates(),
        a.queue.contains(x),
        a.queue.contains(y),
        a.queue.index_of(x) < a.queue.index_of(y),
        forall|k: int|
            0 <= k < noted(Seq::empty(), tx.inputs@, a.cache).len() ==> x != RequestItem::Tx(
                #[trigger] noted(Seq::empty(), tx.inputs@, a.cache)[k],
                false,
            ),
        forall|k: int|
            0 <= k < noted(Seq::empty(), tx.inputs@, a.cache).len() ==> y != RequestItem::Tx(
                #[trigger] noted(Seq::empty(), tx.inputs@, a.cache)[k],
                false,
            ),
    ensures
        ({
            let after = absorbed(a, BatchedResponseItem::Single(ResponseItem::Tx(tx, true))).queue;
            after.contains(x) && after.contains(y) && after.index_of(x) < after.index_of(y)
        }),
{
    lemma_fronted_keeps_order(a.queue, noted(Seq::empty(), tx.inputs@, a.cache), x, y);
}

/// Where no notification is waiting, handling a response completes and
/// does no more than take the response in.
pub proof fn lemma_response_with_nothing_waiting(a: Snapshot, resp: BatchedResponseItem, b: Snapshot, completed: bool)
    requires
        a.seq.len() == 0,
        drained(absorbed(a, resp), b, completed),
    ensures
        completed,
        b == absorbed(a, resp),
{
}

/// The request queue of a well-formed state holds no request twice, so
/// that what is proved here of queues without repeats holds of it.
pub proof fn lemma_state_queue_no_duplicates(mempool: Mempool, sync_state: SyncState)
    requires
        sync_state.wf(),
    ensures
        snapshot(mempool, sync_state).queue.no_duplicates(),
{
    sync_state.request_queue.lemma_wf_no_duplicates();
}

/// Where the policy accepts every transaction, the mempool holds, after
/// the `n` oldest notifications were applied, exactly the transactions
/// that it held or that were added, less those removed afterwards. Fetched
/// data and the order of its arrival have no part in this.
pub proof fn lemma_accepting_run_content(a: Snapshot, b: Snapshot, n: nat)
    requires
        filed_by_id(a.cache),
        applied_run(a, b, n, true),
    ensures
        n <= a.seq.len(),
        b.seq == a.seq.skip(n as int),
        b.cache == a.cache,
        b.txs.dom() == net_content(a.seq.take(n as int), a.txs.dom()),
    decreases n,
{
    if n == 0 {
        assert(a.seq.skip(0) =~= a.seq);
        assert(a.seq.take(0) =~= Seq::<SequenceMessage>::empty());
    } else {
        let m = choose|m: Snapshot| applied_run(a, m, (n - 1) as nat, true) && #[trigger] stepped(m, b, true);
        lemma_accepting_run_content(a, m, (n - 1) as nat);
        assert(b.seq =~= a.seq.skip(n as int));
        assert(a.seq.take(n as int).drop_last() =~= a.seq.take(n - 1));
        assert(a.seq.take(n as int).last() == m.seq[0]);
        match m.seq[0] {
            SequenceMessage::TxHashAdded { txid, .. } => {
                assert(m.cache.contains_key(txid));
                assert(m.cache[txid].txid == txid);
            },
            _ => {},
        }
        assert(b.txs.dom() =~= net_content(a.seq.take(n as int), a.txs.dom()));
    }
}

/// A run in which the policy accepts every transaction is a run.
pub proof fn lemma_accepting_run_is_run(a: Snapshot, b: Snapshot, n: nat)
    requires
        applied_run(a, b, n, true),
    ensures
        applied_run(a, b, n, false),
    decreases n,
{
    if n > 0 {
        let m = choose|m: Snapshot| applied_run(a, m, (n - 1) as nat, true) && #[trigger] stepped(m, b, true);
        lemma_accepting_run_is_run(a, m, (n - 1) as nat);
        assert(stepped(m, b, false));
    }
}

/// Whether a request was put first before the priority requests were made
/// cannot be told once it is taken out after them.
proof fn lemma_fronted_forgets(q: Seq<RequestItem>, x: RequestItem, ids: Seq<Txid>)
    requires
        q.no_duplicates(),
    ensures
        without(fronted(pushed_front(q, x), ids), x) == without(fronted(q, ids), x),
    decreases ids.len(),
{
    lemma_pushed_front_no_duplicates(q, x);
    if ids.len() == 0 {
        lemma_without_pushed_front_same(q, x);
    } else {
        let first = RequestItem::Tx(ids[0], false);
        let a = fronted(pushed_front(q, x), ids.drop_first());
        let b = fronted(q, ids.drop_first());
        lemma_fronted_forgets(q, x, ids.drop_first());
        lemma_fronted_no_duplicates(pushed_front(q, x), ids.drop_first());
        lemma_fronted_no_duplicates(q, ids.drop_first());
        if first == x {
            lemma_without_pushed_front_same(a, x);
            lemma_without_pushed_front_same(b, x);
        } else {
            lemma_without_pushed_front_other(a, first, x);
            lemma_without_pushed_front_other(b, first, x);
        }
    }
}

/// A priority request that is made anyway changes nothing if it was made
/// before as well.
proof fn lemma_fronted_absorbs(q: Seq<RequestItem>, ids: Seq<Txid>, j: int)
    requires
        q.no_duplicates(),
        0 <= j < ids.len(),
    ensures
        fronted(pushed_front(q, RequestItem::Tx(ids[j], false)), ids) == fronted(q, ids),
    decreases ids.len(),
{
    let x = RequestItem::Tx(ids[j], false);
    let first = RequestItem::Tx(ids[0], false);
    if first == x {
        lemma_fronted_forgets(q, x, ids.drop_first());
    } else {
        assert(ids.drop_first()[j - 1] == ids[j]);
        lemma_fronted_absorbs(q, ids.drop_first(), j - 1);
    }
}

proof fn lemma_fronted_twice_from(q: Seq<RequestItem>, ids: Seq<Txid>, k: int)
    requires
        q.no_duplicates(),
        0 <= k <= ids.len(),
    ensures
        fronted(fronted(q, ids.skip(k)), ids) == fronted(q, ids),
    decreases ids.len() - k,
{
    if k < ids.len() {
        lemma_fronted_twice_from(q, ids, k + 1);
        assert(ids.skip(k).drop_first() =~= ids.skip(k + 1));
        assert(ids.skip(k)[0] == ids[k]);
        lemma_fronted_no_duplicates(q, ids.skip(k + 1));
        lemma_fronted_absorbs(fronted(q, ids.skip(k + 1)), ids, k);
    }
}

/// Making the same priority requests a second time leaves the queue as the
/// first time left it.
pub proof fn lemma_fronted_twice(q: Seq<RequestItem>, ids: Seq<Txid>)
    requires
        q.no_duplicates(),
    ensures
        fronted(fronted(q, ids), ids) == fronted(q, ids),
{
    lemma_fronted_twice_from(q, ids, 0);
    assert(ids.skip(0) =~= ids);
}

/// An attempt that makes no progress leaves a state on which the next
/// attempt makes none either and changes nothing at all: not the mempool,
/// not the notifications, not the cache, and not the request queue.
pub proof fn lemma_no_progress_is_idempotent(
    q: Seq<RequestItem>,
    seq: Seq<SequenceMessage>,
    tip: BlockHash,
    blocks: Map<Hash256, Block>,
    cache: Map<Hash256, Transaction>,
    pool: Map<Hash256, MempoolEntry>,
)
    requires
        q.no_duplicates(),
        !applicable(seq, tip, blocks, cache, pool),
    ensures
        queue_after_stall(queue_after_stall(q, seq, cache, pool), seq, cache, pool) == queue_after_stall(
            q,
            seq,
            cache,
            pool,
        ),
{
    if seq.len() > 0 {
        match seq[0] {
            SequenceMessage::TxHashAdded { txid, .. } => match fee_outlook(txid, cache, pool) {
                FeeOutlook::Missing(ids) => {
                    lemma_fronted_twice(q, ids);
                },
                _ => {},
            },
            _ => {},
        }
    }
}

/// Once notifications were applied until none could be, applying again
/// changes nothing: whatever state a second run leaves is the state that
/// the first one left, and the second run completes.
pub proof fn lemma_drain_twice(a: Snapshot, b: Snapshot, c: Snapshot, completed: bool)
    requires
        a.queue.no_duplicates(),
        drained(a, b, true),
        drained(b, c, completed),
    ensures
        completed,
        c == b,
{
    lemma_no_progress_is_idempotent(a.queue, b.seq, b.tip, b.blocks, b.cache, b.txs);
}

/// While the oldest unapplied notification connects the block `first`, the
/// arrival of any other block takes no transaction out of the mempool and
/// moves no tip: blocks are connected in the order of their notifications.
pub proof fn lemma_connections_in_order(
    a: Snapshot,
    first: BlockHash,
    height: u32,
    other: Block,
    b: Snapshot,
    completed: bool,
)
    requires
        a.seq.len() > 0,
        a.seq[0] == SequenceMessage::BlockHashConnected(first, height),
        other.hash != first,
        drained(absorbed(a, BatchedResponseItem::Single(ResponseItem::Block(other))), b, completed),
    ensures
        block_turn(a.seq, a.tip, other.hash) is Wait,
        completed,
        b.txs == a.txs,
        b.tip == a.tip,
        b.seq == a.seq,
        b.blocks == a.blocks.insert(other.hash, other),
{
}

/// Once a transaction is reported as removed, no fetch of it for the
/// mempool is pending.
pub proof fn lemma_removal_withdraws_request(
    q: Seq<RequestItem>,
    txid: Txid,
    mempool_seq: u64,
    zmq_seq: u32,
    blocks: Map<Hash256, Block>,
)
    requires
        q.no_duplicates(),
    ensures
        !queue_after_message(q, SequenceMessage::TxHashRemoved { txid, mempool_seq, zmq_seq }, blocks).contains(
            RequestItem::Tx(txid, true),
        ),
{
    lemma_without(q, RequestItem::Tx(txid, true));
}

/// The removal of a transaction that is not in the mempool cannot be
/// applied: an attempt on it reports no progress and changes nothing.
pub proof fn lemma_stale_removal_stalls(
    seq: Seq<SequenceMessage>,
    tip: BlockHash,
    blocks: Map<Hash256, Block>,
    cache: Map<Hash256, Transaction>,
    pool: Map<Hash256, MempoolEntry>,
    txid: Txid,
    mempool_seq: u64,
    zmq_seq: u32,
)
    requires
        seq.len() > 0,
        seq[0] == (SequenceMessage::TxHashRemoved { txid, mempool_seq, zmq_seq }),
        !pool.contains_key(txid),
    ensures
        !applicable(seq, tip, blocks, cache, pool),
{
}

/// A transaction that spends from an unknown transaction has that
/// transaction among its missing sources.
pub proof fn lemma_unknown_source_is_missing(
    inputs: Seq<OutPoint>,
    cache: Map<Hash256, Transaction>,
    pool: Map<Hash256, MempoolEntry>,
    i: int,
)
    requires
        0 <= i < inputs.len(),
        source_tx(inputs[i].txid, cache, pool) is None,
    ensures
        missing_sources(inputs, cache, pool).contains(inputs[i].txid),
        missing_sources(inputs, cache, pool).len() > 0,
    decreases inputs.len(),
{
    let all = missing_sources(inputs, cache, pool);
    let rest = missing_sources(inputs.drop_last(), cache, pool);
    if i == inputs.len() - 1 {
        assert(all == rest.push(inputs[i].txid));
        assert(all[rest.len() as int] == inputs[i].txid);
    } else {
        assert(inputs.drop_last()[i] == inputs[i]);
        lemma_unknown_source_is_missing(inputs.drop_last(), cache, pool, i);
        let k = rest.index_of(inputs[i].txid);
        assert(all[k] == inputs[i].txid);
    }
}

/// A transaction one of whose sources is neither cached nor in the mempool
/// cannot be added: the notification that adds it waits, and an attempt on
/// it fails nothing and changes nothing but the request queue.
pub proof fn lemma_unresolved_addition_waits(
    seq: Seq<SequenceMessage>,
    tip: BlockHash,
    blocks: Map<Hash256, Block>,
    cache: Map<Hash256, Transaction>,
    pool: Map<Hash256, MempoolEntry>,
    txid: Txid,
    mempool_seq: u64,
    zmq_seq: u32,
    i: int,
)
    requires
        seq.len() > 0,
        seq[0] == (SequenceMessage::TxHashAdded { txid, mempool_seq, zmq_seq }),
        cache.contains_key(txid),
        0 <= i < cache[txid].inputs@.len(),
        source_tx(cache[txid].inputs@[i].txid, cache, pool) is None,
    ensures
        !applicable(seq, tip, blocks, cache, pool),
        fee_outlook(txid, cache, pool) is Missing,
{
    lemma_unknown_source_is_missing(cache[txid].inputs@, cache, pool, i);
}

/// Whether a notification can be applied does not depend on the request
/// queue: after an attempt that made no progress, which changes nothing
/// else, the next attempt makes none either.
pub proof fn lemma_stall_persists(mempool: Mempool, before: SyncState, after: SyncState)
    requires
        stalled(snapshot(mempool, before)),
        after.seq_message_queue@ == before.seq_message_queue@,
        after.tx_cache@ == before.tx_cache@,
    ensures
        stalled(snapshot(mempool, after)),
{
}

} // verus!
