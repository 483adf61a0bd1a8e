use mempool_sync::actor::{apply_until_stalled, can_handle, handle_resp, task_step, CombinedStreamItem};
use mempool_sync::fee::{resolve_fee, FeeResolution};
use mempool_sync::mempool::Mempool;
use mempool_sync::response::{absorb_response, handle_resp_block, handle_resp_tx};
use mempool_sync::state::{CusfEnforcer, RequestError, SequenceStreamError, SyncState, SyncTaskError};
use mempool_sync::sync::{handle_seq_message, push_front_all, settle_admission, try_add_tx_from_cache, try_apply_next_seq_message};
use mempool_sync::types::{
    BatchedResponseItem, Block, Hash256, OutPoint, RequestItem, ResponseItem, SequenceMessage, Transaction,
};

struct AcceptAll;

impl CusfEnforcer for AcceptAll {
    type AcceptTxError = String;

    fn accept_tx(&mut self, _tx: &Transaction) -> Result<bool, String> {
        Ok(true)
    }
}

struct RejectAll;

impl CusfEnforcer for RejectAll {
    type AcceptTxError = String;

    fn accept_tx(&mut self, _tx: &Transaction) -> Result<bool, String> {
        Ok(false)
    }
}

struct Broken;

impl CusfEnforcer for Broken {
    type AcceptTxError = String;

    fn accept_tx(&mut self, _tx: &Transaction) -> Result<bool, String> {
        Err(String::from("policy down"))
    }
}

fn h(n: u128) -> Hash256 {
    Hash256 { hi: 0, lo: n }
}

fn tx(id: u128, inputs: Vec<(u128, u32)>, outputs: Vec<u64>) -> Transaction {
    Transaction {
        txid: h(id),
        inputs: inputs.into_iter().map(|(t, vout)| OutPoint { txid: h(t), vout }).collect(),
        outputs,
    }
}

fn added(id: u128) -> SequenceMessage {
    SequenceMessage::TxHashAdded { txid: h(id), mempool_seq: 0, zmq_seq: 0 }
}

fn removed(id: u128) -> SequenceMessage {
    SequenceMessage::TxHashRemoved { txid: h(id), mempool_seq: 0, zmq_seq: 0 }
}

fn single(t: Transaction, wanted: bool) -> BatchedResponseItem {
    BatchedResponseItem::Single(ResponseItem::Tx(t, wanted))
}

fn block(hash: u128, parent: Option<u128>, txs: Vec<u128>) -> Block {
    Block { hash: h(hash), previousblockhash: parent.map(h), tx: txs.into_iter().map(h).collect() }
}

/// A cache holding two funding transactions worth 5000 and 3000.
fn funded() -> (Mempool, SyncState) {
    let mempool = Mempool::new(h(0));
    let mut state = SyncState::new();
    handle_resp_tx(&mut state, tx(100, vec![], vec![5000]));
    handle_resp_tx(&mut state, tx(101, vec![], vec![1, 3000]));
    (mempool, state)
}

#[test]
fn fee_is_inputs_less_outputs() {
    let (mempool, mut state) = funded();
    handle_resp_tx(&mut state, tx(1, vec![(100, 0), (101, 1)], vec![4000, 3000]));
    match resolve_fee(&state.tx_cache, &mempool.txs, h(1)) {
        FeeResolution::Ready(fee) => assert_eq!(fee, 1000),
        other => panic!("unexpected {:?}", other),
    }
}

#[test]
fn admitted_transaction_carries_its_fee() {
    let (mut mempool, mut state) = funded();
    handle_seq_message(&mempool, &mut state, added(1));
    let r = handle_resp(&mut AcceptAll, &mut mempool, &mut state, single(tx(1, vec![(100, 0), (101, 1)], vec![7000]), true));
    assert!(r.is_ok());
    assert_eq!(mempool.fee_delta(h(1)), Some(1000));
    assert_eq!(mempool.txs.get(h(1)).unwrap().tx.outputs, vec![7000]);
    assert_eq!(state.seq_message_queue.len(), 0);
}

#[test]
fn source_found_in_mempool_counts() {
    let mut mempool = Mempool::new(h(0));
    let mut state = SyncState::new();
    mempool.insert(tx(50, vec![], vec![900]), 10);
    handle_resp_tx(&mut state, tx(2, vec![(50, 0)], vec![100]));
    assert!(matches!(resolve_fee(&state.tx_cache, &mempool.txs, h(2)), FeeResolution::Ready(800)));
}

#[test]
fn unresolvable_input_keeps_transaction_pending() {
    let mut mempool = Mempool::new(h(0));
    let mut state = SyncState::new();
    handle_seq_message(&mempool, &mut state, added(1));
    let r = handle_resp(&mut AcceptAll, &mut mempool, &mut state, single(tx(1, vec![(77, 0)], vec![10]), true));
    assert!(r.is_ok());
    assert_eq!(mempool.fee_delta(h(1)), None);
    assert_eq!(state.seq_message_queue.len(), 1);
    for _ in 0..3 {
        let again = apply_until_stalled(&mut AcceptAll, &mut mempool, &mut state);
        assert!(again.is_ok());
        assert_eq!(mempool.fee_delta(h(1)), None);
        assert_eq!(state.seq_message_queue.len(), 1);
        assert_eq!(state.request_queue.front(), Some(RequestItem::Tx(h(77), false)));
    }
}

#[test]
fn not_cached_is_no_progress() {
    let mut mempool = Mempool::new(h(0));
    let mut state = SyncState::new();
    let r = try_add_tx_from_cache(&mut AcceptAll, &mut mempool, &mut state, &h(9));
    assert!(matches!(r, Ok(false)));
    assert!(matches!(resolve_fee(&state.tx_cache, &mempool.txs, h(9)), FeeResolution::NotCached));
    assert_eq!(state.request_queue.len(), 0);
}

#[test]
fn all_missing_inputs_are_collected_in_one_pass() {
    let (mempool, mut state) = funded();
    handle_resp_tx(&mut state, tx(1, vec![(70, 0), (100, 0), (71, 2), (70, 1)], vec![1]));
    match resolve_fee(&state.tx_cache, &mempool.txs, h(1)) {
        FeeResolution::Missing(ids) => assert_eq!(ids, vec![h(70), h(71), h(70)]),
        other => panic!("unexpected {:?}", other),
    }
}

#[test]
fn outputs_above_inputs_is_fee_overflow() {
    let (mut mempool, mut state) = funded();
    handle_resp_tx(&mut state, tx(1, vec![(100, 0)], vec![5001]));
    let r = try_add_tx_from_cache(&mut AcceptAll, &mut mempool, &mut state, &h(1));
    assert!(matches!(r, Err(SyncTaskError::FeeOverflow)));
    assert_eq!(mempool.fee_delta(h(1)), None);
}

#[test]
fn inputs_beyond_amount_range_is_fee_overflow() {
    let mut mempool = Mempool::new(h(0));
    let mut state = SyncState::new();
    handle_resp_tx(&mut state, tx(100, vec![], vec![u64::MAX, 1]));
    handle_resp_tx(&mut state, tx(1, vec![(100, 0), (100, 1)], vec![5]));
    assert!(matches!(resolve_fee(&state.tx_cache, &mempool.txs, h(1)), FeeResolution::Unpayable));
    let r = try_add_tx_from_cache(&mut AcceptAll, &mut mempool, &mut state, &h(1));
    assert!(matches!(r, Err(SyncTaskError::FeeOverflow)));
}

#[test]
fn spending_an_output_that_does_not_exist_is_fee_overflow() {
    let (mut mempool, mut state) = funded();
    handle_resp_tx(&mut state, tx(1, vec![(100, 1)], vec![5]));
    let r = try_add_tx_from_cache(&mut AcceptAll, &mut mempool, &mut state, &h(1));
    assert!(matches!(r, Err(SyncTaskError::FeeOverflow)));
}

#[test]
fn zero_fee_is_ready() {
    let (mempool, mut state) = funded();
    handle_resp_tx(&mut state, tx(1, vec![(100, 0)], vec![5000]));
    assert!(matches!(resolve_fee(&state.tx_cache, &mempool.txs, h(1)), FeeResolution::Ready(0)));
}

#[test]
fn rejected_transaction_is_dealt_with_but_not_admitted() {
    let (mut mempool, mut state) = funded();
    handle_seq_message(&mempool, &mut state, added(1));
    let r = handle_resp(&mut RejectAll, &mut mempool, &mut state, single(tx(1, vec![(100, 0)], vec![1]), true));
    assert!(r.is_ok());
    assert_eq!(mempool.fee_delta(h(1)), None);
    assert_eq!(state.seq_message_queue.len(), 0);
}

#[test]
fn policy_failure_ends_the_actor() {
    let (mut mempool, mut state) = funded();
    handle_seq_message(&mempool, &mut state, added(1));
    let r = handle_resp(&mut Broken, &mut mempool, &mut state, single(tx(1, vec![(100, 0)], vec![1]), true));
    match r {
        Err(SyncTaskError::CusfEnforcer(e)) => assert_eq!(e, "policy down"),
        _ => panic!("expected a policy error"),
    }
    assert_eq!(mempool.fee_delta(h(1)), None);
    assert_eq!(state.seq_message_queue.len(), 1);
}

#[test]
fn settle_admission_follows_the_decision() {
    let mut mempool = Mempool::new(h(0));
    let r = settle_admission::<AcceptAll>(&mut mempool, tx(1, vec![], vec![1]), 7, Ok(true));
    assert!(matches!(r, Ok(true)));
    assert_eq!(mempool.fee_delta(h(1)), Some(7));
    let r = settle_admission::<AcceptAll>(&mut mempool, tx(2, vec![], vec![1]), 8, Ok(false));
    assert!(matches!(r, Ok(true)));
    assert_eq!(mempool.fee_delta(h(2)), None);
    let r = settle_admission::<AcceptAll>(&mut mempool, tx(3, vec![], vec![1]), 9, Err(String::from("no")));
    assert!(matches!(r, Err(SyncTaskError::CusfEnforcer(_))));
    assert_eq!(mempool.fee_delta(h(3)), None);
}

#[test]
fn notifications_adjust_the_request_queue() {
    let mut mempool = Mempool::new(h(0));
    let mut state = SyncState::new();
    handle_seq_message(&mempool, &mut state, SequenceMessage::BlockHashConnected(h(10), 1));
    handle_seq_message(&mempool, &mut state, added(1));
    handle_seq_message(&mempool, &mut state, SequenceMessage::BlockHashDisconnected(h(11), 2));
    assert_eq!(
        state.request_queue.to_vec(),
        vec![RequestItem::Block(h(10)), RequestItem::Tx(h(1), true), RequestItem::Block(h(11))]
    );
    assert_eq!(state.seq_message_queue.len(), 3);
    assert_eq!(state.seq_message_queue[1], added(1));
    // a disconnected block that is at hand is not requested again
    mempool.chain.blocks.insert(h(12), block(12, None, vec![]));
    handle_seq_message(&mempool, &mut state, SequenceMessage::BlockHashDisconnected(h(12), 3));
    assert_eq!(state.request_queue.len(), 3);
    assert_eq!(state.seq_message_queue.len(), 4);
}

#[test]
fn removal_withdraws_the_pending_fetch() {
    let mempool = Mempool::new(h(0));
    let mut state = SyncState::new();
    handle_seq_message(&mempool, &mut state, added(1));
    handle_seq_message(&mempool, &mut state, added(2));
    handle_seq_message(&mempool, &mut state, removed(1));
    assert_eq!(state.request_queue.to_vec(), vec![RequestItem::Tx(h(2), true)]);
    assert_eq!(state.seq_message_queue.len(), 3);
}

#[test]
fn removal_leaves_a_priority_fetch_alone() {
    let mempool = Mempool::new(h(0));
    let mut state = SyncState::new();
    state.request_queue.push_back(RequestItem::Tx(h(1), false));
    handle_seq_message(&mempool, &mut state, removed(1));
    assert_eq!(state.request_queue.to_vec(), vec![RequestItem::Tx(h(1), false)]);
}

#[test]
fn stale_removal_is_no_progress_and_no_error() {
    let mut mempool = Mempool::new(h(0));
    let mut state = SyncState::new();
    handle_seq_message(&mempool, &mut state, removed(5));
    let r = try_apply_next_seq_message(&mut AcceptAll, &mut mempool, &mut state);
    assert!(matches!(r, Ok(false)));
    assert_eq!(state.seq_message_queue.len(), 1);
}

#[test]
fn removal_takes_the_transaction_out() {
    let mut mempool = Mempool::new(h(0));
    let mut state = SyncState::new();
    mempool.insert(tx(5, vec![], vec![1]), 3);
    handle_seq_message(&mempool, &mut state, removed(5));
    let r = try_apply_next_seq_message(&mut AcceptAll, &mut mempool, &mut state);
    assert!(matches!(r, Ok(true)));
    assert_eq!(mempool.fee_delta(h(5)), None);
    assert_eq!(state.seq_message_queue.len(), 0);
}

#[test]
fn empty_queue_and_connection_are_no_progress() {
    let mut mempool = Mempool::new(h(0));
    let mut state = SyncState::new();
    assert!(matches!(try_apply_next_seq_message(&mut AcceptAll, &mut mempool, &mut state), Ok(false)));
    handle_seq_message(&mempool, &mut state, SequenceMessage::BlockHashConnected(h(10), 1));
    assert!(matches!(try_apply_next_seq_message(&mut AcceptAll, &mut mempool, &mut state), Ok(false)));
    assert_eq!(state.seq_message_queue.len(), 1);
}

#[test]
fn priority_requests_go_ahead_of_pending_ones() {
    let mut mempool = Mempool::new(h(0));
    let mut state = SyncState::new();
    handle_seq_message(&mempool, &mut state, added(1));
    handle_seq_message(&mempool, &mut state, added(2));
    absorb_response(&mut mempool, &mut state, single(tx(1, vec![(30, 0), (31, 0), (30, 1)], vec![1]), true));
    assert_eq!(
        state.request_queue.to_vec(),
        vec![
            RequestItem::Tx(h(30), false),
            RequestItem::Tx(h(31), false),
            RequestItem::Tx(h(1), true),
            RequestItem::Tx(h(2), true),
        ]
    );
}

#[test]
fn unwanted_transaction_requests_nothing() {
    let mut mempool = Mempool::new(h(0));
    let mut state = SyncState::new();
    absorb_response(&mut mempool, &mut state, single(tx(1, vec![(30, 0)], vec![1]), false));
    assert_eq!(state.request_queue.len(), 0);
    assert!(state.tx_cache.contains_key(h(1)));
}

#[test]
fn batch_notes_each_uncached_source_once() {
    let mut mempool = Mempool::new(h(0));
    let mut state = SyncState::new();
    state.request_queue.push_back(RequestItem::Block(h(9)));
    let batch = vec![
        (tx(1, vec![(40, 0), (41, 0)], vec![1]), true),
        (tx(2, vec![(41, 1), (1, 0), (42, 0)], vec![1]), true),
        (tx(3, vec![(43, 0)], vec![1]), false),
        (tx(4, vec![(40, 0), (44, 0)], vec![1]), true),
    ];
    absorb_response(&mut mempool, &mut state, BatchedResponseItem::BatchTx(batch));
    assert_eq!(
        state.request_queue.to_vec(),
        vec![
            RequestItem::Tx(h(40), false),
            RequestItem::Tx(h(41), false),
            RequestItem::Tx(h(42), false),
            RequestItem::Tx(h(44), false),
            RequestItem::Block(h(9)),
        ]
    );
    for id in 1..=4 {
        assert!(state.tx_cache.contains_key(h(id)));
    }
}

#[test]
fn push_front_all_puts_the_first_id_first() {
    let mut state = SyncState::new();
    state.request_queue.push_back(RequestItem::Tx(h(2), false));
    state.request_queue.push_back(RequestItem::Block(h(9)));
    push_front_all(&mut state.request_queue, &vec![h(1), h(2), h(3)]);
    assert_eq!(
        state.request_queue.to_vec(),
        vec![
            RequestItem::Tx(h(1), false),
            RequestItem::Tx(h(2), false),
            RequestItem::Tx(h(3), false),
            RequestItem::Block(h(9)),
        ]
    );
}

#[test]
fn second_attempt_after_no_progress_changes_nothing() {
    let mut mempool = Mempool::new(h(0));
    let mut state = SyncState::new();
    state.request_queue.push_back(RequestItem::Block(h(9)));
    handle_seq_message(&mempool, &mut state, added(1));
    handle_resp_tx(&mut state, tx(1, vec![(60, 0), (61, 0), (60, 1)], vec![1]));
    assert!(matches!(try_apply_next_seq_message(&mut AcceptAll, &mut mempool, &mut state), Ok(false)));
    let queue = state.request_queue.to_vec();
    assert_eq!(queue[0], RequestItem::Tx(h(60), false));
    assert_eq!(queue[1], RequestItem::Tx(h(61), false));
    assert!(matches!(try_apply_next_seq_message(&mut AcceptAll, &mut mempool, &mut state), Ok(false)));
    assert_eq!(state.request_queue.to_vec(), queue);
    assert_eq!(state.seq_message_queue.len(), 1);
    assert_eq!(mempool.fee_delta(h(1)), None);
}

#[test]
fn blocks_connect_in_notification_order() {
    let mut mempool = Mempool::new(h(0));
    let mut state = SyncState::new();
    mempool.insert(tx(1, vec![], vec![1]), 1);
    mempool.insert(tx(2, vec![], vec![1]), 1);
    handle_seq_message(&mempool, &mut state, SequenceMessage::BlockHashConnected(h(10), 1));
    handle_seq_message(&mempool, &mut state, SequenceMessage::BlockHashConnected(h(11), 2));
    // the second block arrives first: it is kept, nothing else happens
    handle_resp_block(&mut mempool, &mut state, block(11, Some(10), vec![2]));
    assert_eq!(mempool.fee_delta(h(1)), Some(1));
    assert_eq!(mempool.fee_delta(h(2)), Some(1));
    assert_eq!(mempool.chain.tip, h(0));
    assert!(mempool.chain.blocks.contains_key(h(11)));
    assert_eq!(state.seq_message_queue.len(), 2);
    // the first block arrives: its transactions leave, it becomes the tip
    handle_resp_block(&mut mempool, &mut state, block(10, Some(0), vec![1]));
    assert_eq!(mempool.fee_delta(h(1)), None);
    assert_eq!(mempool.fee_delta(h(2)), Some(1));
    assert_eq!(mempool.chain.tip, h(10));
    assert_eq!(state.seq_message_queue.len(), 1);
}

#[test]
fn connected_block_withdraws_fetches_of_its_transactions() {
    let mut mempool = Mempool::new(h(0));
    let mut state = SyncState::new();
    handle_seq_message(&mempool, &mut state, SequenceMessage::BlockHashConnected(h(10), 1));
    handle_seq_message(&mempool, &mut state, added(1));
    handle_seq_message(&mempool, &mut state, added(2));
    let r = handle_resp(
        &mut AcceptAll,
        &mut mempool,
        &mut state,
        BatchedResponseItem::Single(ResponseItem::Block(block(10, None, vec![1]))),
    );
    assert!(r.is_ok());
    assert_eq!(state.request_queue.to_vec(), vec![RequestItem::Block(h(10)), RequestItem::Tx(h(2), true)]);
    assert_eq!(mempool.chain.tip, h(10));
}

#[test]
fn disconnecting_the_tip_goes_back_to_the_parent() {
    let mut mempool = Mempool::new(h(10));
    let mut state = SyncState::new();
    mempool.insert(tx(1, vec![], vec![1]), 1);
    handle_seq_message(&mempool, &mut state, SequenceMessage::BlockHashDisconnected(h(10), 1));
    handle_resp_block(&mut mempool, &mut state, block(10, Some(9), vec![]));
    assert_eq!(mempool.chain.tip, h(9));
    assert_eq!(state.seq_message_queue.len(), 0);
    assert_eq!(mempool.fee_delta(h(1)), Some(1));
}

#[test]
fn disconnecting_a_block_without_parent_gives_the_zero_hash() {
    let mut mempool = Mempool::new(h(10));
    let mut state = SyncState::new();
    mempool.chain.blocks.insert(h(10), block(10, None, vec![]));
    handle_seq_message(&mempool, &mut state, SequenceMessage::BlockHashDisconnected(h(10), 1));
    assert_eq!(state.request_queue.len(), 0);
    let r = try_apply_next_seq_message(&mut AcceptAll, &mut mempool, &mut state);
    assert!(matches!(r, Ok(true)));
    assert_eq!(mempool.chain.tip, Hash256::all_zeros());
    assert_eq!(mempool.chain.tip, Hash256 { hi: 0, lo: 0 });
}

#[test]
fn disconnecting_a_block_that_is_not_the_tip_waits() {
    let mut mempool = Mempool::new(h(10));
    let mut state = SyncState::new();
    handle_seq_message(&mempool, &mut state, SequenceMessage::BlockHashDisconnected(h(11), 1));
    handle_resp_block(&mut mempool, &mut state, block(11, Some(9), vec![]));
    assert_eq!(mempool.chain.tip, h(10));
    assert_eq!(state.seq_message_queue.len(), 1);
    assert!(matches!(try_apply_next_seq_message(&mut AcceptAll, &mut mempool, &mut state), Ok(false)));
}

#[test]
fn dependent_transactions_are_admitted_in_notification_order() {
    let mut mempool = Mempool::new(h(0));
    let mut state = SyncState::new();
    mempool.insert(tx(90, vec![], vec![10_000]), 0);
    assert!(task_step(&mut AcceptAll, &mut mempool, &mut state, Some(CombinedStreamItem::ZmqSeq(Ok(added(1))))).is_ok());
    assert!(task_step(&mut AcceptAll, &mut mempool, &mut state, Some(CombinedStreamItem::ZmqSeq(Ok(added(2))))).is_ok());
    // t2 arrives first; it spends t1, which is not known yet
    let t2 = tx(2, vec![(1, 0)], vec![8_000]);
    assert!(task_step(&mut AcceptAll, &mut mempool, &mut state, Some(CombinedStreamItem::Response(Ok(single(t2, true))))).is_ok());
    assert_eq!(state.request_queue.front(), Some(RequestItem::Tx(h(1), false)));
    assert_eq!(mempool.fee_delta(h(1)), None);
    assert_eq!(mempool.fee_delta(h(2)), None);
    assert_eq!(state.seq_message_queue.len(), 2);
    // t1 arrives: both are admitted, t1 first
    let t1 = tx(1, vec![(90, 0)], vec![9_000]);
    assert!(task_step(&mut AcceptAll, &mut mempool, &mut state, Some(CombinedStreamItem::Response(Ok(single(t1, true))))).is_ok());
    assert_eq!(mempool.fee_delta(h(1)), Some(1_000));
    assert_eq!(mempool.fee_delta(h(2)), Some(1_000));
    assert_eq!(state.seq_message_queue.len(), 0);
}

#[test]
fn mempool_holds_what_was_added_and_not_removed() {
    for order in [[1u128, 2, 3], [3, 2, 1], [2, 3, 1]] {
        let mut mempool = Mempool::new(h(0));
        let mut state = SyncState::new();
        mempool.insert(tx(90, vec![], vec![100, 100, 100]), 0);
        for msg in [added(1), added(2), added(3), removed(2)] {
            handle_seq_message(&mempool, &mut state, msg);
        }
        for id in order {
            let t = tx(id, vec![(90, (id - 1) as u32)], vec![90]);
            assert!(handle_resp(&mut AcceptAll, &mut mempool, &mut state, single(t, true)).is_ok());
        }
        assert_eq!(mempool.fee_delta(h(1)), Some(10));
        assert_eq!(mempool.fee_delta(h(2)), None);
        assert_eq!(mempool.fee_delta(h(3)), Some(10));
        assert_eq!(state.seq_message_queue.len(), 0);
    }
}

#[test]
fn end_of_feeds_ends_the_actor() {
    let mut mempool = Mempool::new(h(0));
    let mut state = SyncState::new();
    let r = task_step(&mut AcceptAll, &mut mempool, &mut state, None);
    assert!(matches!(r, Err(SyncTaskError::CombinedStreamEnded)));
}

#[test]
fn feed_failures_end_the_actor() {
    let mut mempool = Mempool::new(h(0));
    let mut state = SyncState::new();
    let item = CombinedStreamItem::ZmqSeq(Err(SequenceStreamError { message: String::from("lost") }));
    match task_step(&mut AcceptAll, &mut mempool, &mut state, Some(item)) {
        Err(SyncTaskError::SequenceStream(e)) => assert_eq!(e.message, "lost"),
        _ => panic!("expected a feed error"),
    }
    let item = CombinedStreamItem::Response(Err(RequestError { message: String::from("timeout") }));
    match task_step(&mut AcceptAll, &mut mempool, &mut state, Some(item)) {
        Err(SyncTaskError::Request(e)) => assert_eq!(e.message, "timeout"),
        _ => panic!("expected a request error"),
    }
    assert_eq!(state.seq_message_queue.len(), 0);
    assert_eq!(state.request_queue.len(), 0);
}

struct Recording {
    seen: Vec<Hash256>,
}

impl CusfEnforcer for Recording {
    type AcceptTxError = String;

    fn accept_tx(&mut self, tx: &Transaction) -> Result<bool, String> {
        self.seen.push(tx.txid);
        Ok(true)
    }
}

#[test]
fn arrival_of_the_missing_link_admits_the_chain() {
    let mut mempool = Mempool::new(h(0));
    let mut state = SyncState::new();
    handle_resp_tx(&mut state, tx(100, vec![], vec![6000]));
    handle_resp_tx(&mut state, tx(2, vec![(1, 0)], vec![4000]));
    handle_seq_message(&mempool, &mut state, added(1));
    handle_seq_message(&mempool, &mut state, added(2));
    assert!(!state.request_queue.remove(RequestItem::Block(h(0))));
    assert!(state.request_queue.remove(RequestItem::Tx(h(1), true)));
    assert!(state.request_queue.remove(RequestItem::Tx(h(2), true)));
    let mut policy = Recording { seen: vec![] };
    let r = handle_resp(&mut policy, &mut mempool, &mut state, single(tx(1, vec![(100, 0)], vec![5000]), true));
    assert!(r.is_ok());
    assert_eq!(policy.seen, vec![h(1), h(2)]);
    assert_eq!(mempool.fee_delta(h(1)), Some(1000));
    assert_eq!(mempool.fee_delta(h(2)), Some(1000));
    assert_eq!(mempool.fee_delta(h(100)), None);
    assert_eq!(state.seq_message_queue.len(), 0);
    assert_eq!(state.request_queue.len(), 0);
}

#[test]
fn failure_leaves_the_addition_it_failed_on_at_the_front() {
    let (mut mempool, mut state) = funded();
    handle_seq_message(&mempool, &mut state, removed(9));
    mempool.insert(tx(9, vec![], vec![1]), 1);
    handle_seq_message(&mempool, &mut state, added(1));
    handle_seq_message(&mempool, &mut state, added(2));
    let queue = state.request_queue.to_vec();
    let r = handle_resp(&mut AcceptAll, &mut mempool, &mut state, single(tx(1, vec![(100, 0)], vec![5001]), true));
    assert!(matches!(r, Err(SyncTaskError::FeeOverflow)));
    assert_eq!(mempool.fee_delta(h(9)), None);
    assert_eq!(state.seq_message_queue.len(), 2);
    assert_eq!(state.seq_message_queue[0], added(1));
    assert_eq!(state.request_queue.to_vec(), queue);
}

#[test]
fn independent_additions_give_the_same_mempool_in_either_order() {
    let mut fees = Vec::new();
    for order in [[1u128, 2], [2, 1]] {
        let (mut mempool, mut state) = funded();
        handle_seq_message(&mempool, &mut state, added(1));
        handle_seq_message(&mempool, &mut state, added(2));
        for id in order {
            let t = if id == 1 { tx(1, vec![(100, 0)], vec![4000]) } else { tx(2, vec![(101, 1)], vec![2500]) };
            assert!(handle_resp(&mut AcceptAll, &mut mempool, &mut state, single(t, true)).is_ok());
        }
        assert_eq!(state.seq_message_queue.len(), 0);
        fees.push((mempool.fee_delta(h(1)), mempool.fee_delta(h(2))));
    }
    assert_eq!(fees[0], (Some(1000), Some(500)));
    assert_eq!(fees[0], fees[1]);
}

#[test]
fn pending_requests_keep_their_order_behind_priority_ones() {
    let mut mempool = Mempool::new(h(0));
    let mut state = SyncState::new();
    state.request_queue.push_back(RequestItem::Block(h(7)));
    state.request_queue.push_back(RequestItem::Tx(h(8), true));
    state.request_queue.push_back(RequestItem::Tx(h(31), false));
    state.request_queue.push_back(RequestItem::Block(h(9)));
    let r = handle_resp(&mut AcceptAll, &mut mempool, &mut state, single(tx(1, vec![(30, 0), (31, 0)], vec![1]), true));
    assert!(r.is_ok());
    assert_eq!(
        state.request_queue.to_vec(),
        vec![
            RequestItem::Tx(h(30), false),
            RequestItem::Tx(h(31), false),
            RequestItem::Block(h(7)),
            RequestItem::Tx(h(8), true),
            RequestItem::Block(h(9)),
        ]
    );
}

#[test]
fn disconnection_of_a_block_with_transactions_is_told_apart() {
    let mut mempool = Mempool::new(h(10));
    let mut state = SyncState::new();
    handle_seq_message(&mempool, &mut state, added(1));
    handle_seq_message(&mempool, &mut state, SequenceMessage::BlockHashDisconnected(h(10), 1));
    let with_txs = BatchedResponseItem::Single(ResponseItem::Block(block(10, Some(9), vec![5])));
    let without = BatchedResponseItem::Single(ResponseItem::Block(block(10, Some(9), vec![])));
    let other = BatchedResponseItem::Single(ResponseItem::Block(block(11, Some(9), vec![5])));
    assert!(!can_handle(&mempool, &state, &with_txs));
    assert!(can_handle(&mempool, &state, &without));
    assert!(can_handle(&mempool, &state, &other));
    mempool.chain.blocks.insert(h(10), block(10, Some(9), vec![5]));
    assert!(!can_handle(&mempool, &state, &other));
    assert!(!can_handle(&mempool, &state, &single(tx(1, vec![], vec![1]), true)));
    assert!(can_handle(&mempool, &state, &without));
}
