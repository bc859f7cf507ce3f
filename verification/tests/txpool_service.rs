//! Transaction pool service behaviour: dispatch, backpressure, reorg
//! ordering, plugging, and lookups.

use node_core::keymap::KeyMap;
use node_core::pool::{
    FeeRate, PlugTarget, Snapshot, Transaction, TxEntry, TxPool, TxPoolConfig, UncleBlock,
};
use node_core::service::{
    process, BlockAssemblerConfig, Message, Notify, Request, ServiceError, TxPoolRunner,
    TxPoolService, TxPoolServiceBuilder, DEFAULT_CHANNEL_SIZE,
};
use node_core::chan::ChannelError;

fn tx(short_id: u64, cycles: u64) -> Transaction {
    Transaction { short_id, size: 100, cycles, fee: 3 }
}

fn config() -> TxPoolConfig {
    TxPoolConfig { max_block_bytes: 10_000 }
}

fn fresh_service(assembler: Option<BlockAssemblerConfig>) -> TxPoolService {
    let pool = TxPool::new(config(), Snapshot { tip_number: 1 }, vec![10, 20]);
    let block_assembler = assembler.map(node_core::service::BlockAssembler::new);
    TxPoolService::new(pool, block_assembler, KeyMap::new())
}

#[test]
fn submit_then_fetch_returns_the_transaction() {
    let mut service = fresh_service(None);
    let t = tx(7, 55);

    let (s, r) = crossbeam_channel::bounded(1);
    process(&mut service, Message::SubmitTxs(Request::call(vec![t], s)), 10);
    let outcome = r.try_recv().expect("reply present").expect("submission accepted");
    assert_eq!(outcome.len(), 1);
    assert_eq!(outcome[0].cycles, 55);
    assert_eq!(outcome[0].fee, 3);

    let (s, r) = crossbeam_channel::bounded(1);
    process(&mut service, Message::FetchTxs(Request::call(vec![7, 8], s)), 11);
    let fetched = r.try_recv().expect("reply present");
    assert_eq!(fetched.get(7), Some(&t));
    assert_eq!(fetched.get(8), None);

    let (s, r) = crossbeam_channel::bounded(1);
    process(&mut service, Message::FetchTxsWithCycles(Request::call(vec![7], s)), 12);
    let with_cycles = r.try_recv().expect("reply present");
    assert_eq!(with_cycles, vec![(7, (t, 55))]);
}

#[test]
fn submit_rejects_invalid_transaction_and_leaves_pool_untouched() {
    let mut service = fresh_service(None);
    let (s, r) = crossbeam_channel::bounded(1);
    process(
        &mut service,
        Message::SubmitTxs(Request::call(vec![tx(1, 9), tx(2, 0)], s)),
        10,
    );
    let outcome = r.try_recv().expect("reply present");
    assert_eq!(outcome, Err(ServiceError::Verification(2)));

    let (s, r) = crossbeam_channel::bounded(1);
    process(&mut service, Message::GetTxPoolInfo(Request::call((), s)), 11);
    let info = r.try_recv().expect("reply present");
    assert_eq!(info.pending_size, 0);
}

#[test]
fn reorg_keeps_unrelated_pending_transaction() {
    let mut service = fresh_service(None);
    let a = tx(1, 5);
    let conflict = tx(2, 6);

    let (s, r) = crossbeam_channel::bounded(1);
    process(&mut service, Message::SubmitTxs(Request::call(vec![a], s)), 10);
    r.try_recv().expect("reply present").expect("accepted");

    // detach the block that held A's conflict; A must stay in pending
    let reorg = Notify::notify((vec![conflict], vec![], vec![], Snapshot { tip_number: 2 }));
    process(&mut service, Message::ChainReorg(reorg), 11);

    let (s, r) = crossbeam_channel::bounded(1);
    process(&mut service, Message::FetchTxRPC(Request::call(1, s)), 12);
    assert_eq!(r.try_recv().expect("reply present"), Some((false, a)));
    assert_eq!(service.snapshot(), Snapshot { tip_number: 2 });
}

#[test]
fn reorg_moves_attached_transactions_to_store() {
    let mut service = fresh_service(None);
    let a = tx(1, 5);
    let (s, r) = crossbeam_channel::bounded(1);
    process(&mut service, Message::SubmitTxs(Request::call(vec![a], s)), 10);
    r.try_recv().expect("reply present").expect("accepted");

    let reorg = Notify::notify((vec![], vec![a], vec![], Snapshot { tip_number: 2 }));
    process(&mut service, Message::ChainReorg(reorg), 11);

    let (s, r) = crossbeam_channel::bounded(1);
    process(&mut service, Message::GetTxPoolInfo(Request::call((), s)), 12);
    let info = r.try_recv().expect("reply present");
    assert_eq!(info.pending_size, 0);

    // still served from the store
    let (s, r) = crossbeam_channel::bounded(1);
    process(&mut service, Message::FetchTxs(Request::call(vec![1], s)), 13);
    let fetched = r.try_recv().expect("reply present");
    assert_eq!(fetched.get(1), Some(&a));
}

#[test]
fn plug_entry_targets_the_chosen_set_only() {
    let mut service = fresh_service(None);
    let entry = TxEntry { transaction: tx(9, 4), cycles: 4, size: 100, fee: 3 };

    let (s, r) = crossbeam_channel::bounded(1);
    process(
        &mut service,
        Message::PlugEntry(Request::call((vec![entry], PlugTarget::Pending), s)),
        10,
    );
    r.try_recv().expect("reply present");
    assert_eq!(service.tx_pool.pending.len(), 1);
    assert_eq!(service.tx_pool.proposed.len(), 0);

    let entry2 = TxEntry { transaction: tx(11, 4), cycles: 4, size: 100, fee: 3 };
    let (s, r) = crossbeam_channel::bounded(1);
    process(
        &mut service,
        Message::PlugEntry(Request::call((vec![entry2], PlugTarget::Proposed), s)),
        11,
    );
    r.try_recv().expect("reply present");
    assert_eq!(service.tx_pool.pending.len(), 1);
    assert_eq!(service.tx_pool.proposed.len(), 1);
    assert!(service.tx_pool.pending.get(11).is_none());
    assert!(service.tx_pool.proposed.get(9).is_none());
}

#[test]
fn fresh_proposals_filter_drops_known_ids() {
    let mut service = fresh_service(None);
    let (s, r) = crossbeam_channel::bounded(1);
    process(&mut service, Message::SubmitTxs(Request::call(vec![tx(1, 5)], s)), 10);
    r.try_recv().expect("reply present").expect("accepted");

    let (s, r) = crossbeam_channel::bounded(1);
    process(
        &mut service,
        Message::FreshProposalsFilter(Request::call(vec![1, 2, 3], s)),
        11,
    );
    assert_eq!(r.try_recv().expect("reply present"), vec![2, 3]);
}

#[test]
fn estimate_fee_rate_reads_the_table() {
    let mut service = fresh_service(None);
    let (s, r) = crossbeam_channel::bounded(1);
    process(&mut service, Message::EstimateFeeRate(Request::call(0, s)), 10);
    assert_eq!(r.try_recv().expect("reply present"), FeeRate(10));

    let (s, r) = crossbeam_channel::bounded(1);
    process(&mut service, Message::EstimateFeeRate(Request::call(9, s)), 11);
    assert_eq!(r.try_recv().expect("reply present"), FeeRate(0));
}

#[test]
fn block_template_requires_an_assembler() {
    let mut service = fresh_service(None);
    let (s, r) = crossbeam_channel::bounded(1);
    process(
        &mut service,
        Message::BlockTemplate(Request::call((None, None, None), s)),
        10,
    );
    assert_eq!(
        r.try_recv().expect("reply present"),
        Err(ServiceError::BlockAssemblerDisabled)
    );
}

#[test]
fn block_template_honours_version_cap_and_uncles() {
    let mut service = fresh_service(Some(BlockAssemblerConfig { version: 7 }));
    process(
        &mut service,
        Message::NewUncle(Notify::notify(UncleBlock { hash: 0xabc })),
        10,
    );
    let (s, r) = crossbeam_channel::bounded(1);
    process(&mut service, Message::SubmitTxs(Request::call(vec![tx(1, 5)], s)), 11);
    r.try_recv().expect("reply present").expect("accepted");

    let (s, r) = crossbeam_channel::bounded(1);
    process(
        &mut service,
        Message::BlockTemplate(Request::call((None, Some(10), Some(3)), s)),
        12,
    );
    let template = r.try_recv().expect("reply present").expect("assembled");
    assert_eq!(template.version, 3);
    assert_eq!(template.uncles, vec![0xabc]);
    assert_eq!(template.proposals, vec![1]);
}

#[test]
fn uncle_notification_updates_the_assembler_stamp() {
    let mut service = fresh_service(Some(BlockAssemblerConfig { version: 7 }));
    process(
        &mut service,
        Message::NewUncle(Notify::notify(UncleBlock { hash: 5 })),
        77,
    );
    let assembler = service.block_assembler.as_ref().expect("assembler configured");
    assert_eq!(assembler.candidate_uncles, vec![5]);
    assert_eq!(assembler.last_uncles_updated_at, 77);
}

#[test]
fn uncle_candidates_deduplicate_and_stamp_never_regresses() {
    let mut service = fresh_service(Some(BlockAssemblerConfig { version: 7 }));
    process(&mut service, Message::NewUncle(Notify::notify(UncleBlock { hash: 5 })), 77);
    process(&mut service, Message::NewUncle(Notify::notify(UncleBlock { hash: 5 })), 60);
    process(&mut service, Message::NewUncle(Notify::notify(UncleBlock { hash: 6 })), 90);
    let assembler = service.block_assembler.as_ref().expect("assembler configured");
    assert_eq!(assembler.candidate_uncles, vec![5, 6]);
    assert_eq!(assembler.last_uncles_updated_at, 90);
}

#[test]
fn controller_send_on_full_channel_returns_backpressure() {
    let builder = TxPoolServiceBuilder::new(
        config(),
        Snapshot { tip_number: 1 },
        None,
        KeyMap::new(),
        vec![],
    );
    let (controller, _runner) = builder.start().expect("service built once");
    for _ in 0..DEFAULT_CHANNEL_SIZE {
        controller.notify_txs(vec![tx(1, 5)]).expect("inbox has room");
    }
    assert_eq!(controller.notify_txs(vec![tx(1, 5)]), Err(ChannelError::Full));
}

#[test]
fn runner_processes_queued_messages_and_stops() {
    let builder = TxPoolServiceBuilder::new(
        config(),
        Snapshot { tip_number: 1 },
        None,
        KeyMap::new(),
        vec![],
    );
    let (controller, mut runner) = builder.start().expect("service built once");

    controller.notify_txs(vec![tx(3, 8)]).expect("inbox has room");
    assert!(runner.run_once(10));
    assert_eq!(runner.service.tx_pool.pending.len(), 1);

    controller.stop();
    assert!(!runner.run_once(11));
}

#[test]
fn runner_built_by_hand_answers_requests() {
    let service = fresh_service(None);
    let (sender, receiver) = crossbeam_channel::bounded(DEFAULT_CHANNEL_SIZE);
    let (_stop_sender, stop_receiver) = crossbeam_channel::bounded::<()>(1);
    let mut runner = TxPoolRunner { service, receiver, stop: stop_receiver };

    let (s, r) = crossbeam_channel::bounded(1);
    sender
        .send(Message::GetTxPoolInfo(Request::call((), s)))
        .expect("receiver alive");
    assert!(runner.run_once(10));
    let info = r.try_recv().expect("reply present");
    assert_eq!(info.pending_size, 0);
    assert_eq!(info.proposed_size, 0);
}

#[test]
fn last_updated_stamp_never_goes_backwards() {
    let mut service = fresh_service(None);
    let (s, r) = crossbeam_channel::bounded(1);
    process(&mut service, Message::SubmitTxs(Request::call(vec![tx(1, 5)], s)), 100);
    r.try_recv().expect("reply present").expect("accepted");
    assert_eq!(service.tx_pool.last_txs_updated_at, 100);

    let (s, r) = crossbeam_channel::bounded(1);
    process(&mut service, Message::SubmitTxs(Request::call(vec![tx(2, 5)], s)), 50);
    r.try_recv().expect("reply present").expect("accepted");
    assert_eq!(service.tx_pool.last_txs_updated_at, 100);
}

#[test]
fn conflict_cache_serves_lookups_without_cycles() {
    let mut service = fresh_service(None);
    let c = tx(4, 9);
    service.tx_pool.conflict.insert(4, c);

    let (s, r) = crossbeam_channel::bounded(1);
    process(&mut service, Message::FetchTxs(Request::call(vec![4], s)), 10);
    let fetched = r.try_recv().expect("reply present");
    assert_eq!(fetched.get(4), Some(&c));

    // unknown cycles: dropped from the cycle-bearing fetch
    let (s, r) = crossbeam_channel::bounded(1);
    process(&mut service, Message::FetchTxsWithCycles(Request::call(vec![4], s)), 11);
    assert_eq!(r.try_recv().expect("reply present"), vec![]);

    // and not served to the RPC lookup, which ignores conflicts
    let (s, r) = crossbeam_channel::bounded(1);
    process(&mut service, Message::FetchTxRPC(Request::call(4, s)), 12);
    assert_eq!(r.try_recv().expect("reply present"), None);

    // a reorg that attaches the conflicting transaction clears the cache
    let reorg = Notify::notify((vec![], vec![c], vec![], Snapshot { tip_number: 2 }));
    process(&mut service, Message::ChainReorg(reorg), 13);
    assert!(service.tx_pool.conflict.get(4).is_none());
}

#[test]
fn detached_proposal_ids_move_entries_back_to_pending() {
    let mut service = fresh_service(None);
    let entry = TxEntry { transaction: tx(5, 7), cycles: 7, size: 100, fee: 3 };
    let (s, r) = crossbeam_channel::bounded(1);
    process(
        &mut service,
        Message::PlugEntry(Request::call((vec![entry], PlugTarget::Proposed), s)),
        10,
    );
    r.try_recv().expect("reply present");
    assert!(service.tx_pool.proposed.get(5).is_some());

    let reorg = Notify::notify((vec![], vec![], vec![5u64], Snapshot { tip_number: 2 }));
    process(&mut service, Message::ChainReorg(reorg), 11);
    assert!(service.tx_pool.proposed.get(5).is_none());
    assert_eq!(service.tx_pool.pending.get(5), Some(&entry));
}
