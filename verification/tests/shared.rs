use bsc_node::node::primitives::{BscBlock, BscBlockBody, Header};
use bsc_node::num::U256;
use bsc_node::once_slot::OnceSlot;
use bsc_node::shared::{
    best_number, best_td, best_total_difficulty, bid_package_queue_len, cache_full_block, clear_body_cache,
    finish_ipc_call, found, get_best_canonical_block_number, get_best_canonical_td,
    get_block_import_mined_sender, get_block_import_sender, get_cached_block_by_hash,
    get_cached_block_by_number, get_canonical_header_by_hash,
    get_canonical_header_by_hash_from_provider, get_canonical_header_by_number,
    get_canonical_header_by_number_from_provider, get_fork_choice_engine, get_full_block_by_hash,
    get_full_block_by_number, get_imported_blocks_tx, get_ipc_client, get_local_peer_id_or_default,
    get_network_handle, get_payload_events_tx, get_proxyed_peer_ids, get_snapshot_provider,
    init_bid_package_queue, is_mev_running, mev_status, pop_bid_package, push_bid_package,
    require_ipc_client, set_block_import_mined_sender, set_block_import_sender,
    set_fork_choice_engine, set_full_block_provider, set_full_block_provider_from_closures,
    set_header_provider, set_imported_blocks_tx, set_ipc_client, set_local_peer_id, set_mev_running,
    set_network_handle, set_payload_events_tx, set_proxyed_peer_ids, set_snapshot_provider,
    BodyCache, ClosureFullBlockProvider, FullBlockProvider, HeaderProviders, BODY_CACHE_CAPACITY,
};
use std::sync::atomic::{AtomicBool, Ordering};
use std::sync::Arc;

fn mk_block(num: u64, parent: [u8; 32]) -> BscBlock {
    BscBlock {
        header: Header { parent_hash: parent, number: num, ..Default::default() },
        body: BscBlockBody::default(),
    }
}

#[test]
fn test_body_cache_put_and_get() {
    let mut cache = BodyCache::default();
    let genesis = mk_block(0, [0; 32]);
    let ghash = genesis.header.hash_slow();
    cache_full_block(&mut cache, genesis.clone());
    assert_eq!(get_cached_block_by_hash(&mut cache, &ghash).unwrap().header.hash_slow(), ghash);
    assert_eq!(get_cached_block_by_number(&mut cache, 0).unwrap().header.hash_slow(), ghash);
}

#[test]
fn block_that_is_not_cached_is_not_found() {
    let mut cache = BodyCache::default();
    assert!(cache_full_block(&mut cache, mk_block(1, [1; 32])));
    assert_eq!(get_cached_block_by_hash(&mut cache, &[5; 32]), None);
    assert_eq!(get_cached_block_by_number(&mut cache, 2), None);
    clear_body_cache(&mut cache);
    assert_eq!(get_cached_block_by_number(&mut cache, 1), None);
}

#[test]
fn later_block_at_a_number_replaces_the_number() {
    let mut cache = BodyCache::default();
    let first = mk_block(1, [1; 32]);
    let second = mk_block(1, [2; 32]);
    assert!(cache_full_block(&mut cache, first.clone()));
    assert!(cache_full_block(&mut cache, second.clone()));
    assert_eq!(get_cached_block_by_number(&mut cache, 1), Some(second.clone()));
    assert_eq!(get_cached_block_by_hash(&mut cache, &first.header.hash_slow()), Some(first));
    let mut again = second.clone();
    again.body.items.push(0xc0);
    assert!(cache_full_block(&mut cache, again.clone()));
    assert_eq!(get_cached_block_by_hash(&mut cache, &second.header.hash_slow()), Some(again));
}

#[test]
fn block_used_longest_ago_is_forgotten() {
    let mut cache = BodyCache::default();
    let n = BODY_CACHE_CAPACITY as u64;
    for number in 0..n {
        assert!(cache_full_block(&mut cache, mk_block(number, [1; 32])));
    }
    let kept = get_cached_block_by_number(&mut cache, 0).unwrap();
    assert!(cache_full_block(&mut cache, mk_block(n, [1; 32])));
    assert_eq!(get_cached_block_by_number(&mut cache, 0), Some(kept));
    assert_eq!(get_cached_block_by_number(&mut cache, 1), None);
    let gone = mk_block(1, [1; 32]).header.hash_slow();
    assert_eq!(get_cached_block_by_hash(&mut cache, &gone), None);
    for number in 2..=n {
        assert_eq!(get_cached_block_by_number(&mut cache, number).unwrap().header.number, number);
    }
}

#[test]
fn number_whose_block_is_forgotten_finds_nothing() {
    let mut cache = BodyCache::default();
    assert!(cache_full_block(&mut cache, mk_block(7, [0; 32])));
    let n = BODY_CACHE_CAPACITY as u64;
    for i in 0..n {
        let mut parent = [0u8; 32];
        parent[..8].copy_from_slice(&(i + 1).to_be_bytes());
        assert!(cache_full_block(&mut cache, mk_block(8, parent)));
    }
    assert_eq!(get_cached_block_by_number(&mut cache, 7), None);
}

#[test]
fn slots_keep_their_first_value() {
    let mut slot = OnceSlot::new();
    assert_eq!(get_imported_blocks_tx(&slot), None);
    assert_eq!(set_imported_blocks_tx(&mut slot, 1), Ok(()));
    assert_eq!(set_imported_blocks_tx(&mut slot, 2), Err(2));
    assert_eq!(get_imported_blocks_tx(&slot), Some(&1));

    let mut slot = OnceSlot::new();
    assert_eq!(get_proxyed_peer_ids(&slot), None);
    assert_eq!(set_proxyed_peer_ids(&mut slot, vec![[1; 64]]), Ok(()));
    assert_eq!(set_proxyed_peer_ids(&mut slot, vec![]), Err(vec![]));
    assert_eq!(get_proxyed_peer_ids(&slot), Some(&vec![[1; 64]]));

    let mut slot = OnceSlot::new();
    assert_eq!(get_snapshot_provider(&slot), None);
    assert_eq!(set_snapshot_provider(&mut slot, "a"), Ok(()));
    assert_eq!(set_snapshot_provider(&mut slot, "b"), Err("b"));
    assert_eq!(get_snapshot_provider(&slot), Some(&"a"));

    let mut slot = OnceSlot::new();
    assert_eq!(get_block_import_mined_sender(&slot), None);
    assert_eq!(set_block_import_mined_sender(&mut slot, 1), Ok(()));
    assert_eq!(set_block_import_mined_sender(&mut slot, 2), Err(2));
    assert_eq!(get_block_import_mined_sender(&slot), Some(&1));

    let mut slot = OnceSlot::new();
    assert_eq!(get_block_import_sender(&slot), None);
    assert_eq!(set_block_import_sender(&mut slot, 1), Ok(()));
    assert_eq!(set_block_import_sender(&mut slot, 2), Err(2));
    assert_eq!(get_block_import_sender(&slot), Some(&1));

    let mut slot = OnceSlot::new();
    assert_eq!(get_network_handle(&slot), None);
    assert_eq!(set_network_handle(&mut slot, 1), Ok(()));
    assert_eq!(set_network_handle(&mut slot, 2), Err(2));
    assert_eq!(get_network_handle(&slot), Some(&1));

    let mut slot = OnceSlot::new();
    assert_eq!(get_payload_events_tx(&slot), None);
    assert_eq!(set_payload_events_tx(&mut slot, 1), Ok(()));
    assert_eq!(set_payload_events_tx(&mut slot, 2), Err(2));
    assert_eq!(get_payload_events_tx(&slot), Some(&1));

    let mut slot = OnceSlot::new();
    assert_eq!(get_fork_choice_engine(&slot), None);
    assert_eq!(set_fork_choice_engine(&mut slot, 1), Ok(()));
    assert_eq!(set_fork_choice_engine(&mut slot, 2), Err("Failed to set fork choice engine"));
    assert_eq!(get_fork_choice_engine(&slot), Some(&1));
}

#[test]
fn local_peer_id_is_zero_until_it_is_set() {
    let mut slot = OnceSlot::new();
    assert_eq!(get_local_peer_id_or_default(&slot), [0; 64]);
    assert_eq!(set_local_peer_id(&mut slot, [4; 64]), Ok(()));
    assert_eq!(set_local_peer_id(&mut slot, [5; 64]), Err([5; 64]));
    assert_eq!(get_local_peer_id_or_default(&slot), [4; 64]);
}

#[test]
fn header_providers_are_asked() {
    let by_hash = |h: &[u8; 32]| Some(Header { parent_hash: *h, ..Default::default() });
    let by_number = |n: u64| if n < 5 { Some(Header { number: n, ..Default::default() }) } else { None };
    let mut providers = HeaderProviders::new();
    assert_eq!(get_canonical_header_by_hash(&providers.by_hash, &[1; 32]), None);
    assert_eq!(get_canonical_header_by_number(&providers.by_number, 1), None);
    assert_eq!(get_best_canonical_block_number(&providers.best_block_number), None);
    assert_eq!(get_best_canonical_td(&providers.best_td), None);
    assert_eq!(
        set_header_provider(&mut providers, by_hash, by_number, || Some(4), || Some(8u128)),
        Ok(())
    );
    let h = get_canonical_header_by_hash_from_provider(&providers.by_hash, &[1; 32]).unwrap();
    assert_eq!(h.parent_hash, [1; 32]);
    assert!(get_canonical_header_by_hash(&providers.by_hash, &[1; 32]).is_some());
    let h = get_canonical_header_by_number_from_provider(&providers.by_number, 3).unwrap();
    assert_eq!(h.number, 3);
    assert_eq!(get_canonical_header_by_number(&providers.by_number, 5), None);
    assert_eq!(get_best_canonical_block_number(&providers.best_block_number), Some(4));
    assert_eq!(get_best_canonical_td(&providers.best_td), Some(8));
}

#[test]
fn header_providers_fail_at_the_first_that_is_set() {
    let mut providers = HeaderProviders::new();
    assert_eq!(set_header_provider(&mut providers, 1, 1, 1, 1), Ok(()));
    assert_eq!(
        set_header_provider(&mut providers, 2, 2, 2, 2),
        Err("Failed to set hash provider")
    );
    let mut providers = HeaderProviders::<u8, u8, u8, u8>::new();
    assert_eq!(providers.by_number.set(9), Ok(()));
    assert_eq!(
        set_header_provider(&mut providers, 2, 2, 2, 2),
        Err("Failed to set number provider")
    );
    assert_eq!(providers.by_hash.get(), Some(&2));
    assert_eq!(providers.best_block_number.get(), None);
    let mut providers = HeaderProviders::<u8, u8, u8, u8>::new();
    assert_eq!(providers.best_block_number.set(9), Ok(()));
    assert_eq!(
        set_header_provider(&mut providers, 2, 2, 2, 2),
        Err("Failed to set best block number provider")
    );
    assert_eq!(providers.by_number.get(), Some(&2));
    assert_eq!(providers.best_td.get(), None);
    let mut providers = HeaderProviders::<u8, u8, u8, u8>::new();
    assert_eq!(providers.best_td.set(9), Ok(()));
    assert_eq!(
        set_header_provider(&mut providers, 2, 2, 2, 2),
        Err("Failed to set best td provider")
    );
    assert_eq!(providers.best_block_number.get(), Some(&2));
}

#[test]
fn failed_lookups_find_nothing() {
    assert_eq!(found::<u8, ()>(Ok(Some(1))), Some(1));
    assert_eq!(found::<u8, ()>(Ok(None)), None);
    assert_eq!(found::<u8, ()>(Err(())), None);
    assert_eq!(best_number::<()>(Ok(7)), Some(7));
    assert_eq!(best_number(Err(())), None);
    assert_eq!(best_total_difficulty::<()>(Ok(Some(U256::from_u64(12)))), Some(12));
    assert_eq!(best_total_difficulty::<()>(Ok(None)), None);
    assert_eq!(best_total_difficulty(Err(())), None);
    let td_at = |n: u64| if n == 7 { Ok(Some(U256::from_u64(70))) } else { Err("none") };
    assert_eq!(best_td(Ok(7), td_at), Some(70));
    assert_eq!(best_td(Ok(8), td_at), None);
    assert_eq!(best_td(Err("no block"), td_at), None);
}

#[test]
fn bid_packages_leave_in_the_order_they_came() {
    let mut queue = OnceSlot::new();
    assert_eq!(push_bid_package(&mut queue, 1), Err("Bid package queue not initialized"));
    assert_eq!(pop_bid_package(&mut queue), None);
    assert_eq!(bid_package_queue_len(&queue), 0);
    init_bid_package_queue(&mut queue);
    for bid in 1..4 {
        assert_eq!(push_bid_package(&mut queue, bid), Ok(()));
    }
    init_bid_package_queue(&mut queue);
    assert_eq!(bid_package_queue_len(&queue), 3);
    assert_eq!(pop_bid_package(&mut queue), Some(1));
    assert_eq!(pop_bid_package(&mut queue), Some(2));
    assert_eq!(pop_bid_package(&mut queue), Some(3));
    assert_eq!(pop_bid_package(&mut queue), None);
}

#[test]
fn full_blocks_come_from_the_provider() {
    let by_hash = |h: &[u8; 32]| if *h == [1; 32] { Some(mk_block(1, [1; 32])) } else { None };
    let by_number = |n: u64| Some(mk_block(n, [2; 32]));
    let mut slot = OnceSlot::new();
    assert_eq!(get_full_block_by_hash(&slot, &[1; 32]), None);
    assert_eq!(get_full_block_by_number(&slot, 1), None);
    assert!(set_full_block_provider_from_closures(&mut slot, by_hash, by_number).is_ok());
    assert!(set_full_block_provider_from_closures(&mut slot, by_hash, by_number).is_err());
    assert_eq!(get_full_block_by_hash(&slot, &[1; 32]), Some(mk_block(1, [1; 32])));
    assert_eq!(get_full_block_by_hash(&slot, &[2; 32]), None);
    assert_eq!(get_full_block_by_number(&slot, 6), Some(mk_block(6, [2; 32])));
    let provider = ClosureFullBlockProvider::new(by_hash, by_number);
    assert_eq!(provider.block_by_number(3), Some(mk_block(3, [2; 32])));
    assert!(set_full_block_provider(&mut slot, provider).is_err());
}

#[test]
fn mev_runs_while_its_flag_says_so() {
    let mut slot = OnceSlot::new();
    assert!(!is_mev_running(&slot));
    let flag = Arc::new(AtomicBool::new(true));
    assert!(set_mev_running(&mut slot, Arc::clone(&flag)).is_ok());
    assert!(set_mev_running(&mut slot, Arc::clone(&flag)).is_err());
    assert!(is_mev_running(&slot));
    flag.store(false, Ordering::Relaxed);
    assert!(!is_mev_running(&slot));
    assert!(mev_status(Some(true)));
    assert!(!mev_status(Some(false)));
    assert!(!mev_status(None));
}

#[test]
fn ipc_client_is_needed_for_a_call() {
    let mut slot = OnceSlot::new();
    assert_eq!(get_ipc_client(&slot), None);
    assert_eq!(require_ipc_client(&slot), Err("Failed to get RPC client".to_string()));
    assert_eq!(
        set_ipc_client(&mut slot, Err("no socket".to_string()), "?"),
        Err("Failed to build RPC client: no socket".to_string())
    );
    assert_eq!(set_ipc_client(&mut slot, Ok(5), "5"), Ok(()));
    assert_eq!(
        set_ipc_client(&mut slot, Ok(6), "6"),
        Err("Failed to set RPC client: 6".to_string())
    );
    assert_eq!(get_ipc_client(&slot), Some(&5));
    assert_eq!(require_ipc_client(&slot), Ok(&5));
    assert_eq!(finish_ipc_call(Ok(1)), Ok(1));
    assert_eq!(
        finish_ipc_call::<u8>(Err("gone".to_string())),
        Err("failed to query chain id from healthy node: gone".to_string())
    );
}
