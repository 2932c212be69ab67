use bsc_node::node::network::blocks_by_range::{BlocksByRangePacket, GetBlocksByRangePacket};
use bsc_node::node::network::bsc_protocol::registry::{
    await_import, batch_request_range_and_await_import, finish_request, has_registered_peer,
    import_messages, initialize_proxyed_peers, is_proxyed_peer, list_registered_peers,
    register_peer, remove_peers, request_blocks_by_range, request_not_sent, ImportNotice,
    ImportStep, ImportWait, ProxyedPeers, RangeReply, RangeStep, Registry, RequestCounter,
};
use bsc_node::node::network::evn::{
    on_event, peers_on_chain, spawn_evn_refresh_listener, EvnRefreshTask, ListenerAction,
    ListenerEvent, ListenerState, REFRESH_INTERVAL_SECS,
};
use bsc_node::node::network::votes::{allow_votes, broadcast_votes, PeerInfo, VoteContext};
use bsc_node::node::primitives::{BscBlock, BscBlockBody, Header};
use bsc_node::num::U256;

fn peer(n: u8) -> [u8; 64] {
    [n; 64]
}

#[test]
fn registered_peers_are_listed_once() {
    let mut registry = Registry::new();
    assert!(list_registered_peers(&registry).is_empty());
    register_peer(&mut registry, peer(1), "a");
    register_peer(&mut registry, peer(2), "b");
    register_peer(&mut registry, peer(1), "c");
    let mut peers = list_registered_peers(&registry);
    peers.sort();
    assert_eq!(peers, vec![peer(1), peer(2)]);
    assert!(has_registered_peer(&registry, peer(2)));
    assert!(!has_registered_peer(&registry, peer(3)));
    assert_eq!(registry.get(&peer(1)), Some(&"c"));
    assert_eq!(registry.get(&peer(3)), None);
}

#[test]
fn removed_peers_are_gone() {
    let mut registry = Registry::new();
    for n in 1..6 {
        register_peer(&mut registry, peer(n), n);
    }
    remove_peers(&mut registry, &vec![peer(2), peer(9), peer(5), peer(2)]);
    let mut peers = list_registered_peers(&registry);
    peers.sort();
    assert_eq!(peers, vec![peer(1), peer(3), peer(4)]);
    assert_eq!(registry.get(&peer(4)), Some(&4));
}

#[test]
fn proxyed_peers_are_replaced() {
    let mut proxyed = ProxyedPeers::new();
    assert!(!is_proxyed_peer(&proxyed, &peer(1)));
    initialize_proxyed_peers(&mut proxyed, vec![peer(1), peer(2), peer(1)]);
    assert!(is_proxyed_peer(&proxyed, &peer(2)));
    initialize_proxyed_peers(&mut proxyed, vec![peer(3)]);
    assert!(!is_proxyed_peer(&proxyed, &peer(2)));
    assert!(is_proxyed_peer(&proxyed, &peer(3)));
}

#[test]
fn range_requests_are_checked_and_numbered() {
    let mut registry = Registry::new();
    register_peer(&mut registry, peer(1), "tx");
    let mut counter = RequestCounter::new();
    let mut ask = |who: u8, count: u64| {
        match request_blocks_by_range(&registry, &mut counter, peer(who), 10, [6; 32], count) {
            RangeStep::Send(s) => Ok((*s.tx, s.packet)),
            RangeStep::Failed(e) => Err(e),
        }
    };
    assert_eq!(ask(1, 0), Err("invalid count 0".to_string()));
    assert_eq!(ask(1, 65), Err("invalid count 65".to_string()));
    assert_eq!(ask(1, u64::MAX), Err("invalid count 18446744073709551615".to_string()));
    assert_eq!(ask(2, 0), Err("invalid count 0".to_string()));
    assert_eq!(ask(2, 1), Err("peer not registered for bsc protocol".to_string()));
    let packet = |request_id, count| GetBlocksByRangePacket {
        request_id,
        start_block_height: 10,
        start_block_hash: [6; 32],
        count,
    };
    assert_eq!(ask(1, 64), Ok(("tx", packet(1, 64))));
    assert_eq!(ask(2, 1), Err("peer not registered for bsc protocol".to_string()));
    assert_eq!(ask(1, 1), Ok(("tx", packet(2, 1))));
    assert_eq!(counter.take(), 3);
}

#[test]
fn range_requests_end_with_the_reply() {
    let packet = BlocksByRangePacket { request_id: 1, blocks: vec![] };
    assert_eq!(finish_request(RangeReply::Answered(Ok(packet.clone()))), Ok(packet));
    assert_eq!(
        finish_request(RangeReply::Answered(Err("bad".to_string()))),
        Err("bad".to_string())
    );
    assert_eq!(finish_request(RangeReply::Canceled), Err("request canceled".to_string()));
    assert_eq!(finish_request(RangeReply::TimedOut), Err("request timed out".to_string()));
    assert_eq!(request_not_sent(), "failed to send GetBlocksByRange command");
}

fn block(number: u64, parent_hash: [u8; 32]) -> BscBlock {
    BscBlock {
        header: Header { number, parent_hash, ..Default::default() },
        body: BscBlockBody::default(),
    }
}

#[test]
fn blocks_reach_the_import_oldest_first() {
    let a = block(1, [0; 32]);
    let b = block(2, a.header.hash_slow());
    let c = block(3, b.header.hash_slow());
    let packet = BlocksByRangePacket { request_id: 1, blocks: vec![c.clone(), b.clone(), a.clone()] };
    let imports = batch_request_range_and_await_import(Ok(packet.clone()), true).unwrap();
    assert_eq!(imports.iter().map(|m| m.block.clone()).collect::<Vec<_>>(), vec![a, b, c]);
    for m in &imports {
        assert_eq!(m.hash, m.block.header.hash_slow());
        assert_eq!(m.td, U256::from_u64(0));
    }
    for pair in imports.windows(2) {
        assert_eq!(pair[0].hash, pair[1].block.header.parent_hash);
    }
    assert_eq!(batch_request_range_and_await_import(Ok(packet), false), Ok(vec![]));
    assert_eq!(
        batch_request_range_and_await_import(Err("request timed out".to_string()), true),
        Err("request timed out".to_string())
    );
    assert!(import_messages(&vec![]).is_empty());
}

/// The wait, which has to go on.
fn waiting(step: ImportStep) -> ImportWait {
    match step {
        ImportStep::Wait(wait) => wait,
        ImportStep::Finished(r) => panic!("finished with {r:?}"),
    }
}

/// What a wait ended with.
fn finished(step: ImportStep) -> Result<Vec<[u8; 32]>, String> {
    match step {
        ImportStep::Wait(_) => panic!("goes on"),
        ImportStep::Finished(r) => r,
    }
}

#[test]
fn import_is_awaited_until_all_blocks_are_in() {
    let a = block(1, [0; 32]);
    let b = block(2, a.header.hash_slow());
    let c = block(3, b.header.hash_slow());
    let hashes = vec![a.header.hash_slow(), b.header.hash_slow(), c.header.hash_slow()];
    let packet = BlocksByRangePacket { request_id: 1, blocks: vec![c, b, a] };
    let imports = batch_request_range_and_await_import(Ok(packet), true).unwrap();
    let mut wait = waiting(await_import(&imports));
    for heard in [hashes[2], [9; 32], hashes[0], hashes[2], [0; 32]] {
        wait = waiting(wait.resume(ImportNotice::Imported(heard)));
    }
    assert_eq!(finished(wait.resume(ImportNotice::Imported(hashes[1]))), Ok(hashes));
}

#[test]
fn import_of_equal_blocks_is_reported_once() {
    let a = block(1, [0; 32]);
    let hash = a.header.hash_slow();
    let wait = waiting(await_import(&import_messages(&vec![a.clone(), a])));
    assert_eq!(finished(wait.resume(ImportNotice::Imported(hash))), Ok(vec![hash, hash]));
}

#[test]
fn import_of_nothing_is_not_awaited() {
    assert_eq!(finished(await_import(&vec![])), Ok(vec![]));
}

#[test]
fn import_is_not_awaited_without_notices() {
    let imports = import_messages(&vec![block(2, [0; 32]), block(1, [0; 32])]);
    let wait = waiting(await_import(&imports));
    let wait = waiting(wait.resume(ImportNotice::Imported(imports[0].hash)));
    assert_eq!(
        finished(wait.resume(ImportNotice::Closed)),
        Err("import notices closed".to_string())
    );
    let wait = waiting(await_import(&imports));
    assert_eq!(
        finished(wait.resume(ImportNotice::Missed)),
        Err("import notices missed".to_string())
    );
}

fn info(best_number: Option<u64>, best_td: Option<u64>) -> Option<PeerInfo> {
    Some(PeerInfo { best_number, best_td: best_td.map(U256::from_u64) })
}

#[test]
fn votes_go_to_peers_that_are_near() {
    assert!(allow_votes(false, info(Some(120), None), 100, None));
    assert!(!allow_votes(false, info(Some(121), None), 100, None));
    assert!(allow_votes(false, info(Some(80), None), 100, None));
    assert!(!allow_votes(false, info(Some(79), None), 100, None));
    assert!(!allow_votes(false, info(Some(u64::MAX), None), 0, None));
    assert!(allow_votes(true, info(Some(u64::MAX), None), 0, None));
}

#[test]
fn votes_go_by_total_difficulty_without_a_number() {
    assert!(allow_votes(false, info(None, Some(50)), 0, Some(30)));
    assert!(!allow_votes(false, info(None, Some(51)), 0, Some(30)));
    assert!(allow_votes(false, info(None, Some(10)), 0, Some(30)));
    assert!(!allow_votes(false, info(None, Some(9)), 0, Some(30)));
    let huge = Some(PeerInfo { best_number: None, best_td: Some(U256 { be: [0xff; 32] }) });
    assert!(!allow_votes(false, huge, 0, Some(u128::MAX)));
    assert!(allow_votes(false, huge, 0, None));
    assert!(!allow_votes(false, info(Some(100), Some(30)), 0, Some(30)));
}

#[test]
fn votes_go_to_peers_of_which_nothing_is_known() {
    assert!(allow_votes(false, None, 0, None));
    assert!(allow_votes(false, info(None, None), 0, Some(30)));
    assert!(allow_votes(false, info(None, Some(9)), 0, None));
}

#[test]
fn votes_are_broadcast_to_the_allowed_peers() {
    let mut proxyed = ProxyedPeers::new();
    initialize_proxyed_peers(&mut proxyed, vec![peer(2)]);
    let far = PeerInfo { best_number: Some(1000), best_td: None };
    let close = PeerInfo { best_number: Some(5), best_td: None };
    let evn = vec![peer(1)];
    let infos = vec![
        (peer(1), far),
        (peer(2), far),
        (peer(3), far),
        (peer(4), far),
        (peer(4), close),
    ];
    let context = VoteContext {
        evn_peers: &evn,
        proxyed_peers: &proxyed,
        infos: &infos,
        local_number: None,
        local_td: Some(1),
    };
    let registered = vec![peer(5), peer(4), peer(3), peer(2), peer(1)];
    assert_eq!(broadcast_votes(&registered, &context), vec![peer(5), peer(4), peer(2), peer(1)]);
    assert!(broadcast_votes(&vec![], &context).is_empty());
}

#[test]
fn refresh_listener_is_installed_once() {
    let mut task = EvnRefreshTask::new();
    assert!(spawn_evn_refresh_listener(&mut task));
    assert!(!spawn_evn_refresh_listener(&mut task));
    assert!(!spawn_evn_refresh_listener(&mut task));
    assert_eq!(REFRESH_INTERVAL_SECS, 60);
}

#[test]
fn refresh_listener_follows_its_events() {
    let (state, action) = on_event(ListenerState::Waiting, ListenerEvent::Lagged);
    assert_eq!((state, action), (ListenerState::Waiting, ListenerAction::AwaitNotice));
    let (state, action) = on_event(state, ListenerEvent::Armed);
    assert_eq!((state, action), (ListenerState::Refreshing, ListenerAction::Apply));
    for event in [
        ListenerEvent::Tick,
        ListenerEvent::Closed,
        ListenerEvent::Lagged,
        ListenerEvent::Armed,
    ] {
        assert_eq!(on_event(state, event), (ListenerState::Refreshing, ListenerAction::Apply));
    }
    let (state, action) = on_event(ListenerState::Waiting, ListenerEvent::Closed);
    assert_eq!((state, action), (ListenerState::Stopped, ListenerAction::Stop));
    assert_eq!(
        on_event(state, ListenerEvent::Armed),
        (ListenerState::Stopped, ListenerAction::Stop)
    );
}

#[test]
fn peers_on_chain_are_marked() {
    let peers = vec![(peer(1), [1; 32]), (peer(2), [2; 32]), (peer(3), [3; 32])];
    assert_eq!(peers_on_chain(&peers, &vec![[3; 32], [1; 32]]), vec![peer(1), peer(3)]);
    assert!(peers_on_chain(&peers, &vec![]).is_empty());
}
