//! Keeping the peers of the validators' own network (EVN) up to date.
//!
//! The listener waits until the network is armed. From then on it applies the node ids that stand on
//! chain to the registered peers, once right away and then at a fixed interval for good.
use crate::node::primitives::{same_bytes, PeerId};
use vstd::prelude::*;

verus! {

/// A node's 256-bit identity on chain.
pub type NodeId = [u8; 32];

/// How long the listener waits between two refreshes, in seconds.
pub const REFRESH_INTERVAL_SECS: u64 = 60;

/// The slot of the background task.
#[derive(Debug, Clone, Copy, PartialEq, Eq)]
pub struct EvnRefreshTask {
    installed: bool,
}

impl View for EvnRefreshTask {
    type V = bool;

    closed spec fn view(&self) -> bool {
        self.installed
    }
}

impl EvnRefreshTask {
    /// An empty slot.
    pub fn new() -> (r: Self)
        ensures
            !r@,
    {
        EvnRefreshTask { installed: false }
    }
}

/// Claims the slot of the background task. Only the first caller gets it, and has to start the task.
pub fn spawn_evn_refresh_listener(task: &mut EvnRefreshTask) -> (r: bool)
    ensures
        r == !old(task)@,
        final(task)@,
{
    if task.installed {
        return false;
    }
    task.installed = true;
    true
}

/// What the listener is doing.
#[derive(Debug, Clone, Copy, PartialEq, Eq)]
pub enum ListenerState {
    /// It waits for the network to be armed.
    Waiting,
    /// It waits for the next refresh.
    Refreshing,
    /// It is done.
    Stopped,
}

/// What the listener learns.
#[derive(Debug, Clone, Copy, PartialEq, Eq)]
pub enum ListenerEvent {
    /// The network was armed.
    Armed,
    /// The notifications were closed.
    Closed,
    /// Notifications were missed.
    Lagged,
    /// The interval has passed.
    Tick,
}

/// What the listener has to do.
#[derive(Debug, Clone, Copy, PartialEq, Eq)]
pub enum ListenerAction {
    /// Wait for the next notification.
    AwaitNotice,
    /// Apply the node ids on chain to the registered peers, then wait for the interval to pass.
    Apply,
    /// Nothing any more.
    Stop,
}

/// What the listener does on an event. Once it refreshes, only the interval counts.
pub open spec fn next(state: ListenerState, event: ListenerEvent) -> (
    ListenerState,
    ListenerAction,
) {
    match state {
        ListenerState::Waiting => match event {
            ListenerEvent::Armed => (ListenerState::Refreshing, ListenerAction::Apply),
            ListenerEvent::Closed => (ListenerState::Stopped, ListenerAction::Stop),
            ListenerEvent::Lagged | ListenerEvent::Tick => (
                ListenerState::Waiting,
                ListenerAction::AwaitNotice,
            ),
        },
        ListenerState::Refreshing => (ListenerState::Refreshing, ListenerAction::Apply),
        ListenerState::Stopped => (ListenerState::Stopped, ListenerAction::Stop),
    }
}

/// What the listener does on an event.
pub fn on_event(state: ListenerState, event: ListenerEvent) -> (r: (ListenerState, ListenerAction))
    ensures
        r == next(state, event),
{
    match state {
        ListenerState::Waiting => match event {
            ListenerEvent::Armed => (ListenerState::Refreshing, ListenerAction::Apply),
            ListenerEvent::Closed => (ListenerState::Stopped, ListenerAction::Stop),
            ListenerEvent::Lagged | ListenerEvent::Tick => (
                ListenerState::Waiting,
                ListenerAction::AwaitNotice,
            ),
        },
        ListenerState::Refreshing => (ListenerState::Refreshing, ListenerAction::Apply),
        ListenerState::Stopped => (ListenerState::Stopped, ListenerAction::Stop),
    }
}

/// Whether a node id stands on chain.
pub open spec fn on_chain(nodeids: Seq<NodeId>, id: Seq<u8>) -> bool {
    exists|i: int| 0 <= i < nodeids.len() && (#[trigger] nodeids[i])@ == id
}

fn stands_on_chain(nodeids: &Vec<NodeId>, id: &NodeId) -> (r: bool)
    ensures
        r == on_chain(nodeids@, id@),
{
    let mut i: usize = 0;
    while i < nodeids.len()
        invariant
            i <= nodeids@.len(),
            forall|j: int| 0 <= j < i ==> (#[trigger] nodeids@[j])@ != id@,
        decreases nodeids@.len() - i,
    {
        if same_bytes(&nodeids[i], id) {
            return true;
        }
        i += 1;
    }
    false
}

/// The peers to be marked, each of which is given with its node id: those whose node id stands on
/// chain, in the order in which they are given.
pub fn peers_on_chain(peers: &Vec<(PeerId, NodeId)>, nodeids: &Vec<NodeId>) -> (r: Vec<PeerId>)
    ensures
        r@ == peers@.filter(|p: (PeerId, NodeId)| on_chain(nodeids@, p.1@)).map_values(
            |p: (PeerId, NodeId)| p.0,
        ),
{
    let mut r: Vec<PeerId> = Vec::new();
    let mut i: usize = 0;
    let ghost chosen = |p: (PeerId, NodeId)| on_chain(nodeids@, p.1@);
    let ghost peer = |p: (PeerId, NodeId)| p.0;
    proof {
        reveal(Seq::filter);
        assert(peers@.take(0).filter(chosen).map_values(peer) =~= Seq::<PeerId>::empty());
    }
    while i < peers.len()
        invariant
            i <= peers@.len(),
            chosen == (|p: (PeerId, NodeId)| on_chain(nodeids@, p.1@)),
            peer == (|p: (PeerId, NodeId)| p.0),
            r@ == peers@.take(i as int).filter(chosen).map_values(peer),
        decreases peers@.len() - i,
    {
        let ghost before = peers@.take(i as int).filter(chosen);
        proof {
            reveal(Seq::filter);
            assert(peers@.take(i + 1).drop_last() =~= peers@.take(i as int));
        }
        if stands_on_chain(nodeids, &peers[i].1) {
            r.push(peers[i].0);
            assert(before.push(peers@[i as int]).map_values(peer) =~= before.map_values(peer).push(
                peers@[i as int].0,
            ));
        }
        i += 1;
    }
    assert(peers@.take(i as int) =~= peers@);
    r
}

/// Once the network was armed the listener refreshes for good, whatever it learns.
pub proof fn law_refreshes_for_good(event: ListenerEvent)
    ensures
        next(ListenerState::Refreshing, event) == (
            ListenerState::Refreshing,
            ListenerAction::Apply,
        ),
{
}

/// The listener waits until the network is armed, and refreshes from then on: it applies the node ids
/// right away and then on every event. Notifications that were missed keep it waiting; once they are
/// closed before it was armed it stops for good.
pub proof fn law_listener(event: ListenerEvent)
    ensures
        next(ListenerState::Waiting, ListenerEvent::Armed) == (
            ListenerState::Refreshing,
            ListenerAction::Apply,
        ),
        next(ListenerState::Waiting, ListenerEvent::Lagged) == (
            ListenerState::Waiting,
            ListenerAction::AwaitNotice,
        ),
        next(ListenerState::Waiting, ListenerEvent::Tick) == (
            ListenerState::Waiting,
            ListenerAction::AwaitNotice,
        ),
        next(ListenerState::Waiting, ListenerEvent::Closed) == (
            ListenerState::Stopped,
            ListenerAction::Stop,
        ),
        next(ListenerState::Refreshing, event) == (
            ListenerState::Refreshing,
            ListenerAction::Apply,
        ),
        next(ListenerState::Stopped, event) == (ListenerState::Stopped, ListenerAction::Stop),
        REFRESH_INTERVAL_SECS == 60,
{
}

/// A peer is marked exactly if it was given with a node id that stands on chain.
pub proof fn law_marked_peers(
    peers: Seq<(PeerId, NodeId)>,
    nodeids: Seq<NodeId>,
    marked: Seq<PeerId>,
    peer: PeerId,
)
    requires
        marked == peers.filter(|p: (PeerId, NodeId)| on_chain(nodeids, p.1@)).map_values(
            |p: (PeerId, NodeId)| p.0,
        ),
    ensures
        marked.contains(peer) <==> exists|i: int, j: int|
            #![trigger peers[i], nodeids[j]]
            0 <= i < peers.len() && 0 <= j < nodeids.len() && peers[i].0 == peer && peers[i].1@
                == nodeids[j]@,
    decreases peers.len(),
{
    reveal(Seq::filter);
    let chosen = |p: (PeerId, NodeId)| on_chain(nodeids, p.1@);
    let id = |p: (PeerId, NodeId)| p.0;
    let kept = peers.filter(chosen);
    assert(marked =~= kept.map_values(id));
    if peers.len() > 0 {
        let before = peers.drop_last();
        let last = peers.last();
        let earlier = before.filter(chosen).map_values(id);
        law_marked_peers(before, nodeids, earlier, peer);
        assert(peers[peers.len() - 1] == last);
        assert forall|i: int| 0 <= i < before.len() implies #[trigger] before[i] == peers[i] by {}
        if chosen(last) {
            assert(marked =~= earlier.push(last.0));
            assert(marked[marked.len() - 1] == last.0);
            let j = choose|j: int| 0 <= j < nodeids.len() && (#[trigger] nodeids[j])@ == last.1@;
            assert(nodeids[j]@ == peers[peers.len() - 1].1@);
            if earlier.contains(peer) {
                assert(marked[earlier.index_of(peer)] == peer);
            }
            if marked.contains(peer) && peer != last.0 {
                let k = marked.index_of(peer);
                assert(earlier[k] == peer);
            }
        } else {
            assert(marked =~= earlier);
        }
        if earlier.contains(peer) {
            let (i, j) = choose|i: int, j: int|
                #![trigger before[i], nodeids[j]]
                0 <= i < before.len() && 0 <= j < nodeids.len() && before[i].0 == peer
                    && before[i].1@ == nodeids[j]@;
            assert(peers[i] == before[i]);
        }
        if exists|i: int, j: int|
            #![trigger peers[i], nodeids[j]]
            0 <= i < peers.len() && 0 <= j < nodeids.len() && peers[i].0 == peer && peers[i].1@
                == nodeids[j]@ {
            let (i, j) = choose|i: int, j: int|
                #![trigger peers[i], nodeids[j]]
                0 <= i < peers.len() && 0 <= j < nodeids.len() && peers[i].0 == peer && peers[i].1@
                    == nodeids[j]@;
            if i < before.len() {
                assert(before[i] == peers[i]);
            } else {
                assert(nodeids[j]@ == last.1@);
                assert(chosen(last));
            }
        }
    }
}

} // verus!
