//! Which peers votes are sent to.
use crate::node::network::bsc_protocol::registry;
use crate::node::network::bsc_protocol::registry::{contains_peer, is_proxyed_peer, ProxyedPeers};
use crate::node::primitives::{same_bytes, PeerId};
use crate::num::{u256_to_u128, U256};
use vstd::prelude::*;

verus! {

/// How far a peer may be from the local head, in blocks or in total difficulty.
pub const DELTA_TD_THRESHOLD: u128 = 20;

/// What is known of a peer's chain.
#[derive(Debug, Clone, Copy, PartialEq, Eq)]
pub struct PeerInfo {
    pub best_number: Option<u64>,
    pub best_td: Option<U256>,
}

/// Whether two numbers are near each other.
pub open spec fn near(a: int, b: int) -> bool {
    -DELTA_TD_THRESHOLD <= a - b <= DELTA_TD_THRESHOLD
}

/// Whether a peer's chain is near enough. Its latest block counts first, its total difficulty if that
/// is unknown. A total difficulty beyond the local range is far away; without anything to go by the
/// peer is given the benefit of the doubt.
pub open spec fn near_enough(info: PeerInfo, local_number: u64, local_td: Option<u128>) -> bool {
    match info.best_number {
        Some(n) => near(local_number as int, n as int),
        None => match (local_td, info.best_td) {
            (Some(local), Some(td)) => td@ <= u128::MAX && near(local as int, td@ as int),
            _ => true,
        },
    }
}

/// Whether votes go to a peer: to a trusted one always, to another if its chain is near enough or
/// nothing is known of it.
pub open spec fn votes_allowed(
    trusted: bool,
    info: Option<PeerInfo>,
    local_number: u64,
    local_td: Option<u128>,
) -> bool {
    trusted || match info {
        Some(i) => near_enough(i, local_number, local_td),
        None => true,
    }
}

fn within_threshold(a: u128, b: u128) -> (r: bool)
    ensures
        r == near(a as int, b as int),
{
    if a >= b {
        a - b <= DELTA_TD_THRESHOLD
    } else {
        b - a <= DELTA_TD_THRESHOLD
    }
}

/// Whether votes go to a peer.
pub fn allow_votes(
    trusted: bool,
    info: Option<PeerInfo>,
    local_number: u64,
    local_td: Option<u128>,
) -> (r: bool)
    ensures
        r == votes_allowed(trusted, info, local_number, local_td),
{
    if trusted {
        return true;
    }
    match info {
        None => true,
        Some(i) => match i.best_number {
            Some(n) => within_threshold(local_number as u128, n as u128),
            None => match (local_td, i.best_td) {
                (Some(local), Some(td)) => match u256_to_u128(td) {
                    Some(td) => within_threshold(local, td),
                    None => false,
                },
                _ => true,
            },
        },
    }
}

/// What is known of a peer: what the last entry for it says.
pub open spec fn info_of(infos: Seq<(PeerId, PeerInfo)>, peer: Seq<u8>) -> Option<PeerInfo>
    decreases infos.len(),
{
    if infos.len() == 0 {
        None
    } else if infos.last().0@ == peer {
        Some(infos.last().1)
    } else {
        info_of(infos.drop_last(), peer)
    }
}

fn find_info(infos: &Vec<(PeerId, PeerInfo)>, peer: &PeerId) -> (r: Option<PeerInfo>)
    ensures
        r == info_of(infos@, peer@),
{
    let mut left: usize = infos.len();
    assert(infos@.take(left as int) =~= infos@);
    while left > 0
        invariant
            left <= infos@.len(),
            info_of(infos@, peer@) == info_of(infos@.take(left as int), peer@),
        decreases left,
    {
        let ghost here = infos@.take(left as int);
        left -= 1;
        assert(here.drop_last() =~= infos@.take(left as int));
        assert(here.last() == infos@[left as int]);
        if same_bytes(&infos[left].0, peer) {
            return Some(infos[left].1);
        }
    }
    None
}

/// What the choice of peers rests on.
pub struct VoteContext<'a> {
    pub evn_peers: &'a Vec<PeerId>,
    pub proxyed_peers: &'a ProxyedPeers,
    pub infos: &'a Vec<(PeerId, PeerInfo)>,
    pub local_number: Option<u64>,
    pub local_td: Option<u128>,
}

impl<'a> VoteContext<'a> {
    /// Whether votes go to a peer. Peers of the validators' own network and proxyed peers are
    /// trusted; a local head that is not known counts as the genesis block.
    pub open spec fn sends_to(&self, peer: Seq<u8>) -> bool {
        votes_allowed(
            registry::peer_views(self.evn_peers@).to_set().contains(peer)
                || self.proxyed_peers@.contains(peer),
            info_of(self.infos@, peer),
            match self.local_number {
                Some(n) => n,
                None => 0,
            },
            self.local_td,
        )
    }

    fn wants(&self, peer: &PeerId) -> (r: bool)
        ensures
            r == self.sends_to(peer@),
    {
        let trusted = contains_peer(self.evn_peers, peer) || is_proxyed_peer(
            self.proxyed_peers,
            peer,
        );
        let local_number: u64 = match self.local_number {
            Some(n) => n,
            None => 0,
        };
        allow_votes(trusted, find_info(self.infos, peer), local_number, self.local_td)
    }
}

/// Broadcast votes to all connected peers: those of the registered peers that the votes go to, in
/// the order in which they are given.
pub fn broadcast_votes(registered: &Vec<PeerId>, context: &VoteContext) -> (r: Vec<PeerId>)
    ensures
        r@ == registered@.filter(|p: PeerId| context.sends_to(p@)),
{
    let mut r: Vec<PeerId> = Vec::new();
    let mut i: usize = 0;
    let ghost chosen = |p: PeerId| context.sends_to(p@);
    proof {
        reveal(Seq::filter);
        assert(registered@.take(0).filter(chosen) =~= Seq::<PeerId>::empty());
    }
    while i < registered.len()
        invariant
            i <= registered@.len(),
            chosen == (|p: PeerId| context.sends_to(p@)),
            r@ == registered@.take(i as int).filter(chosen),
        decreases registered@.len() - i,
    {
        proof {
            reveal(Seq::filter);
            assert(registered@.take(i + 1).drop_last() =~= registered@.take(i as int));
        }
        if context.wants(&registered[i]) {
            r.push(registered[i]);
        }
        i += 1;
    }
    assert(registered@.take(i as int) =~= registered@);
    r
}

/// Peers of the validators' own network, proxyed peers and peers of which nothing is known are never
/// left out.
pub proof fn law_never_left_out(context: VoteContext, peer: Seq<u8>)
    requires
        registry::peer_views(context.evn_peers@).to_set().contains(peer)
            || context.proxyed_peers@.contains(peer) || info_of(context.infos@, peer) is None,
    ensures
        context.sends_to(peer),
{
}

/// What is known of a peer is what the last entry for it says, whatever the entries in front of it and
/// those for others say; of a peer without an entry nothing is known.
pub proof fn law_last_entry_counts(infos: Seq<(PeerId, PeerInfo)>, peer: Seq<u8>)
    ensures
        forall|k: int|
            0 <= k < infos.len() && (#[trigger] infos[k]).0@ == peer && (forall|j: int|
                k < j < infos.len() ==> (#[trigger] infos[j]).0@ != peer) ==> info_of(infos, peer)
                == Some(infos[k].1),
        (forall|j: int| 0 <= j < infos.len() ==> (#[trigger] infos[j]).0@ != peer) ==> info_of(
            infos,
            peer,
        ) is None,
    decreases infos.len(),
{
    if infos.len() > 0 {
        let earlier = infos.drop_last();
        law_last_entry_counts(earlier, peer);
        assert(infos.last() == infos[infos.len() - 1]);
        assert forall|k: int|
            0 <= k < infos.len() && (#[trigger] infos[k]).0@ == peer && (forall|j: int|
                k < j < infos.len() ==> (#[trigger] infos[j]).0@ != peer) implies info_of(
            infos,
            peer,
        ) == Some(infos[k].1) by {
            if k < infos.len() - 1 {
                assert(infos[infos.len() - 1].0@ != peer);
                assert(earlier[k] == infos[k]);
                assert forall|j: int| k < j < earlier.len() implies (#[trigger] earlier[j]).0@
                    != peer by {
                    assert(earlier[j] == infos[j]);
                }
            }
        }
        if forall|j: int| 0 <= j < infos.len() ==> (#[trigger] infos[j]).0@ != peer {
            assert forall|j: int| 0 <= j < earlier.len() implies (#[trigger] earlier[j]).0@
                != peer by {
                assert(earlier[j] == infos[j]);
            }
        }
    }
}

/// Whether a list holds a peer.
proof fn lemma_listed(peers: Seq<PeerId>, peer: Seq<u8>)
    ensures
        registry::peer_views(peers).to_set().contains(peer) <==> exists|i: int|
            0 <= i < peers.len() && (#[trigger] peers[i])@ == peer,
{
    let views = registry::peer_views(peers);
    if views.to_set().contains(peer) {
        let i = views.index_of(peer);
        assert(peers[i]@ == peer);
    }
    if exists|i: int| 0 <= i < peers.len() && (#[trigger] peers[i])@ == peer {
        let i = choose|i: int| 0 <= i < peers.len() && (#[trigger] peers[i])@ == peer;
        assert(views[i] == peer);
        assert(views.contains(peer));
    }
}

proof fn lemma_filtered_is_there(s: Seq<PeerId>, chosen: spec_fn(PeerId) -> bool, i: int)
    requires
        0 <= i < s.filter(chosen).len(),
    ensures
        s.contains(s.filter(chosen)[i]),
    decreases s.len(),
{
    reveal(Seq::filter);
    let earlier = s.drop_last();
    let kept = earlier.filter(chosen);
    if i < kept.len() {
        lemma_filtered_is_there(earlier, chosen, i);
        let j = earlier.index_of(kept[i]);
        assert(s[j] == kept[i]);
        assert(s.filter(chosen)[i] == kept[i]);
    } else {
        assert(s[s.len() - 1] == s.filter(chosen)[i]);
    }
}

/// The peers that votes go to are registered ones, and a registered peer is left out only if votes do
/// not go to it.
proof fn lemma_chosen(context: VoteContext, registered: Seq<PeerId>, peer: PeerId)
    ensures
        registered.filter(|p: PeerId| context.sends_to(p@)).contains(peer) <==> registered.contains(
            peer,
        ) && context.sends_to(peer@),
{
    broadcast use vstd::seq_lib::group_filter_ensures;

    let chosen = |p: PeerId| context.sends_to(p@);
    let r = registered.filter(chosen);
    assert(r == registered.filter(|p: PeerId| context.sends_to(p@)));
    if r.contains(peer) {
        let i = r.index_of(peer);
        assert(chosen(r[i]));
        lemma_filtered_is_there(registered, chosen, i);
    }
    if registered.contains(peer) && context.sends_to(peer@) {
        let i = registered.index_of(peer);
        assert(chosen(registered[i]));
        assert(r.contains(registered[i]));
    }
}

/// A registered peer that is neither of the validators' own network nor proxyed, and whose latest
/// block is known, is sent votes exactly if that block and the latest one here are at most twenty
/// apart. A latest block here that is not known counts as block zero.
pub proof fn law_votes_by_distance(
    context: VoteContext,
    registered: Seq<PeerId>,
    chosen: Seq<PeerId>,
    peer: PeerId,
    entry: int,
    theirs: u64,
)
    requires
        chosen == registered.filter(|p: PeerId| context.sends_to(p@)),
        registered.contains(peer),
        forall|i: int|
            0 <= i < context.evn_peers@.len() ==> (#[trigger] context.evn_peers@[i])@ != peer@,
        !context.proxyed_peers@.contains(peer@),
        0 <= entry < context.infos@.len(),
        context.infos@[entry].0@ == peer@,
        forall|j: int|
            entry < j < context.infos@.len() ==> (#[trigger] context.infos@[j]).0@ != peer@,
        context.infos@[entry].1.best_number == Some(theirs),
    ensures
        context.local_number matches Some(ours) ==> (chosen.contains(peer) <==> -20 <= ours - theirs
            <= 20),
        context.local_number is None ==> (chosen.contains(peer) <==> theirs <= 20),
{
    lemma_chosen(context, registered, peer);
    lemma_listed(context.evn_peers@, peer@);
    law_last_entry_counts(context.infos@, peer@);
}

/// A registered peer that is neither of the validators' own network nor proxyed, and of which the
/// total difficulty is known but not the latest block, is sent votes exactly if its total difficulty
/// and the one here are at most twenty apart.
pub proof fn law_votes_by_total_difficulty(
    context: VoteContext,
    registered: Seq<PeerId>,
    chosen: Seq<PeerId>,
    peer: PeerId,
    entry: int,
    theirs: U256,
    ours: u128,
)
    requires
        chosen == registered.filter(|p: PeerId| context.sends_to(p@)),
        registered.contains(peer),
        forall|i: int|
            0 <= i < context.evn_peers@.len() ==> (#[trigger] context.evn_peers@[i])@ != peer@,
        !context.proxyed_peers@.contains(peer@),
        0 <= entry < context.infos@.len(),
        context.infos@[entry].0@ == peer@,
        forall|j: int|
            entry < j < context.infos@.len() ==> (#[trigger] context.infos@[j]).0@ != peer@,
        context.infos@[entry].1.best_number is None,
        context.infos@[entry].1.best_td == Some(theirs),
        context.local_td == Some(ours),
    ensures
        chosen.contains(peer) <==> theirs@ <= u128::MAX && -20 <= ours - theirs@ <= 20,
{
    lemma_chosen(context, registered, peer);
    lemma_listed(context.evn_peers@, peer@);
    law_last_entry_counts(context.infos@, peer@);
}

/// A registered peer is sent votes if it is of the validators' own network or proxyed, if nothing is
/// known of it, or if there is nothing that its chain could be measured by.
pub proof fn law_votes_in_doubt(
    context: VoteContext,
    registered: Seq<PeerId>,
    chosen: Seq<PeerId>,
    peer: PeerId,
)
    requires
        chosen == registered.filter(|p: PeerId| context.sends_to(p@)),
        registered.contains(peer),
    ensures
        (exists|i: int|
            0 <= i < context.evn_peers@.len() && (#[trigger] context.evn_peers@[i])@ == peer@)
            ==> chosen.contains(peer),
        context.proxyed_peers@.contains(peer@) ==> chosen.contains(peer),
        (forall|j: int|
            0 <= j < context.infos@.len() ==> (#[trigger] context.infos@[j]).0@ != peer@)
            ==> chosen.contains(peer),
        (forall|j: int|
            0 <= j < context.infos@.len() && (#[trigger] context.infos@[j]).0@ == peer@ ==> {
                let info = context.infos@[j].1;
                info.best_number is None && (info.best_td is None || context.local_td is None)
            }) ==> chosen.contains(peer),
{
    lemma_chosen(context, registered, peer);
    lemma_listed(context.evn_peers@, peer@);
    law_last_entry_counts(context.infos@, peer@);
    lemma_known_entry(context.infos@, peer@);
}

/// What is known of a peer stands in an entry for it.
proof fn lemma_known_entry(infos: Seq<(PeerId, PeerInfo)>, peer: Seq<u8>)
    ensures
        info_of(infos, peer) matches Some(info) ==> exists|j: int|
            0 <= j < infos.len() && (#[trigger] infos[j]).0@ == peer && infos[j].1 == info,
    decreases infos.len(),
{
    if infos.len() > 0 {
        assert(infos.last() == infos[infos.len() - 1]);
        let earlier = infos.drop_last();
        lemma_known_entry(earlier, peer);
        if infos.last().0@ != peer {
            if let Some(info) = info_of(earlier, peer) {
                let j = choose|j: int|
                    0 <= j < earlier.len() && (#[trigger] earlier[j]).0@ == peer && earlier[j].1
                        == info;
                assert(infos[j] == earlier[j]);
            }
        }
    }
}

/// Votes go to registered peers only.
pub proof fn law_votes_go_to_registered_peers(
    context: VoteContext,
    registered: Seq<PeerId>,
    chosen: Seq<PeerId>,
    peer: PeerId,
)
    requires
        chosen == registered.filter(|p: PeerId| context.sends_to(p@)),
        chosen.contains(peer),
    ensures
        registered.contains(peer),
{
    lemma_chosen(context, registered, peer);
}

/// A peer that is not trusted and whose latest block is known is sent votes exactly if one that is as
/// far on the other side of the local head is, whatever is known of total difficulties.
pub proof fn law_ahead_or_behind(local: u64, n: u64, m: u64, td: Option<U256>, local_td: Option<u128>)
    requires
        local - n == m - local,
    ensures
        votes_allowed(
            false,
            Some(PeerInfo { best_number: Some(n), best_td: td }),
            local,
            local_td,
        ) == votes_allowed(
            false,
            Some(PeerInfo { best_number: Some(m), best_td: None }),
            local,
            None,
        ),
        votes_allowed(
            false,
            Some(PeerInfo { best_number: Some(n), best_td: td }),
            local,
            local_td,
        ) <==> -20 <= local - n <= 20,
{
}

} // verus!
