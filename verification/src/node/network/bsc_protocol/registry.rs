//! The peers that speak the protocol, and the requests that are sent to them.
use crate::node::network::blocks_by_range::{
    BlocksByRangePacket, GetBlocksByRangePacket, MAX_REQUEST_RANGE_BLOCKS_COUNT,
};
use crate::node::primitives;
use crate::node::primitives::{same_bytes, BscBlock, BscBlockView, PeerId, B256};
use crate::num::U256;
use crate::text;
use crate::text::push_decimal;
use vstd::prelude::*;
use vstd::string::*;

verus! {

// ---- the registry ----

/// The active senders, one per peer.
pub struct Registry<Tx> {
    entries: Vec<(PeerId, Tx)>,
}

/// Where the peer is among the entries.
spec fn at<Tx>(entries: Seq<(PeerId, Tx)>, peer: Seq<u8>, i: int) -> bool {
    0 <= i < entries.len() && entries[i].0@ == peer
}

impl<Tx> View for Registry<Tx> {
    type V = Map<Seq<u8>, Tx>;

    closed spec fn view(&self) -> Map<Seq<u8>, Tx> {
        Map::new(
            |peer: Seq<u8>| exists|i: int| at(self.entries@, peer, i),
            |peer: Seq<u8>| self.entries@[choose|i: int| at(self.entries@, peer, i)].1,
        )
    }
}

impl<Tx> Registry<Tx> {
    /// No peer is registered twice.
    pub closed spec fn wf(&self) -> bool {
        forall|i: int, j: int|
            0 <= i < j < self.entries@.len() ==> (#[trigger] self.entries@[i]).0@ != (
            #[trigger] self.entries@[j]).0@
    }

    proof fn lemma_entry(&self, i: int)
        requires
            self.wf(),
            0 <= i < self.entries@.len(),
        ensures
            self@.dom().contains(self.entries@[i].0@),
            self@[self.entries@[i].0@] == self.entries@[i].1,
    {
        let peer = self.entries@[i].0@;
        assert(at(self.entries@, peer, i));
        let k = choose|k: int| at(self.entries@, peer, k);
        assert(at(self.entries@, peer, k));
        if k < i {
            assert(self.entries@[k].0@ != self.entries@[i].0@);
        } else if i < k {
            assert(self.entries@[i].0@ != self.entries@[k].0@);
        }
    }

    /// A registry without peers.
    pub fn new() -> (r: Self)
        ensures
            r.wf(),
            r@ == Map::<Seq<u8>, Tx>::empty(),
    {
        let r = Registry { entries: Vec::new() };
        assert(r@ =~= Map::<Seq<u8>, Tx>::empty());
        r
    }

    fn find(&self, peer: &PeerId) -> (r: Option<usize>)
        requires
            self.wf(),
        ensures
            match r {
                Some(i) => at(self.entries@, peer@, i as int) && self@.dom().contains(peer@)
                    && self@[peer@] == self.entries@[i as int].1,
                None => !self@.dom().contains(peer@),
            },
    {
        let mut i: usize = 0;
        while i < self.entries.len()
            invariant
                i <= self.entries@.len(),
                self.wf(),
                forall|j: int| 0 <= j < i ==> (#[trigger] self.entries@[j]).0@ != peer@,
            decreases self.entries@.len() - i,
        {
            if same_bytes(&self.entries[i].0, peer) {
                proof {
                    self.lemma_entry(i as int);
                }
                return Some(i);
            }
            i += 1;
        }
        None
    }

    /// The sender of a peer.
    pub fn get(&self, peer: &PeerId) -> (r: Option<&Tx>)
        requires
            self.wf(),
        ensures
            match r {
                Some(tx) => self@.dom().contains(peer@) && *tx == self@[peer@],
                None => !self@.dom().contains(peer@),
            },
    {
        match self.find(peer) {
            Some(i) => Some(&self.entries[i].1),
            None => None,
        }
    }
}

/// Register a new peer's sender channel. A sender that the peer had before is replaced.
pub fn register_peer<Tx>(registry: &mut Registry<Tx>, peer: PeerId, tx: Tx)
    requires
        old(registry).wf(),
    ensures
        final(registry).wf(),
        final(registry)@ == old(registry)@.insert(peer@, tx),
{
    let ghost before = registry.entries@;
    match registry.find(&peer) {
        Some(i) => {
            registry.entries.set(i, (peer, tx));
        },
        None => {
            proof {
                assert forall|j: int| 0 <= j < before.len() implies (#[trigger] before[j]).0@
                    != peer@ by {
                    registry.lemma_entry(j);
                }
            }
            registry.entries.push((peer, tx));
        },
    }
    proof {
        let now = registry.entries@;
        assert forall|i: int, j: int| 0 <= i < j < now.len() implies (#[trigger] now[i]).0@ != (
        #[trigger] now[j]).0@ by {
            if i < before.len() && j < before.len() {
                assert(before[i].0@ != before[j].0@);
            }
        }
        assert(registry.wf());
        assert forall|p: Seq<u8>| registry@.dom().contains(p) == old(registry)@.insert(
            peer@,
            tx,
        ).dom().contains(p) by {
            if old(registry)@.dom().contains(p) {
                let i = choose|i: int| at(before, p, i);
                assert(at(before, p, i));
                assert(at(now, p, i));
            }
            if registry@.dom().contains(p) && p != peer@ {
                let i = choose|i: int| at(now, p, i);
                assert(at(now, p, i));
                assert(at(before, p, i));
            }
            if p == peer@ {
                let i = if now.len() > before.len() {
                    before.len() as int
                } else {
                    choose|i: int| 0 <= i < now.len() && now[i] == (peer, tx)
                };
                assert(at(now, p, i));
            }
        }
        assert forall|p: Seq<u8>| #[trigger] registry@.dom().contains(p) implies registry@[p]
            == old(registry)@.insert(peer@, tx)[p] by {
            let i = choose|i: int| at(now, p, i);
            assert(at(now, p, i));
            registry.lemma_entry(i);
            if p != peer@ {
                assert(at(before, p, i));
                old(registry).lemma_entry(i);
            }
        }
        assert(registry@ =~= old(registry)@.insert(peer@, tx));
    }
}

/// The identities in a list.
pub open spec fn peer_views(peers: Seq<PeerId>) -> Seq<Seq<u8>> {
    peers.map_values(|p: PeerId| p@)
}

/// Snapshot the currently registered peers: each of them once.
pub fn list_registered_peers<Tx>(registry: &Registry<Tx>) -> (r: Vec<PeerId>)
    requires
        registry.wf(),
    ensures
        peer_views(r@).no_duplicates(),
        peer_views(r@).to_set() == registry@.dom(),
{
    let mut r: Vec<PeerId> = Vec::new();
    let mut i: usize = 0;
    while i < registry.entries.len()
        invariant
            i <= registry.entries@.len(),
            r@.len() == i,
            forall|j: int| 0 <= j < i ==> #[trigger] r@[j] == registry.entries@[j].0,
        decreases registry.entries@.len() - i,
    {
        r.push(registry.entries[i].0);
        i += 1;
    }
    proof {
        let views = peer_views(r@);
        assert forall|a: int, b: int| 0 <= a < views.len() && 0 <= b < views.len() && a
            != b implies views[a] != views[b] by {
            assert(r@[a] == registry.entries@[a].0 && r@[b] == registry.entries@[b].0);
            if a < b {
                assert(registry.entries@[a].0@ != registry.entries@[b].0@);
            } else {
                assert(registry.entries@[b].0@ != registry.entries@[a].0@);
            }
        }
        assert forall|p: Seq<u8>| views.to_set().contains(p) == registry@.dom().contains(p) by {
            if registry@.dom().contains(p) {
                let k = choose|k: int| at(registry.entries@, p, k);
                assert(at(registry.entries@, p, k));
                assert(r@[k] == registry.entries@[k].0);
                assert(views[k] == p);
            }
            if views.contains(p) {
                let k = choose|k: int| 0 <= k < views.len() && views[k] == p;
                assert(r@[k] == registry.entries@[k].0);
                assert(at(registry.entries@, p, k));
            }
        }
        assert(views.to_set() =~= registry@.dom());
    }
    r
}

/// Returns true if the given peer is registered.
pub fn has_registered_peer<Tx>(registry: &Registry<Tx>, peer: PeerId) -> (r: bool)
    requires
        registry.wf(),
    ensures
        r == registry@.dom().contains(peer@),
{
    match registry.find(&peer) {
        Some(_) => true,
        None => false,
    }
}

/// Takes one peer out of the registry.
fn remove_peer<Tx>(registry: &mut Registry<Tx>, peer: &PeerId)
    requires
        old(registry).wf(),
    ensures
        final(registry).wf(),
        final(registry)@ == old(registry)@.remove(peer@),
{
    let ghost before = registry.entries@;
    match registry.find(peer) {
        Some(i) => {
            registry.entries.remove(i);
            proof {
                let now = registry.entries@;
                let back: spec_fn(int) -> int = |j: int|
                    if j < i {
                        j
                    } else {
                        j + 1
                    };
                assert forall|j: int| 0 <= j < now.len() implies #[trigger] now[j]
                    == before[back(j)] by {}
                assert forall|a: int, b: int| 0 <= a < b < now.len() implies (
                #[trigger] now[a]).0@ != (#[trigger] now[b]).0@ by {
                    assert(before[back(a)].0@ != before[back(b)].0@);
                }
                assert(registry.wf());
                assert forall|p: Seq<u8>| registry@.dom().contains(p) == old(registry)@.remove(
                    peer@,
                ).dom().contains(p) by {
                    if registry@.dom().contains(p) {
                        let j = choose|j: int| at(now, p, j);
                        assert(at(now, p, j));
                        assert(at(before, p, back(j)));
                        if back(j) < i {
                            assert(before[back(j)].0@ != before[i as int].0@);
                        } else {
                            assert(before[i as int].0@ != before[back(j)].0@);
                        }
                    }
                    if old(registry)@.dom().contains(p) && p != peer@ {
                        let k = choose|k: int| at(before, p, k);
                        assert(at(before, p, k));
                        let j = if k < i { k } else { k - 1 };
                        assert(now[j] == before[back(j)]);
                        assert(at(now, p, j));
                    }
                }
                assert forall|p: Seq<u8>| #[trigger] registry@.dom().contains(p) implies
                    registry@[p] == old(registry)@[p] by {
                    let j = choose|j: int| at(now, p, j);
                    assert(at(now, p, j));
                    registry.lemma_entry(j);
                    old(registry).lemma_entry(back(j));
                }
                assert(registry@ =~= old(registry)@.remove(peer@));
            }
        },
        None => {
            assert(old(registry)@.remove(peer@) =~= old(registry)@);
        },
    }
}

/// Takes the peers out of the registry that could not be sent to.
pub fn remove_peers<Tx>(registry: &mut Registry<Tx>, gone: &Vec<PeerId>)
    requires
        old(registry).wf(),
    ensures
        final(registry).wf(),
        final(registry)@ == old(registry)@.remove_keys(peer_views(gone@).to_set()),
{
    let mut i: usize = 0;
    proof {
        assert(peer_views(gone@.take(0)).to_set() =~= Set::<Seq<u8>>::empty());
        assert(old(registry)@.remove_keys(Set::<Seq<u8>>::empty()) =~= old(registry)@);
    }
    while i < gone.len()
        invariant
            i <= gone@.len(),
            registry.wf(),
            registry@ == old(registry)@.remove_keys(peer_views(gone@.take(i as int)).to_set()),
        decreases gone@.len() - i,
    {
        let ghost before = registry@;
        remove_peer(registry, &gone[i]);
        proof {
            let a = peer_views(gone@.take(i as int));
            let b = peer_views(gone@.take(i + 1));
            assert(b =~= a.push(gone@[i as int]@));
            assert forall|p: Seq<u8>| b.to_set().contains(p) == a.to_set().insert(
                gone@[i as int]@,
            ).contains(p) by {
                if a.contains(p) {
                    let k = choose|k: int| 0 <= k < a.len() && a[k] == p;
                    assert(b[k] == p);
                }
                assert(b[a.len() as int] == gone@[i as int]@);
            }
            assert(b.to_set() =~= a.to_set().insert(gone@[i as int]@));
            assert(before.remove(gone@[i as int]@) =~= old(registry)@.remove_keys(b.to_set()));
        }
        i += 1;
    }
    assert(gone@.take(i as int) =~= gone@);
}

// ---- proxyed peers ----

/// The peers that this node stands in front of.
pub struct ProxyedPeers {
    ids: Vec<PeerId>,
}

impl View for ProxyedPeers {
    type V = Set<Seq<u8>>;

    closed spec fn view(&self) -> Set<Seq<u8>> {
        peer_views(self.ids@).to_set()
    }
}

impl ProxyedPeers {
    /// No peers at all.
    pub fn new() -> (r: Self)
        ensures
            r@ == Set::<Seq<u8>>::empty(),
    {
        let r = ProxyedPeers { ids: Vec::new() };
        assert(r@ =~= Set::<Seq<u8>>::empty());
        r
    }
}

/// Initialize the proxyed peers from a list of peer IDs. Whatever was there before is forgotten.
pub fn initialize_proxyed_peers(peers: &mut ProxyedPeers, peer_ids: Vec<PeerId>)
    ensures
        final(peers)@ == peer_views(peer_ids@).to_set(),
{
    peers.ids = peer_ids;
}

/// Check if a peer is in the proxyed peers list.
pub fn is_proxyed_peer(peers: &ProxyedPeers, peer_id: &PeerId) -> (r: bool)
    ensures
        r == peers@.contains(peer_id@),
{
    contains_peer(&peers.ids, peer_id)
}

/// Whether a list holds a peer.
pub fn contains_peer(ids: &Vec<PeerId>, peer_id: &PeerId) -> (r: bool)
    ensures
        r == peer_views(ids@).to_set().contains(peer_id@),
{
    let mut i: usize = 0;
    while i < ids.len()
        invariant
            i <= ids@.len(),
            forall|j: int| 0 <= j < i ==> (#[trigger] ids@[j])@ != peer_id@,
        decreases ids@.len() - i,
    {
        if same_bytes(&ids[i], peer_id) {
            assert(peer_views(ids@)[i as int] == peer_id@);
            return true;
        }
        i += 1;
    }
    false
}

// ---- requests for ranges ----

/// Simple request id generator for GetBlocksByRange.
#[derive(Debug, Clone, Copy, PartialEq, Eq)]
pub struct RequestCounter {
    next: u64,
}

impl View for RequestCounter {
    type V = u64;

    closed spec fn view(&self) -> u64 {
        self.next
    }
}

/// The id behind this one. Behind the largest one it starts over at zero.
pub open spec fn next_id(id: u64) -> u64 {
    if id == u64::MAX {
        0
    } else {
        (id + 1) as u64
    }
}

/// The id that comes `n` requests after this one.
pub open spec fn id_after(id: u64, n: nat) -> u64
    decreases n,
{
    if n == 0 {
        id
    } else {
        next_id(id_after(id, (n - 1) as nat))
    }
}

proof fn lemma_id_after(id: u64, n: nat)
    ensures
        id_after(id, n) == (id + n) % 0x1_0000_0000_0000_0000,
    decreases n,
{
    if n > 0 {
        lemma_id_after(id, (n - 1) as nat);
    }
}

/// A request has another id than those before it, as long as not all the ids there are have been
/// used since.
pub proof fn law_ids_differ(id: u64, n: nat)
    requires
        0 < n <= u64::MAX,
    ensures
        id_after(id, n) != id,
{
    lemma_id_after(id, n);
}

impl RequestCounter {
    /// A generator whose first id is one.
    pub fn new() -> (r: Self)
        ensures
            r@ == 1,
    {
        RequestCounter { next: 1 }
    }

    /// The next id.
    pub fn take(&mut self) -> (r: u64)
        ensures
            r == old(self)@,
            final(self)@ == next_id(old(self)@),
    {
        let r = self.next;
        self.next = self.next.wrapping_add(1);
        r
    }
}

/// Hand the packet to the peer's sender.
pub struct SendRequest<'a, Tx> {
    pub tx: &'a Tx,
    pub packet: GetBlocksByRangePacket,
}

/// What a range request does next.
pub enum RangeStep<'a, Tx> {
    /// Send the packet.
    Send(SendRequest<'a, Tx>),
    /// Nothing: it failed before anything was sent.
    Failed(String),
}

/// What came of waiting for an answer.
pub enum RangeReply {
    /// The peer's answer, or the error of whoever waited for it.
    Answered(Result<BlocksByRangePacket, String>),
    /// Nobody waits for the answer any more.
    Canceled,
    /// Time is up.
    TimedOut,
}

/// Whether so many blocks may be asked for.
pub open spec fn count_allowed(count: u64) -> bool {
    0 < count <= MAX_REQUEST_RANGE_BLOCKS_COUNT
}

/// Request blocks by range from a specific peer: the packet to send, with an id of its own, unless
/// the count is out of range or the peer is not registered. Only a packet uses up an id.
pub fn request_blocks_by_range<'a, Tx>(
    registry: &'a Registry<Tx>,
    counter: &mut RequestCounter,
    peer: PeerId,
    start_height: u64,
    start_hash: B256,
    count: u64,
) -> (r: RangeStep<'a, Tx>)
    requires
        registry.wf(),
    ensures
        !count_allowed(count) ==> (r matches RangeStep::Failed(e) && e@ == "invalid count "@
            + text::decimal(count as nat)),
        count_allowed(count) && !registry@.dom().contains(peer@) ==> (r matches RangeStep::Failed(
            e,
        ) && e@ == "peer not registered for bsc protocol"@),
        count_allowed(count) && registry@.dom().contains(peer@) ==> (r matches RangeStep::Send(
            s,
        ) && *s.tx == registry@[peer@] && s.packet == (GetBlocksByRangePacket {
            request_id: old(counter)@,
            start_block_height: start_height,
            start_block_hash: start_hash,
            count,
        })),
        r is Send ==> final(counter)@ == next_id(old(counter)@),
        !(r is Send) ==> final(counter)@ == old(counter)@,
{
    if count == 0 || count > MAX_REQUEST_RANGE_BLOCKS_COUNT {
        let mut message = String::from_str("invalid count ");
        push_decimal(&mut message, count);
        return RangeStep::Failed(message);
    }
    match registry.get(&peer) {
        None => RangeStep::Failed(String::from_str("peer not registered for bsc protocol")),
        Some(tx) => {
            let request_id = counter.take();
            let packet = GetBlocksByRangePacket {
                request_id,
                start_block_height: start_height,
                start_block_hash: start_hash,
                count,
            };
            RangeStep::Send(SendRequest { tx, packet })
        },
    }
}

/// What a range request fails with when its packet could not be sent.
pub fn request_not_sent() -> (r: String)
    ensures
        r@ == "failed to send GetBlocksByRange command"@,
{
    String::from_str("failed to send GetBlocksByRange command")
}

/// What a range request ends with.
pub fn finish_request(reply: RangeReply) -> (r: Result<BlocksByRangePacket, String>)
    ensures
        match reply {
            RangeReply::Answered(answer) => r == answer,
            RangeReply::Canceled => r matches Err(e) && e@ == "request canceled"@,
            RangeReply::TimedOut => r matches Err(e) && e@ == "request timed out"@,
        },
{
    match reply {
        RangeReply::Answered(answer) => answer,
        RangeReply::Canceled => Err(String::from_str("request canceled")),
        RangeReply::TimedOut => Err(String::from_str("request timed out")),
    }
}

// ---- forwarding an answer to the import ----

/// A block on its way to the import. Nothing is known of its total difficulty.
#[derive(Debug, Clone, PartialEq, Eq)]
pub struct BlockImport {
    pub hash: B256,
    pub block: BscBlock,
    pub td: U256,
}

/// Whether these are the messages for these blocks: one per block, the last block first.
pub open spec fn imports_of(blocks: Seq<BscBlock>, imports: Seq<BlockImport>) -> bool {
    &&& imports.len() == blocks.len()
    &&& forall|i: int|
        0 <= i < imports.len() ==> {
            let m = #[trigger] imports[i];
            &&& m.block@ == blocks[blocks.len() - 1 - i]@
            &&& m.hash@ == primitives::header_hash(m.block@.header)
            &&& m.td@ == 0
        }
}

/// The messages for the blocks of an answer, oldest block first.
pub fn import_messages(blocks: &Vec<BscBlock>) -> (r: Vec<BlockImport>)
    ensures
        imports_of(blocks@, r@),
{
    let mut r: Vec<BlockImport> = Vec::new();
    let mut left: usize = blocks.len();
    while left > 0
        invariant
            left <= blocks@.len(),
            r@.len() == blocks@.len() - left,
            forall|i: int|
                0 <= i < r@.len() ==> {
                    let m = #[trigger] r@[i];
                    &&& m.block@ == blocks@[blocks@.len() - 1 - i]@
                    &&& m.hash@ == primitives::header_hash(m.block@.header)
                    &&& m.td@ == 0
                },
        decreases left,
    {
        left -= 1;
        let block = blocks[left].clone();
        let hash = block.header.hash_slow();
        r.push(BlockImport { hash, block, td: U256::from_u64(0) });
    }
    r
}

/// Batch request a range and wait for the import of the returned blocks: the messages to forward to
/// the import, oldest to newest, none where there is no import to forward to. The wait for those that
/// were forwarded starts at [`await_import`].
pub fn batch_request_range_and_await_import(
    reply: Result<BlocksByRangePacket, String>,
    has_import_sender: bool,
) -> (r: Result<Vec<BlockImport>, String>)
    ensures
        match reply {
            Err(e) => r == Err::<Vec<BlockImport>, String>(e),
            Ok(packet) => r matches Ok(imports) && if has_import_sender {
                imports_of(packet.blocks@, imports@)
            } else {
                imports@.len() == 0
            },
        },
{
    match reply {
        Err(e) => Err(e),
        Ok(packet) => if has_import_sender {
            Ok(import_messages(&packet.blocks))
        } else {
            Ok(Vec::new())
        },
    }
}

/// Blocks that each are followed by their parent reach the import with each parent in front of its
/// child.
pub proof fn law_parents_first(blocks: Seq<BscBlock>, imports: Seq<BlockImport>)
    requires
        imports_of(blocks, imports),
        forall|i: int|
            0 <= i < blocks.len() - 1 ==> (#[trigger] blocks[i])@.header.parent_hash
                == primitives::header_hash(blocks[i + 1]@.header),
    ensures
        forall|i: int|
            0 <= i < imports.len() - 1 ==> (#[trigger] imports[i]).hash@ == imports[i
                + 1].block@.header.parent_hash,
{
    assert forall|i: int| 0 <= i < imports.len() - 1 implies (#[trigger] imports[i]).hash@
        == imports[i + 1].block@.header.parent_hash by {
        let n = blocks.len();
        let next = imports[i + 1];
        let child = blocks[n - 1 - (i + 1)];
        assert(next.block@ == child@);
        assert(child@.header.parent_hash == primitives::header_hash(blocks[n - 1 - i]@.header));
    }
}

// ---- waiting for the import ----

/// What the import reports.
pub enum ImportNotice {
    /// The block with this hash was imported.
    Imported(B256),
    /// Some reports were missed.
    Missed,
    /// There will be no more reports.
    Closed,
}

/// The wait for the import of blocks that were forwarded.
pub struct ImportWait {
    forwarded: Vec<B256>,
    open: Vec<B256>,
}

/// What an [`ImportWait`] waits for: the hashes that were forwarded, in order, and those among them
/// of which nothing was heard yet.
#[verifier::ext_equal]
pub struct ImportWaitView {
    pub forwarded: Seq<Seq<u8>>,
    pub open: Set<Seq<u8>>,
}

/// What hashes are, byte by byte.
pub open spec fn hash_views(hashes: Seq<B256>) -> Seq<Seq<u8>> {
    hashes.map_values(|h: B256| h@)
}

impl View for ImportWait {
    type V = ImportWaitView;

    closed spec fn view(&self) -> ImportWaitView {
        ImportWaitView {
            forwarded: hash_views(self.forwarded@),
            open: hash_views(self.open@).to_set(),
        }
    }
}

/// What the wait for an import does next.
pub enum ImportStep {
    /// Wait for the next notice.
    Wait(ImportWait),
    /// Nothing: it ended with the hashes that were imported, or it failed.
    Finished(Result<Vec<B256>, String>),
}

/// Whether a wait goes on like this with these hashes forwarded and these open: it ends with all
/// that were forwarded once none is open.
pub open spec fn goes_on(r: ImportStep, forwarded: Seq<Seq<u8>>, open: Set<Seq<u8>>) -> bool {
    if open == Set::<Seq<u8>>::empty() {
        r matches ImportStep::Finished(Ok(hashes)) && hash_views(hashes@) == forwarded
    } else {
        r matches ImportStep::Wait(w) && w@ == (ImportWaitView { forwarded, open })
    }
}

/// The hashes of the blocks that were forwarded.
pub open spec fn import_hashes(imports: Seq<BlockImport>) -> Seq<Seq<u8>> {
    imports.map_values(|m: BlockImport| m.hash@)
}

impl ImportWait {
    /// Ends if nothing is open.
    fn step(self) -> (r: ImportStep)
        ensures
            goes_on(r, self@.forwarded, self@.open),
    {
        if self.open.len() == 0 {
            assert(self@.open =~= Set::empty());
            ImportStep::Finished(Ok(self.forwarded))
        } else {
            assert(hash_views(self.open@)[0] == self.open@[0]@);
            assert(self@.open.contains(self.open@[0]@));
            ImportStep::Wait(self)
        }
    }

    /// Takes in a notice. That of a block that is not waited for changes nothing.
    pub fn resume(self, notice: ImportNotice) -> (r: ImportStep)
        ensures
            match notice {
                ImportNotice::Imported(hash) => goes_on(
                    r,
                    self@.forwarded,
                    self@.open.remove(hash@),
                ),
                ImportNotice::Missed => r matches ImportStep::Finished(Err(e)) && e@
                    == "import notices missed"@,
                ImportNotice::Closed => r matches ImportStep::Finished(Err(e)) && e@
                    == "import notices closed"@,
            },
    {
        match notice {
            ImportNotice::Imported(hash) => {
                let mut open: Vec<B256> = Vec::new();
                for i in 0..self.open.len()
                    invariant
                        hash_views(open@).to_set() == hash_views(self.open@).take(
                            i as int,
                        ).to_set().remove(hash@),
                {
                    let h = self.open[i];
                    let ghost before = hash_views(self.open@).take(i as int);
                    let ghost kept = hash_views(open@);
                    proof {
                        let next = hash_views(self.open@).take(i + 1);
                        assert(next =~= before.push(h@));
                        lemma_push_to_set(before, h@);
                        lemma_push_to_set(kept, h@);
                    }
                    if !same_bytes(&h, &hash) {
                        open.push(h);
                        assert(hash_views(open@) =~= kept.push(h@));
                    }
                    assert(hash_views(open@).to_set() =~= before.push(h@).to_set().remove(hash@));
                }
                assert(hash_views(self.open@).take(self.open@.len() as int) =~= hash_views(
                    self.open@,
                ));
                ImportWait { forwarded: self.forwarded, open }.step()
            },
            ImportNotice::Missed => ImportStep::Finished(
                Err(String::from_str("import notices missed")),
            ),
            ImportNotice::Closed => ImportStep::Finished(
                Err(String::from_str("import notices closed")),
            ),
        }
    }
}

proof fn lemma_push_to_set(s: Seq<Seq<u8>>, v: Seq<u8>)
    ensures
        s.push(v).to_set() == s.to_set().insert(v),
{
    let all = s.push(v).to_set();
    assert forall|x: Seq<u8>| #[trigger] all.contains(x) <==> s.to_set().insert(v).contains(x) by {
        if s.contains(x) {
            let i = s.index_of(x);
            assert(s.push(v)[i] == x);
        }
        assert(s.push(v)[s.len() as int] == v);
        if s.push(v).contains(x) && x != v {
            let i = s.push(v).index_of(x);
            assert(s[i] == x);
        }
    }
    assert(all =~= s.to_set().insert(v));
}

/// Starts to wait for the import of the blocks that were forwarded. Without any it ends at once.
pub fn await_import(imports: &Vec<BlockImport>) -> (r: ImportStep)
    ensures
        goes_on(r, import_hashes(imports@), import_hashes(imports@).to_set()),
{
    let mut forwarded: Vec<B256> = Vec::new();
    let mut open: Vec<B256> = Vec::new();
    for i in 0..imports.len()
        invariant
            forwarded@.len() == i,
            open@ == forwarded@,
            forall|j: int| 0 <= j < i ==> (#[trigger] forwarded@[j])@ == imports@[j].hash@,
    {
        forwarded.push(imports[i].hash);
        open.push(imports[i].hash);
    }
    assert(hash_views(forwarded@) =~= import_hashes(imports@));
    ImportWait { forwarded, open }.step()
}

/// What is still open once these hashes were heard of, one after the other.
pub open spec fn open_after(open: Set<Seq<u8>>, heard: Seq<Seq<u8>>) -> Set<Seq<u8>>
    decreases heard.len(),
{
    if heard.len() == 0 {
        open
    } else {
        open_after(open, heard.drop_last()).remove(heard.last())
    }
}

proof fn lemma_open_after(open: Set<Seq<u8>>, heard: Seq<Seq<u8>>, hash: Seq<u8>)
    ensures
        open_after(open, heard).contains(hash) <==> open.contains(hash) && !heard.contains(hash),
    decreases heard.len(),
{
    if heard.len() > 0 {
        let last = heard.last();
        let earlier = heard.drop_last();
        lemma_open_after(open, earlier, hash);
        assert(heard.contains(hash) <==> earlier.contains(hash) || hash == last) by {
            assert(heard[heard.len() - 1] == last);
            if earlier.contains(hash) {
                assert(heard[earlier.index_of(hash)] == hash);
            }
            if heard.contains(hash) && hash != last {
                assert(earlier[heard.index_of(hash)] == hash);
            }
        }
    }
}

/// A wait ends well exactly when every block that was forwarded was reported as imported, in whatever
/// order and whatever else was reported in between.
pub proof fn law_import_ends_when_all_are_in(forwarded: Seq<Seq<u8>>, heard: Seq<Seq<u8>>)
    ensures
        open_after(forwarded.to_set(), heard) == Set::<Seq<u8>>::empty() <==> forall|i: int|
            0 <= i < forwarded.len() ==> heard.contains(#[trigger] forwarded[i]),
{
    let open = open_after(forwarded.to_set(), heard);
    assert forall|h: Seq<u8>| open.contains(h) <==> forwarded.contains(h) && !heard.contains(h) by {
        lemma_open_after(forwarded.to_set(), heard, h);
    }
    if open == Set::<Seq<u8>>::empty() {
        assert forall|i: int| 0 <= i < forwarded.len() implies heard.contains(
            #[trigger] forwarded[i],
        ) by {
            assert(forwarded.contains(forwarded[i]));
            assert(!open.contains(forwarded[i]));
        }
    }
    if forall|i: int| 0 <= i < forwarded.len() ==> heard.contains(#[trigger] forwarded[i]) {
        assert(open =~= Set::empty());
    }
}

/// The notice of a block that is not waited for changes nothing.
pub proof fn law_other_imports_change_nothing(open: Set<Seq<u8>>, hash: Seq<u8>)
    requires
        !open.contains(hash),
    ensures
        open.remove(hash) == open,
{
    assert(open.remove(hash) =~= open);
}

/// The hashes that a wait ends with are those of the blocks of the answer, oldest first.
pub proof fn law_imported_oldest_first(blocks: Seq<BscBlock>, imports: Seq<BlockImport>)
    requires
        imports_of(blocks, imports),
    ensures
        import_hashes(imports) == primitives::block_views(blocks).reverse().map_values(
            |b: BscBlockView| primitives::header_hash(b.header),
        ),
{
    let hashes = primitives::block_views(blocks).reverse().map_values(
        |b: BscBlockView| primitives::header_hash(b.header),
    );
    assert forall|i: int| 0 <= i < hashes.len() implies import_hashes(imports)[i] == hashes[i] by {
        assert(imports[i].block@ == blocks[blocks.len() - 1 - i]@);
    }
    assert(import_hashes(imports) =~= hashes);
}

// ---- laws ----

/// A list of peers holds an identity exactly if one of its peers has it.
pub proof fn law_listed(peers: Seq<PeerId>, id: Seq<u8>)
    ensures
        peer_views(peers).len() == peers.len(),
        peer_views(peers).to_set().contains(id) <==> exists|i: int|
            0 <= i < peers.len() && (#[trigger] peers[i])@ == id,
{
    let views = peer_views(peers);
    if views.to_set().contains(id) {
        let i = views.index_of(id);
        assert(peers[i]@ == id);
    }
    if exists|i: int| 0 <= i < peers.len() && (#[trigger] peers[i])@ == id {
        let i = choose|i: int| 0 <= i < peers.len() && (#[trigger] peers[i])@ == id;
        assert(views[i] == id);
        assert(views.contains(id));
    }
}

/// Request ids count up by one, and start over at zero behind the largest.
pub proof fn law_ids_count_up(id: u64, n: nat)
    ensures
        id < u64::MAX ==> next_id(id) == id + 1,
        next_id(u64::MAX) == 0,
        id_after(id, n) == (id + n) % 0x1_0000_0000_0000_0000,
{
    lemma_id_after(id, n);
}

/// From one to sixty-four blocks may be asked for at once.
pub proof fn law_counts(count: u64)
    ensures
        count_allowed(count) <==> 1 <= count <= 64,
{
}

/// The import is handed each block of an answer once, the last of the answer first, under the hash of
/// its header and with a total difficulty of zero.
pub proof fn law_imports(blocks: Seq<BscBlock>, imports: Seq<BlockImport>, i: int)
    requires
        imports_of(blocks, imports),
    ensures
        imports.len() == blocks.len(),
        0 <= i < blocks.len() ==> {
            let m = imports[blocks.len() - 1 - i];
            &&& m.block@ == blocks[i]@
            &&& m.hash@ == primitives::header_hash(blocks[i]@.header)
            &&& m.td@ == 0
        },
{
    if 0 <= i < blocks.len() {
        let k = blocks.len() - 1 - i;
        assert(imports[k].block@ == blocks[blocks.len() - 1 - k]@);
    }
}

/// A wait goes on as long as anything is open, with what was forwarded unchanged, and ends with the
/// hashes that were forwarded, in their order, once nothing is.
pub proof fn law_wait(r: ImportStep, forwarded: Seq<Seq<u8>>, open: Set<Seq<u8>>, hash: Seq<u8>)
    requires
        goes_on(r, forwarded, open),
    ensures
        open.contains(hash) ==> (r matches ImportStep::Wait(w) && w@.forwarded == forwarded
            && w@.open == open),
        (forall|h: Seq<u8>| !#[trigger] open.contains(h)) ==> (r matches ImportStep::Finished(
            Ok(hashes),
        ) && hashes@.len() == forwarded.len() && forall|i: int|
            0 <= i < forwarded.len() ==> (#[trigger] hashes@[i])@ == forwarded[i]),
{
    if open.contains(hash) {
        assert(open != Set::<Seq<u8>>::empty());
    }
    if forall|h: Seq<u8>| !#[trigger] open.contains(h) {
        assert(open =~= Set::<Seq<u8>>::empty());
        if let ImportStep::Finished(Ok(hashes)) = r {
            assert forall|i: int| 0 <= i < forwarded.len() implies (#[trigger] hashes@[i])@
                == forwarded[i] by {
                assert(hash_views(hashes@)[i] == hashes@[i]@);
            }
            assert(hash_views(hashes@).len() == hashes@.len());
        }
    }
}

/// Whether these are the steps of a wait for these imports, with these hashes reported one after the
/// other.
pub open spec fn waits(
    imports: Seq<BlockImport>,
    heard: Seq<B256>,
    steps: Seq<ImportStep>,
) -> bool {
    &&& steps.len() == heard.len() + 1
    &&& goes_on(steps[0], import_hashes(imports), import_hashes(imports).to_set())
    &&& forall|k: int|
        0 <= k < heard.len() ==> (#[trigger] steps[k] matches ImportStep::Wait(w) && goes_on(
            steps[k + 1],
            w@.forwarded,
            w@.open.remove(heard[k]@),
        ))
}

proof fn lemma_wait_to(
    imports: Seq<BlockImport>,
    heard: Seq<B256>,
    steps: Seq<ImportStep>,
    k: int,
)
    requires
        waits(imports, heard, steps),
        0 <= k <= heard.len(),
    ensures
        goes_on(
            steps[k],
            import_hashes(imports),
            open_after(import_hashes(imports).to_set(), hash_views(heard.take(k))),
        ),
    decreases k,
{
    let all = import_hashes(imports);
    if k == 0 {
        assert(hash_views(heard.take(0)) =~= Seq::<Seq<u8>>::empty());
    } else {
        lemma_wait_to(imports, heard, steps, k - 1);
        let before = hash_views(heard.take(k - 1));
        let now = hash_views(heard.take(k));
        assert(now.drop_last() =~= before);
        assert(now.last() == heard[k - 1]@);
        assert(steps[k - 1] is Wait);
        let w = steps[k - 1]->Wait_0;
        assert(goes_on(steps[k - 1 + 1], w@.forwarded, w@.open.remove(heard[k - 1]@)));
    }
}

/// A wait ends exactly when every block that was handed to the import was reported, in whatever order
/// and whatever else was reported, and then with the hashes of all that were handed over, in their
/// order. As long as block `i` was not reported it goes on.
pub proof fn law_wait_for_all(
    imports: Seq<BlockImport>,
    heard: Seq<B256>,
    steps: Seq<ImportStep>,
    i: int,
)
    requires
        waits(imports, heard, steps),
    ensures
        (forall|i: int|
            0 <= i < imports.len() ==> exists|k: int|
                0 <= k < heard.len() && (#[trigger] heard[k])@ == (#[trigger] imports[i]).hash@)
            ==> (steps.last() matches ImportStep::Finished(Ok(hashes)) && hashes@.len()
            == imports.len() && forall|i: int|
            0 <= i < imports.len() ==> (#[trigger] hashes@[i])@ == imports[i].hash@),
        0 <= i < imports.len() && (forall|k: int|
            0 <= k < heard.len() ==> (#[trigger] heard[k])@ != imports[i].hash@)
            ==> steps.last() is Wait,
{
    let all = import_hashes(imports);
    let views = hash_views(heard);
    let n = heard.len() as int;
    lemma_wait_to(imports, heard, steps, n);
    assert(heard.take(n) =~= heard);
    let open = open_after(all.to_set(), views);
    law_import_ends_when_all_are_in(all, views);
    assert(all.len() == imports.len());
    if forall|i: int|
        0 <= i < imports.len() ==> exists|k: int|
            0 <= k < heard.len() && (#[trigger] heard[k])@ == (#[trigger] imports[i]).hash@ {
        assert forall|i: int| 0 <= i < all.len() implies views.contains(#[trigger] all[i]) by {
            assert(all[i] == imports[i].hash@);
            let k = choose|k: int|
                0 <= k < heard.len() && (#[trigger] heard[k])@ == imports[i].hash@;
            assert(views[k] == all[i]);
        }
        law_wait(steps.last(), all, open, Seq::empty());
        if let ImportStep::Finished(Ok(hashes)) = steps.last() {
            assert forall|i: int| 0 <= i < imports.len() implies (#[trigger] hashes@[i])@
                == imports[i].hash@ by {
                assert(all[i] == imports[i].hash@);
            }
        }
    }
    if 0 <= i < imports.len() && (forall|k: int|
        0 <= k < heard.len() ==> (#[trigger] heard[k])@ != imports[i].hash@) {
        lemma_open_after(all.to_set(), views, all[i]);
        assert(all[i] == imports[i].hash@);
        assert(all.contains(all[i]));
        if views.contains(all[i]) {
            let k = views.index_of(all[i]);
            assert(heard[k]@ == imports[i].hash@);
        }
        law_wait(steps.last(), all, open, all[i]);
    }
}

} // verus!
