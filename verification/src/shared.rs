//! What the parts of the node share: senders, handles and providers that are set once at startup,
//! and the queue of bid packages.
use crate::node::primitives::{BscBlock, Header, PeerId, B256};
use crate::num::{u256_to_u128, U256};
use crate::once_slot;
use crate::once_slot::OnceSlot;
use crate::text::join;
use std::collections::VecDeque;
use std::sync::atomic::{AtomicBool, Ordering};
use std::sync::Arc;
use vstd::prelude::*;
use vstd::string::*;

pub use crate::body_cache::{
    cache_full_block, clear_body_cache, get_cached_block_by_hash, get_cached_block_by_number,
    BodyCache, BODY_CACHE_CAPACITY,
};

verus! {

// ---- senders and handles ----

/// Set imported blocks broadcast sender.
pub fn set_imported_blocks_tx<Tx>(slot: &mut OnceSlot<Tx>, tx: Tx) -> (r: Result<(), Tx>)
    ensures
        r == once_slot::set_result(old(slot)@, tx),
        final(slot)@ == once_slot::after_set(old(slot)@, tx),
{
    slot.set(tx)
}

/// Get imported blocks broadcast sender if initialized.
pub fn get_imported_blocks_tx<Tx>(slot: &OnceSlot<Tx>) -> (r: Option<&Tx>)
    ensures
        match r {
            Some(tx) => slot@ == Some(*tx),
            None => slot@ is None,
        },
{
    slot.get()
}

/// Set proxyed peer IDs.
pub fn set_proxyed_peer_ids(slot: &mut OnceSlot<Vec<PeerId>>, peer_ids: Vec<PeerId>) -> (r: Result<
    (),
    Vec<PeerId>,
>)
    ensures
        r == once_slot::set_result(old(slot)@, peer_ids),
        final(slot)@ == once_slot::after_set(old(slot)@, peer_ids),
{
    slot.set(peer_ids)
}

/// Get proxyed peer IDs if initialized.
pub fn get_proxyed_peer_ids(slot: &OnceSlot<Vec<PeerId>>) -> (r: Option<&Vec<PeerId>>)
    ensures
        match r {
            Some(ids) => slot@ == Some(*ids),
            None => slot@ is None,
        },
{
    slot.get()
}

/// Store the snapshot provider.
pub fn set_snapshot_provider<P>(slot: &mut OnceSlot<P>, provider: P) -> (r: Result<(), P>)
    ensures
        r == once_slot::set_result(old(slot)@, provider),
        final(slot)@ == once_slot::after_set(old(slot)@, provider),
{
    slot.set(provider)
}

/// Get the snapshot provider.
pub fn get_snapshot_provider<P>(slot: &OnceSlot<P>) -> (r: Option<&P>)
    ensures
        match r {
            Some(p) => slot@ == Some(*p),
            None => slot@ is None,
        },
{
    slot.get()
}

/// Store the block import sender for mined blocks. Returns an error if it was set before.
pub fn set_block_import_mined_sender<Tx>(slot: &mut OnceSlot<Tx>, sender: Tx) -> (r: Result<(), Tx>)
    ensures
        r == once_slot::set_result(old(slot)@, sender),
        final(slot)@ == once_slot::after_set(old(slot)@, sender),
{
    slot.set(sender)
}

/// Get a reference to the block import sender for mined blocks, if initialized.
pub fn get_block_import_mined_sender<Tx>(slot: &OnceSlot<Tx>) -> (r: Option<&Tx>)
    ensures
        match r {
            Some(tx) => slot@ == Some(*tx),
            None => slot@ is None,
        },
{
    slot.get()
}

/// Store the block import sender. Returns an error if it was set before.
pub fn set_block_import_sender<Tx>(slot: &mut OnceSlot<Tx>, sender: Tx) -> (r: Result<(), Tx>)
    ensures
        r == once_slot::set_result(old(slot)@, sender),
        final(slot)@ == once_slot::after_set(old(slot)@, sender),
{
    slot.set(sender)
}

/// Get a reference to the block import sender, if initialized.
pub fn get_block_import_sender<Tx>(slot: &OnceSlot<Tx>) -> (r: Option<&Tx>)
    ensures
        match r {
            Some(tx) => slot@ == Some(*tx),
            None => slot@ is None,
        },
{
    slot.get()
}

/// Store the local peer ID. Returns an error if it was set before.
pub fn set_local_peer_id(slot: &mut OnceSlot<PeerId>, peer_id: PeerId) -> (r: Result<(), PeerId>)
    ensures
        r == once_slot::set_result(old(slot)@, peer_id),
        final(slot)@ == once_slot::after_set(old(slot)@, peer_id),
{
    slot.set(peer_id)
}

/// Get the local peer ID, or return the all-zero one if not set.
pub fn get_local_peer_id_or_default(slot: &OnceSlot<PeerId>) -> (r: PeerId)
    ensures
        match slot@ {
            Some(id) => r == id,
            None => r@ == Seq::new(64, |i: int| 0u8),
        },
{
    match slot.get() {
        Some(id) => *id,
        None => {
            let zero = [0u8; 64];
            assert(zero@ =~= Seq::new(64, |i: int| 0u8));
            zero
        },
    }
}

/// Store the network handle for dynamic peer actions.
pub fn set_network_handle<N>(slot: &mut OnceSlot<N>, handle: N) -> (r: Result<(), N>)
    ensures
        r == once_slot::set_result(old(slot)@, handle),
        final(slot)@ == once_slot::after_set(old(slot)@, handle),
{
    slot.set(handle)
}

/// Get the network handle if available.
pub fn get_network_handle<N>(slot: &OnceSlot<N>) -> (r: Option<&N>)
    ensures
        match r {
            Some(n) => slot@ == Some(*n),
            None => slot@ is None,
        },
{
    slot.get()
}

/// Set payload events broadcast sender.
pub fn set_payload_events_tx<Tx>(slot: &mut OnceSlot<Tx>, tx: Tx) -> (r: Result<(), Tx>)
    ensures
        r == once_slot::set_result(old(slot)@, tx),
        final(slot)@ == once_slot::after_set(old(slot)@, tx),
{
    slot.set(tx)
}

/// Get payload events broadcast sender if initialized.
pub fn get_payload_events_tx<Tx>(slot: &OnceSlot<Tx>) -> (r: Option<&Tx>)
    ensures
        match r {
            Some(tx) => slot@ == Some(*tx),
            None => slot@ is None,
        },
{
    slot.get()
}

/// Store the fork choice engine.
pub fn set_fork_choice_engine<F>(slot: &mut OnceSlot<F>, engine: F) -> (r: Result<(), &'static str>)
    ensures
        r == (match old(slot)@ {
            Some(_) => Err::<(), &'static str>("Failed to set fork choice engine"),
            None => Ok(()),
        }),
        final(slot)@ == once_slot::after_set(old(slot)@, engine),
{
    match slot.set(engine) {
        Ok(()) => Ok(()),
        Err(_) => Err("Failed to set fork choice engine"),
    }
}

/// Get a reference to the fork choice engine.
pub fn get_fork_choice_engine<F>(slot: &OnceSlot<F>) -> (r: Option<&F>)
    ensures
        match r {
            Some(f) => slot@ == Some(*f),
            None => slot@ is None,
        },
{
    slot.get()
}

// ---- header providers ----

/// The functions that headers and the best block are looked up by.
pub struct HeaderProviders<H, N, B, T> {
    pub by_hash: OnceSlot<H>,
    pub by_number: OnceSlot<N>,
    pub best_block_number: OnceSlot<B>,
    pub best_td: OnceSlot<T>,
}

impl<H, N, B, T> HeaderProviders<H, N, B, T> {
    /// No provider yet.
    pub fn new() -> (r: Self)
        ensures
            r.by_hash@ is None,
            r.by_number@ is None,
            r.best_block_number@ is None,
            r.best_td@ is None,
    {
        HeaderProviders {
            by_hash: OnceSlot::new(),
            by_number: OnceSlot::new(),
            best_block_number: OnceSlot::new(),
            best_td: OnceSlot::new(),
        }
    }
}

/// Store the header provider: four functions, set one after the other. The first that was set before
/// ends it; those in front of it are set by then, those behind it are not.
pub fn set_header_provider<H, N, B, T>(
    providers: &mut HeaderProviders<H, N, B, T>,
    by_hash: H,
    by_number: N,
    best_block_number: B,
    best_td: T,
) -> (r: Result<(), &'static str>)
    ensures
        r == (if old(providers).by_hash@ is Some {
            Err::<(), &'static str>("Failed to set hash provider")
        } else if old(providers).by_number@ is Some {
            Err("Failed to set number provider")
        } else if old(providers).best_block_number@ is Some {
            Err("Failed to set best block number provider")
        } else if old(providers).best_td@ is Some {
            Err("Failed to set best td provider")
        } else {
            Ok(())
        }),
        final(providers).by_hash@ == once_slot::after_set(old(providers).by_hash@, by_hash),
        final(providers).by_number@ == (if old(providers).by_hash@ is None {
            once_slot::after_set(old(providers).by_number@, by_number)
        } else {
            old(providers).by_number@
        }),
        final(providers).best_block_number@ == (if old(providers).by_hash@ is None && old(
            providers,
        ).by_number@ is None {
            once_slot::after_set(old(providers).best_block_number@, best_block_number)
        } else {
            old(providers).best_block_number@
        }),
        final(providers).best_td@ == (if old(providers).by_hash@ is None && old(
            providers,
        ).by_number@ is None && old(providers).best_block_number@ is None {
            once_slot::after_set(old(providers).best_td@, best_td)
        } else {
            old(providers).best_td@
        }),
{
    match providers.by_hash.set(by_hash) {
        Ok(()) => {},
        Err(_) => {
            return Err("Failed to set hash provider");
        },
    }
    match providers.by_number.set(by_number) {
        Ok(()) => {},
        Err(_) => {
            return Err("Failed to set number provider");
        },
    }
    match providers.best_block_number.set(best_block_number) {
        Ok(()) => {},
        Err(_) => {
            return Err("Failed to set best block number provider");
        },
    }
    match providers.best_td.set(best_td) {
        Ok(()) => Ok(()),
        Err(_) => Err("Failed to set best td provider"),
    }
}

/// What a lookup found: a failure is as good as nothing.
pub open spec fn found_value<V, E>(r: Result<Option<V>, E>) -> Option<V> {
    match r {
        Ok(o) => o,
        Err(_) => None,
    }
}

/// What a lookup found: a failure is as good as nothing.
pub fn found<V, E>(r: Result<Option<V>, E>) -> (o: Option<V>)
    ensures
        o == found_value(r),
{
    match r {
        Ok(o) => o,
        Err(_) => None,
    }
}

/// The best block number, if it can be had.
pub fn best_number<E>(r: Result<u64, E>) -> (o: Option<u64>)
    ensures
        o == (match r {
            Ok(n) => Some(n),
            Err(_) => None,
        }),
{
    match r {
        Ok(n) => Some(n),
        Err(_) => None,
    }
}

/// Whether a total difficulty that was looked up is in range.
pub open spec fn fits<E>(td: Result<Option<U256>, E>) -> bool {
    found_value(td) matches Some(v) ==> v@ <= u128::MAX
}

/// The best total difficulty, from the total difficulty of the best block. One that does not fit
/// must not be handed in.
pub fn best_total_difficulty<E>(td: Result<Option<U256>, E>) -> (o: Option<u128>)
    requires
        fits(td),
    ensures
        o == (match found_value(td) {
            Some(v) => Some(v@ as u128),
            None => None,
        }),
{
    match found(td) {
        Some(v) => u256_to_u128(v),
        None => None,
    }
}

/// The best total difficulty: that of the best block, looked up by its number. Without a best block
/// nothing is looked up.
pub fn best_td<E, F: Fn(u64) -> Result<Option<U256>, E>>(number: Result<u64, E>, td_at: F) -> (o:
    Option<u128>)
    requires
        number matches Ok(n) ==> td_at.requires((n,)),
        forall|n: u64, td: Result<Option<U256>, E>| #[trigger] td_at.ensures((n,), td) ==> fits(td),
    ensures
        match number {
            Ok(n) => exists|td: Result<Option<U256>, E>| #[trigger]
                td_at.ensures((n,), td) && o == (match found_value(td) {
                    Some(v) => Some(v@ as u128),
                    None => None,
                }),
            Err(_) => o is None,
        },
{
    match number {
        Ok(n) => best_total_difficulty(td_at(n)),
        Err(_) => None,
    }
}

/// Get header by hash from the header provider.
pub fn get_canonical_header_by_hash_from_provider<H: Fn(&B256) -> Option<Header>>(
    slot: &OnceSlot<H>,
    block_hash: &B256,
) -> (r: Option<Header>)
    requires
        slot@ matches Some(f) ==> f.requires((block_hash,)),
    ensures
        match slot@ {
            Some(f) => f.ensures((block_hash,), r),
            None => r is None,
        },
{
    match slot.get() {
        Some(f) => f(block_hash),
        None => None,
    }
}

/// Get header by number from the header provider.
pub fn get_canonical_header_by_number_from_provider<N: Fn(u64) -> Option<Header>>(
    slot: &OnceSlot<N>,
    block_number: u64,
) -> (r: Option<Header>)
    requires
        slot@ matches Some(f) ==> f.requires((block_number,)),
    ensures
        match slot@ {
            Some(f) => f.ensures((block_number,), r),
            None => r is None,
        },
{
    match slot.get() {
        Some(f) => f(block_number),
        None => None,
    }
}

/// Get header by hash - simplified interface
pub fn get_canonical_header_by_hash<H: Fn(&B256) -> Option<Header>>(
    slot: &OnceSlot<H>,
    block_hash: &B256,
) -> (r: Option<Header>)
    requires
        slot@ matches Some(f) ==> f.requires((block_hash,)),
    ensures
        match slot@ {
            Some(f) => f.ensures((block_hash,), r),
            None => r is None,
        },
{
    get_canonical_header_by_hash_from_provider(slot, block_hash)
}

/// Get header by number - simplified interface
pub fn get_canonical_header_by_number<N: Fn(u64) -> Option<Header>>(
    slot: &OnceSlot<N>,
    block_number: u64,
) -> (r: Option<Header>)
    requires
        slot@ matches Some(f) ==> f.requires((block_number,)),
    ensures
        match slot@ {
            Some(f) => f.ensures((block_number,), r),
            None => r is None,
        },
{
    get_canonical_header_by_number_from_provider(slot, block_number)
}

/// Get the best block number from the provider if initialized
pub fn get_best_canonical_block_number<B: Fn() -> Option<u64>>(slot: &OnceSlot<B>) -> (r: Option<
    u64,
>)
    requires
        slot@ matches Some(f) ==> f.requires(()),
    ensures
        match slot@ {
            Some(f) => f.ensures((), r),
            None => r is None,
        },
{
    match slot.get() {
        Some(f) => f(),
        None => None,
    }
}

/// Get the best total difficulty if available
pub fn get_best_canonical_td<T: Fn() -> Option<u128>>(slot: &OnceSlot<T>) -> (r: Option<u128>)
    requires
        slot@ matches Some(f) ==> f.requires(()),
    ensures
        match slot@ {
            Some(f) => f.ensures((), r),
            None => r is None,
        },
{
    match slot.get() {
        Some(f) => f(),
        None => None,
    }
}

// ---- bid packages ----

/// What a queue of bid packages holds, if it was initialized.
pub open spec fn queue_view<Bid>(slot: Option<VecDeque<Bid>>) -> Option<Seq<Bid>> {
    match slot {
        Some(q) => Some(q@),
        None => None,
    }
}

/// The queue once a package was pushed.
pub open spec fn pushed<Bid>(queue: Option<Seq<Bid>>, package: Bid) -> Option<Seq<Bid>> {
    match queue {
        Some(q) => Some(q.push(package)),
        None => None,
    }
}

/// The queue once a package was popped.
pub open spec fn popped<Bid>(queue: Option<Seq<Bid>>) -> Option<Seq<Bid>> {
    match queue {
        Some(q) => if q.len() > 0 {
            Some(q.skip(1))
        } else {
            Some(q)
        },
        None => None,
    }
}

/// The package that is popped: the first, if there is one.
pub open spec fn front<Bid>(queue: Option<Seq<Bid>>) -> Option<Bid> {
    match queue {
        Some(q) => if q.len() > 0 {
            Some(q[0])
        } else {
            None
        },
        None => None,
    }
}

/// Initialize the bid package queue (should be called once at startup). A queue that is there
/// already stays as it is.
pub fn init_bid_package_queue<Bid>(slot: &mut OnceSlot<VecDeque<Bid>>)
    ensures
        queue_view(final(slot)@) == (match queue_view(old(slot)@) {
            Some(q) => Some(q),
            None => Some(Seq::<Bid>::empty()),
        }),
{
    let _ = slot.set(VecDeque::new());
}

/// Push a bid package to the queue
pub fn push_bid_package<Bid>(slot: &mut OnceSlot<VecDeque<Bid>>, package: Bid) -> (r: Result<
    (),
    &'static str,
>)
    ensures
        r == (match old(slot)@ {
            Some(_) => Ok::<(), &'static str>(()),
            None => Err("Bid package queue not initialized"),
        }),
        queue_view(final(slot)@) == pushed(queue_view(old(slot)@), package),
{
    match slot.get_mut() {
        Some(queue) => {
            queue.push_back(package);
            Ok(())
        },
        None => Err("Bid package queue not initialized"),
    }
}

/// Pop a bid package from the queue
pub fn pop_bid_package<Bid>(slot: &mut OnceSlot<VecDeque<Bid>>) -> (r: Option<Bid>)
    ensures
        r == front(queue_view(old(slot)@)),
        queue_view(final(slot)@) == popped(queue_view(old(slot)@)),
{
    match slot.get_mut() {
        Some(queue) => {
            let ghost before = queue@;
            let r = queue.pop_front();
            proof {
                if before.len() > 0 {
                    assert(queue@ =~= before.skip(1));
                }
            }
            r
        },
        None => None,
    }
}

/// Get the count of pending bid packages in the queue
pub fn bid_package_queue_len<Bid>(slot: &OnceSlot<VecDeque<Bid>>) -> (r: usize)
    ensures
        r == (match queue_view(slot@) {
            Some(q) => q.len(),
            None => 0,
        }),
{
    match slot.get() {
        Some(queue) => queue.len(),
        None => 0,
    }
}

/// The queue after so many pops.
pub open spec fn popped_times<Bid>(queue: Option<Seq<Bid>>, n: nat) -> Option<Seq<Bid>>
    decreases n,
{
    if n == 0 {
        queue
    } else {
        popped(popped_times(queue, (n - 1) as nat))
    }
}

/// Packages leave the queue in the order in which they came: once those in front of it were popped,
/// a package is the next.
pub proof fn law_first_in_first_out<Bid>(queue: Seq<Bid>, package: Bid)
    ensures
        front(popped_times(pushed(Some(queue), package), queue.len())) == Some(package),
{
    let all = queue.push(package);
    lemma_popped_times(all, queue.len());
    assert(all.skip(queue.len() as int)[0] == package);
}

proof fn lemma_popped_times<Bid>(all: Seq<Bid>, n: nat)
    requires
        n <= all.len(),
    ensures
        popped_times(Some(all), n) == Some(all.skip(n as int)),
    decreases n,
{
    if n == 0 {
        assert(all.skip(0) =~= all);
    } else {
        lemma_popped_times(all, (n - 1) as nat);
        assert(all.skip(n - 1).skip(1) =~= all.skip(n as int));
    }
}

// ---- full block providers ----

/// Trait for full block access (header + body + sidecars)
pub trait FullBlockProvider: Send + Sync {
    /// Whether the provider can be asked.
    spec fn ready(&self) -> bool;

    fn block_by_hash(&self, hash: &B256) -> Option<BscBlock>
        requires
            self.ready(),
    ;

    fn block_by_number(&self, number: u64) -> Option<BscBlock>
        requires
            self.ready(),
    ;
}

/// Set the full block provider
pub fn set_full_block_provider<P: FullBlockProvider>(slot: &mut OnceSlot<P>, provider: P) -> (r:
    Result<(), P>)
    ensures
        r == once_slot::set_result(old(slot)@, provider),
        final(slot)@ == once_slot::after_set(old(slot)@, provider),
{
    slot.set(provider)
}

/// Try to get a full block by hash from the provider
pub fn get_full_block_by_hash<P: FullBlockProvider>(slot: &OnceSlot<P>, hash: &B256) -> (r: Option<
    BscBlock,
>)
    requires
        slot@ matches Some(p) ==> p.ready(),
    ensures
        match slot@ {
            Some(p) => call_ensures(P::block_by_hash, (&p, hash), r),
            None => r is None,
        },
{
    match slot.get() {
        Some(p) => p.block_by_hash(hash),
        None => None,
    }
}

/// Try to get a full block by number from the provider
pub fn get_full_block_by_number<P: FullBlockProvider>(slot: &OnceSlot<P>, number: u64) -> (r:
    Option<BscBlock>)
    requires
        slot@ matches Some(p) ==> p.ready(),
    ensures
        match slot@ {
            Some(p) => call_ensures(P::block_by_number, (&p, number), r),
            None => r is None,
        },
{
    match slot.get() {
        Some(p) => p.block_by_number(number),
        None => None,
    }
}

/// A closure-based full block provider for easy integration.
pub struct ClosureFullBlockProvider<ByHash, ByNumber> {
    by_hash: ByHash,
    by_number: ByNumber,
}

impl<ByHash, ByNumber> ClosureFullBlockProvider<ByHash, ByNumber> {
    /// The closure that finds a block by its hash.
    pub closed spec fn hash_closure(&self) -> ByHash {
        self.by_hash
    }

    /// The closure that finds a block by its number.
    pub closed spec fn number_closure(&self) -> ByNumber {
        self.by_number
    }
}

impl<ByHash, ByNumber> ClosureFullBlockProvider<ByHash, ByNumber> where
    ByHash: Fn(&B256) -> Option<BscBlock> + Send + Sync + 'static,
    ByNumber: Fn(u64) -> Option<BscBlock> + Send + Sync + 'static,
 {
    pub fn new(by_hash: ByHash, by_number: ByNumber) -> (r: Self)
        ensures
            r.hash_closure() == by_hash,
            r.number_closure() == by_number,
    {
        ClosureFullBlockProvider { by_hash, by_number }
    }
}

impl<ByHash, ByNumber> FullBlockProvider for ClosureFullBlockProvider<ByHash, ByNumber> where
    ByHash: Fn(&B256) -> Option<BscBlock> + Send + Sync + 'static,
    ByNumber: Fn(u64) -> Option<BscBlock> + Send + Sync + 'static,
 {
    open spec fn ready(&self) -> bool {
        &&& forall|hash: &B256| #[trigger] self.hash_closure().requires((hash,))
        &&& forall|number: u64| #[trigger] self.number_closure().requires((number,))
    }

    fn block_by_hash(&self, hash: &B256) -> (r: Option<BscBlock>)
        ensures
            self.hash_closure().ensures((hash,), r),
    {
        (self.by_hash)(hash)
    }

    fn block_by_number(&self, number: u64) -> (r: Option<BscBlock>)
        ensures
            self.number_closure().ensures((number,), r),
    {
        (self.by_number)(number)
    }
}

/// Helper to install a closure-based full block provider.
pub fn set_full_block_provider_from_closures<ByHash, ByNumber>(
    slot: &mut OnceSlot<ClosureFullBlockProvider<ByHash, ByNumber>>,
    by_hash: ByHash,
    by_number: ByNumber,
) -> (r: Result<(), ClosureFullBlockProvider<ByHash, ByNumber>>) where
    ByHash: Fn(&B256) -> Option<BscBlock> + Send + Sync + 'static,
    ByNumber: Fn(u64) -> Option<BscBlock> + Send + Sync + 'static,

    ensures
        match old(slot)@ {
            Some(p) => final(slot)@ == Some(p) && (r matches Err(q) && q.hash_closure() == by_hash
                && q.number_closure() == by_number),
            None => r is Ok && (final(slot)@ matches Some(q) && q.hash_closure() == by_hash
                && q.number_closure() == by_number),
        },
{
    set_full_block_provider(slot, ClosureFullBlockProvider::new(by_hash, by_number))
}

// ---- MEV running status ----

/// Set MEV running status (called on startup)
pub fn set_mev_running(slot: &mut OnceSlot<Arc<AtomicBool>>, running: Arc<AtomicBool>) -> (r: Result<
    (),
    Arc<AtomicBool>,
>)
    ensures
        r == once_slot::set_result(old(slot)@, running),
        final(slot)@ == once_slot::after_set(old(slot)@, running),
{
    slot.set(running)
}

/// The status, from what the flag says if there is one.
pub fn mev_status(flag: Option<bool>) -> (r: bool)
    ensures
        r == (flag == Some(true)),
{
    match flag {
        Some(running) => running,
        None => false,
    }
}

/// Get MEV running status: what a load of the flag says at the moment, and no without one. Others
/// may change the flag at any time, so which of the two it says is left open.
pub fn is_mev_running(slot: &OnceSlot<Arc<AtomicBool>>) -> (r: bool)
    ensures
        match slot@ {
            Some(flag) => call_ensures(AtomicBool::load, (&*flag, Ordering::Relaxed), r),
            None => !r,
        },
{
    let flag = match slot.get() {
        Some(status) => Some(status.load(Ordering::Relaxed)),
        None => None,
    };
    mev_status(flag)
}

// ---- IPC client ----

/// Set the IPC client, or say why it could not be built or was set before.
pub fn set_ipc_client<C>(slot: &mut OnceSlot<C>, built: Result<C, String>, shown: &str) -> (r:
    Result<(), String>)
    ensures
        match built {
            Err(e) => (r matches Err(m) && m@ == "Failed to build RPC client: "@ + e@)
                && final(slot)@ == old(slot)@,
            Ok(client) => final(slot)@ == once_slot::after_set(old(slot)@, client) && match old(
                slot,
            )@ {
                Some(_) => r matches Err(m) && m@ == "Failed to set RPC client: "@ + shown@,
                None => r is Ok,
            },
        },
{
    match built {
        Err(e) => Err(join("Failed to build RPC client: ", e.as_str())),
        Ok(client) => match slot.set(client) {
            Ok(()) => Ok(()),
            Err(_) => Err(join("Failed to set RPC client: ", shown)),
        },
    }
}

/// Get the IPC client
pub fn get_ipc_client<C>(slot: &OnceSlot<C>) -> (r: Option<&C>)
    ensures
        match r {
            Some(c) => slot@ == Some(*c),
            None => slot@ is None,
        },
{
    slot.get()
}

/// The IPC client for a call, or the error that there is none.
pub fn require_ipc_client<C>(slot: &OnceSlot<C>) -> (r: Result<&C, String>)
    ensures
        match r {
            Ok(c) => slot@ == Some(*c),
            Err(e) => slot@ is None && e@ == "Failed to get RPC client"@,
        },
{
    match slot.get() {
        Some(c) => Ok(c),
        None => Err(String::from_str("Failed to get RPC client")),
    }
}

/// What a call of the IPC client ends with.
pub fn finish_ipc_call<T>(reply: Result<T, String>) -> (r: Result<T, String>)
    ensures
        match reply {
            Ok(v) => r == Ok::<T, String>(v),
            Err(e) => r matches Err(m) && m@ == "failed to query chain id from healthy node: "@
                + e@,
        },
{
    match reply {
        Ok(v) => Ok(v),
        Err(e) => Err(join("failed to query chain id from healthy node: ", e.as_str())),
    }
}

// ---- laws ----

/// A lookup that failed is as good as one that found nothing; what one found is what it found.
pub proof fn law_found<V, E>(v: V, e: E)
    ensures
        found_value(Ok::<Option<V>, E>(Some(v))) == Some(v),
        found_value(Ok::<Option<V>, E>(None)) is None,
        found_value(Err::<Option<V>, E>(e)) is None,
{
}

/// A total difficulty is out of range exactly if it was found and needs more than sixteen bytes.
pub proof fn law_fits<E>(td: U256, e: E)
    ensures
        fits(Ok::<Option<U256>, E>(Some(td))) <==> td@ <= u128::MAX,
        fits(Ok::<Option<U256>, E>(None)),
        fits(Err::<Option<U256>, E>(e)),
{
}

/// A package that was pushed stands behind all that were there, and the one that is popped stands in
/// front of all that stay. A queue that is empty or was never initialized gives nothing and stays as
/// it is.
pub proof fn law_queue<Bid>(queue: Seq<Bid>, package: Bid)
    ensures
        pushed(Some(queue), package) == Some(queue.push(package)),
        pushed(None, package) is None,
        queue.len() > 0 ==> front(Some(queue)) == Some(queue[0]) && popped(Some(queue)) == Some(
            queue.drop_first(),
        ),
        front(Some(Seq::<Bid>::empty())) is None,
        popped(Some(Seq::<Bid>::empty())) == Some(Seq::<Bid>::empty()),
        front(None::<Seq<Bid>>) is None,
        popped(None::<Seq<Bid>>) is None,
{
    if queue.len() > 0 {
        assert(queue.drop_first() =~= queue.skip(1));
    }
}

/// Pushing and popping lose nothing and make up nothing: the package that was popped, put in front of
/// the queue that it left, gives the queue back.
pub proof fn law_popped_in_front<Bid>(queue: Seq<Bid>)
    requires
        queue.len() > 0,
    ensures
        front(Some(queue)) is Some,
        popped(Some(queue)) is Some,
        seq![front(Some(queue))->0] + popped(Some(queue))->0 == queue,
{
    assert(seq![queue[0]] + queue.skip(1) =~= queue);
}

} // verus!
