//! An in-memory cache for recently seen full blocks, and the hash of the block at each number.
//!
//! It lets range requests be answered with full bodies if the blocks were recently imported.
use crate::lru;
use crate::lru::{BlockLru, NumberLru};
use crate::node::primitives;
use crate::node::primitives::{BscBlock, BscBlockView, B256};
use vstd::prelude::*;

verus! {

/// Max number of full blocks to store in the in-memory body cache.
pub const BODY_CACHE_CAPACITY: u32 = 512;

/// Recently seen full blocks (hash to block), and a mapping from number to hash.
pub struct BodyCache {
    by_hash: BlockLru,
    by_number: NumberLru,
}

/// What a [`BodyCache`] holds. In either part the entry used longest ago comes first.
#[verifier::ext_equal]
pub struct BodyCacheView {
    pub by_hash: Seq<(Seq<u8>, BscBlockView)>,
    pub by_number: Seq<(u64, Seq<u8>)>,
}

impl BodyCacheView {
    /// What holds of every cache: both parts are within the capacity, no key occurs twice, and a
    /// block stands under the hash of its own header.
    pub open spec fn wf(self) -> bool {
        &&& self.by_hash.len() <= BODY_CACHE_CAPACITY
        &&& self.by_number.len() <= BODY_CACHE_CAPACITY
        &&& lru::distinct(self.by_hash)
        &&& lru::distinct(self.by_number)
        &&& forall|i: int|
            0 <= i < self.by_hash.len() ==> (#[trigger] self.by_hash[i]).0
                == primitives::header_hash(self.by_hash[i].1.header)
    }

    /// The block that is cached under this hash.
    pub open spec fn block_by_hash(self, hash: Seq<u8>) -> Option<BscBlockView> {
        lru::lookup(self.by_hash, hash)
    }

    /// The cache once this hash was looked up.
    pub open spec fn hash_looked_up(self, hash: Seq<u8>) -> BodyCacheView {
        BodyCacheView { by_hash: lru::touched(self.by_hash, hash), by_number: self.by_number }
    }

    /// The block that is cached for this number.
    pub open spec fn block_by_number(self, number: u64) -> Option<BscBlockView> {
        match lru::lookup(self.by_number, number) {
            Some(hash) => self.block_by_hash(hash),
            None => None,
        }
    }

    /// The cache once this number was looked up: the number, and the hash that it leads to, are the
    /// ones used last.
    pub open spec fn number_looked_up(self, number: u64) -> BodyCacheView {
        let by_number = lru::touched(self.by_number, number);
        match lru::lookup(self.by_number, number) {
            Some(hash) => BodyCacheView { by_hash: self.by_hash, by_number }.hash_looked_up(hash),
            None => BodyCacheView { by_hash: self.by_hash, by_number },
        }
    }
}

impl View for BodyCache {
    type V = BodyCacheView;

    closed spec fn view(&self) -> BodyCacheView {
        BodyCacheView {
            by_hash: lru::block_entries(self.by_hash),
            by_number: lru::number_entries(self.by_number),
        }
    }
}

impl BodyCache {
    /// Whether the cache is one that its functions made.
    pub closed spec fn wf(&self) -> bool {
        &&& lru::block_limit(self.by_hash) == BODY_CACHE_CAPACITY
        &&& lru::number_limit(self.by_number) == BODY_CACHE_CAPACITY
        &&& self@.wf()
    }

    /// The map from hashes to blocks.
    pub closed spec fn blocks(&self) -> BlockLru {
        self.by_hash
    }

    /// The map from numbers to hashes.
    pub closed spec fn numbers(&self) -> NumberLru {
        self.by_number
    }

    /// What holds of the contents of every cache.
    pub proof fn lemma_contents(&self)
        requires
            self.wf(),
        ensures
            self@.wf(),
    {
    }
}

impl Default for BodyCache {
    fn default() -> (r: Self)
        ensures
            r.wf(),
            r@.by_hash.len() == 0,
            r@.by_number.len() == 0,
            lru::block_limit(r.blocks()) == 512,
            lru::number_limit(r.numbers()) == 512,
    {
        BodyCache {
            by_hash: BlockLru::new(BODY_CACHE_CAPACITY),
            by_number: NumberLru::new(BODY_CACHE_CAPACITY),
        }
    }
}

/// A cache is made for five hundred and twelve blocks, and as many numbers, and stays so.
pub proof fn law_capacity(cache: BodyCache)
    requires
        cache.wf(),
    ensures
        lru::block_limit(cache.blocks()) == 512,
        lru::number_limit(cache.numbers()) == 512,
        cache@.by_hash.len() <= 512,
        cache@.by_number.len() <= 512,
{
}

/// A number leads to the block whose hash stands under it, if that block is there. A lookup hands out
/// what stands under the key, and nothing where nothing does.
pub proof fn law_lookups(c: BodyCacheView, i: int, j: int)
    requires
        c.wf(),
    ensures
        0 <= i < c.by_hash.len() ==> c.block_by_hash(c.by_hash[i].0) == Some(c.by_hash[i].1),
        0 <= i < c.by_hash.len() && 0 <= j < c.by_number.len() && c.by_number[j].1 == c.by_hash[i].0
            ==> c.block_by_number(c.by_number[j].0) == Some(c.by_hash[i].1),
        forall|h: Seq<u8>|
            (forall|k: int| 0 <= k < c.by_hash.len() ==> (#[trigger] c.by_hash[k]).0 != h) ==> (
            #[trigger] c.block_by_hash(h)) is None,
        forall|n: u64|
            (forall|k: int| 0 <= k < c.by_number.len() ==> (#[trigger] c.by_number[k]).0 != n) ==> (
            #[trigger] c.block_by_number(n)) is None,
{
    if 0 <= i < c.by_hash.len() {
        lru::lemma_place(c.by_hash, i);
    }
    if 0 <= j < c.by_number.len() {
        lru::lemma_place(c.by_number, j);
    }
}

/// A lookup makes what it finds the entry used last, and leaves the order of the others. A number that
/// is looked up is used, and so is the block that it leads to.
pub proof fn law_lookup_is_a_use(c: BodyCacheView, i: int, j: int)
    requires
        c.wf(),
        0 <= i < c.by_hash.len(),
    ensures
        c.hash_looked_up(c.by_hash[i].0).by_hash == c.by_hash.remove(i).push(c.by_hash[i]),
        c.hash_looked_up(c.by_hash[i].0).by_number == c.by_number,
        0 <= j < c.by_number.len() && c.by_number[j].1 == c.by_hash[i].0 ==> {
            let d = c.number_looked_up(c.by_number[j].0);
            &&& d.by_number == c.by_number.remove(j).push(c.by_number[j])
            &&& d.by_hash == c.by_hash.remove(i).push(c.by_hash[i])
        },
{
    lru::lemma_place(c.by_hash, i);
    if 0 <= j < c.by_number.len() {
        lru::lemma_place(c.by_number, j);
    }
}

/// A block that was looked up stands under the hash of its own header.
pub proof fn law_found_block_has_hash(c: BodyCacheView, hash: Seq<u8>)
    requires
        c.wf(),
    ensures
        c.block_by_hash(hash) matches Some(b) ==> primitives::header_hash(b.header) == hash,
{
    if lru::holds(c.by_hash, hash) {
        let i = lru::place(c.by_hash, hash);
        assert(0 <= i < c.by_hash.len() && c.by_hash[i].0 == hash);
    }
}

/// Looking a block up by its hash takes nothing out of the cache and changes nothing in it.
pub proof fn law_lookup_by_hash_keeps_blocks(c: BodyCacheView, hash: Seq<u8>)
    requires
        c.wf(),
    ensures
        c.hash_looked_up(hash).wf(),
        forall|h: Seq<u8>|
            #[trigger] c.hash_looked_up(hash).block_by_hash(h) == c.block_by_hash(h),
        forall|n: u64|
            #[trigger] c.hash_looked_up(hash).block_by_number(n) == c.block_by_number(n),
{
    let d = c.hash_looked_up(hash);
    lru::law_lookup_keeps_entries(c.by_hash, hash, hash);
    assert forall|i: int| 0 <= i < d.by_hash.len() implies (#[trigger] d.by_hash[i]).0
        == primitives::header_hash(d.by_hash[i].1.header) by {
        if lru::holds(c.by_hash, hash) {
            let p = lru::place(c.by_hash, hash);
            let q = if i == d.by_hash.len() - 1 { p } else if i < p { i } else { i + 1 };
            assert(d.by_hash[i] == c.by_hash[q]);
        }
    }
    assert forall|h: Seq<u8>| #[trigger] d.block_by_hash(h) == c.block_by_hash(h) by {
        lru::law_lookup_keeps_entries(c.by_hash, hash, h);
    }
    assert forall|n: u64| #[trigger] d.block_by_number(n) == c.block_by_number(n) by {
        if let Some(h) = lru::lookup(c.by_number, n) {
            assert(d.block_by_hash(h) == c.block_by_hash(h));
        }
    }
}

/// Looking a block up by its number takes nothing out of the cache and changes nothing in it.
pub proof fn law_lookup_by_number_keeps_blocks(c: BodyCacheView, number: u64)
    requires
        c.wf(),
    ensures
        c.number_looked_up(number).wf(),
        forall|h: Seq<u8>|
            #[trigger] c.number_looked_up(number).block_by_hash(h) == c.block_by_hash(h),
        forall|n: u64|
            #[trigger] c.number_looked_up(number).block_by_number(n) == c.block_by_number(n),
{
    let mid = BodyCacheView {
        by_hash: c.by_hash,
        by_number: lru::touched(c.by_number, number),
    };
    lru::law_lookup_keeps_entries(c.by_number, number, number);
    assert forall|n: u64| #[trigger] mid.block_by_number(n) == c.block_by_number(n) by {
        lru::law_lookup_keeps_entries(c.by_number, number, n);
    }
    if let Some(hash) = lru::lookup(c.by_number, number) {
        law_lookup_by_hash_keeps_blocks(mid, hash);
        let d = c.number_looked_up(number);
        assert forall|n: u64| #[trigger] d.block_by_number(n) == c.block_by_number(n) by {
            assert(d.block_by_number(n) == mid.block_by_number(n));
        }
    }
}

/// Whether caching `b` can take the cache from `c` to `d`, and report `done`: its number is written
/// first, then the block itself, and both have to succeed.
pub open spec fn block_written(
    c: BodyCacheView,
    b: BscBlockView,
    done: bool,
    d: BodyCacheView,
) -> bool {
    let hash = primitives::header_hash(b.header);
    exists|numbered: bool, stored: bool|
        {
            &&& #[trigger] lru::written(
                c.by_number,
                BODY_CACHE_CAPACITY as nat,
                b.header.number,
                hash,
                numbered,
                d.by_number,
            )
            &&& #[trigger] lru::written(
                c.by_hash,
                BODY_CACHE_CAPACITY as nat,
                hash,
                b,
                stored,
                d.by_hash,
            )
            &&& done == (numbered && stored)
        }
}

/// A block that was cached is found under its hash and under its number, and whatever else the cache
/// still holds is as it was.
pub proof fn law_cached_block_is_found(
    c: BodyCacheView,
    b: BscBlockView,
    done: bool,
    d: BodyCacheView,
)
    requires
        c.wf(),
        block_written(c, b, done, d),
    ensures
        d.wf(),
        done ==> d.block_by_hash(primitives::header_hash(b.header)) == Some(b),
        done ==> d.block_by_number(b.header.number) == Some(b),
        forall|h: Seq<u8>|
            h != primitives::header_hash(b.header) && (#[trigger] d.block_by_hash(h)) is Some
                ==> d.block_by_hash(h) == c.block_by_hash(h),
{
    let hash = primitives::header_hash(b.header);
    let limit = BODY_CACHE_CAPACITY as nat;
    let number = b.header.number;
    let (numbered, stored) = choose|numbered: bool, stored: bool|
        {
            &&& #[trigger] lru::written(c.by_number, limit, number, hash, numbered, d.by_number)
            &&& #[trigger] lru::written(c.by_hash, limit, hash, b, stored, d.by_hash)
            &&& done == (numbered && stored)
        };
    lru::law_written(c.by_number, limit, number, hash, numbered, d.by_number);
    lru::law_written(c.by_hash, limit, hash, b, stored, d.by_hash);
    assert forall|i: int| 0 <= i < d.by_hash.len() implies (#[trigger] d.by_hash[i]).0
        == primitives::header_hash(d.by_hash[i].1.header) by {
        if d.by_hash[i] != (hash, b) {
            let j = choose|j: int| 0 <= j < c.by_hash.len() && c.by_hash[j] == d.by_hash[i];
            assert(c.by_hash[j] == d.by_hash[i]);
        }
    }
    assert forall|h: Seq<u8>| h != hash && (#[trigger] d.block_by_hash(h)) is Some implies
        d.block_by_hash(h) == c.block_by_hash(h) by {
        assert(lru::holds(d.by_hash, h));
    }
}

/// Whether the cache came out of caching `b` as large as it does with memory at hand.
pub open spec fn had_memory(c: BodyCacheView, b: BscBlockView, d: BodyCacheView) -> bool {
    let limit = BODY_CACHE_CAPACITY as nat;
    &&& lru::had_memory(c.by_hash, limit, primitives::header_hash(b.header), d.by_hash)
    &&& lru::had_memory(c.by_number, limit, b.header.number, d.by_number)
}

/// Whether caching `b` makes the cache forget the block with this hash: it is the one used longest
/// ago in a full cache.
pub open spec fn hash_forgotten(c: BodyCacheView, b: BscBlockView, hash: Seq<u8>) -> bool {
    lru::forgotten(
        c.by_hash,
        BODY_CACHE_CAPACITY as nat,
        primitives::header_hash(b.header),
        hash,
    )
}

/// Whether caching `b` makes the cache forget this number: it is the one used longest ago in a full
/// cache.
pub open spec fn number_forgotten(c: BodyCacheView, b: BscBlockView, number: u64) -> bool {
    lru::forgotten(c.by_number, BODY_CACHE_CAPACITY as nat, b.header.number, number)
}

/// Whether a number leads elsewhere than to what caching `b` replaces. It does, unless a block with
/// this number and another header has the very hash of `b`.
pub open spec fn apart(c: BodyCacheView, b: BscBlockView, number: u64) -> bool {
    let hash = primitives::header_hash(b.header);
    lru::lookup(c.by_number, number) == Some(hash) ==> c.block_by_hash(hash) == Some(b)
}

/// Caching a block with memory at hand leaves every other block as it was, but for the one that a
/// full cache forgets. So an older block of the same number is still found by its hash. Another
/// number is answered as before unless it is forgotten, or the block that it leads to is.
pub proof fn law_caching_keeps_others(c: BodyCacheView, b: BscBlockView, d: BodyCacheView)
    requires
        c.wf(),
        block_written(c, b, true, d),
        had_memory(c, b, d),
    ensures
        forall|h: Seq<u8>|
            h != primitives::header_hash(b.header) ==> (#[trigger] d.block_by_hash(h)) == (
            if hash_forgotten(c, b, h) {
                None
            } else {
                c.block_by_hash(h)
            }),
        forall|n: u64|
            n != b.header.number && apart(c, b, n) ==> (#[trigger] d.block_by_number(n)) == (
            if number_forgotten(c, b, n) {
                None
            } else {
                match lru::lookup(c.by_number, n) {
                    Some(h) => if hash_forgotten(c, b, h) {
                        None
                    } else {
                        c.block_by_number(n)
                    },
                    None => None,
                }
            }),
{
    let hash = primitives::header_hash(b.header);
    let limit = BODY_CACHE_CAPACITY as nat;
    let number = b.header.number;
    let (numbered, stored) = choose|numbered: bool, stored: bool|
        {
            &&& #[trigger] lru::written(c.by_number, limit, number, hash, numbered, d.by_number)
            &&& #[trigger] lru::written(c.by_hash, limit, hash, b, stored, d.by_hash)
            &&& true == (numbered && stored)
        };
    assert forall|h: Seq<u8>| h != hash implies (#[trigger] d.block_by_hash(h)) == (
    if hash_forgotten(c, b, h) {
        None
    } else {
        c.block_by_hash(h)
    }) by {
        lru::law_write_keeps_others(c.by_hash, limit, hash, b, d.by_hash, h);
    }
    assert forall|n: u64| n != number && apart(c, b, n) implies (
    #[trigger] d.block_by_number(n)) == (if number_forgotten(c, b, n) {
        None
    } else {
        match lru::lookup(c.by_number, n) {
            Some(h) => if hash_forgotten(c, b, h) {
                None
            } else {
                c.block_by_number(n)
            },
            None => None,
        }
    }) by {
        lru::law_write_keeps_others(c.by_number, limit, number, hash, d.by_number, n);
        if let Some(h) = lru::lookup(c.by_number, n) {
            if h == hash {
                lru::law_written(c.by_hash, limit, hash, b, true, d.by_hash);
            }
            assert(d.block_by_hash(h) == (if hash_forgotten(c, b, h) {
                None
            } else {
                c.block_by_hash(h)
            }));
        }
    }
}

/// Whatever memory there is, caching a block leaves the newest of the other blocks as they were: a
/// range request that could be walked over them still can.
pub proof fn law_caching_spares_the_newest(
    c: BodyCacheView,
    b: BscBlockView,
    done: bool,
    d: BodyCacheView,
)
    requires
        c.wf(),
        block_written(c, b, done, d),
    ensures
        forall|h: Seq<u8>|
            h != primitives::header_hash(b.header) && lru::stays(
                c.by_hash,
                BODY_CACHE_CAPACITY as nat,
                primitives::header_hash(b.header),
                h,
            ) ==> (#[trigger] d.block_by_hash(h)) == c.block_by_hash(h) && d.block_by_hash(
                h,
            ) is Some,
{
    let hash = primitives::header_hash(b.header);
    let limit = BODY_CACHE_CAPACITY as nat;
    let number = b.header.number;
    let (numbered, stored) = choose|numbered: bool, stored: bool|
        {
            &&& #[trigger] lru::written(c.by_number, limit, number, hash, numbered, d.by_number)
            &&& #[trigger] lru::written(c.by_hash, limit, hash, b, stored, d.by_hash)
            &&& done == (numbered && stored)
        };
    assert forall|h: Seq<u8>| h != hash && lru::stays(c.by_hash, limit, hash, h) implies (
    #[trigger] d.block_by_hash(h)) == c.block_by_hash(h) && d.block_by_hash(h) is Some by {
        lru::law_write_spares_the_newest(c.by_hash, limit, hash, b, stored, d.by_hash, h);
    }
}

/// A cache that is not full forgets nothing when a block is cached with memory at hand: the block is
/// found by its hash and its number, and every other hash and number is answered as before.
pub proof fn law_cache_with_room_forgets_nothing(
    c: BodyCacheView,
    b: BscBlockView,
    d: BodyCacheView,
)
    requires
        c.wf(),
        c.by_hash.len() < BODY_CACHE_CAPACITY,
        c.by_number.len() < BODY_CACHE_CAPACITY,
        block_written(c, b, true, d),
        had_memory(c, b, d),
    ensures
        d.block_by_hash(primitives::header_hash(b.header)) == Some(b),
        d.block_by_number(b.header.number) == Some(b),
        forall|h: Seq<u8>|
            h != primitives::header_hash(b.header) ==> (#[trigger] d.block_by_hash(h))
                == c.block_by_hash(h),
        forall|n: u64|
            n != b.header.number && apart(c, b, n) ==> (#[trigger] d.block_by_number(n))
                == c.block_by_number(n),
{
    law_cached_block_is_found(c, b, true, d);
    law_caching_keeps_others(c, b, d);
}

/// Inserts a full block into the in-memory body cache: its hash goes into the map of numbers, and the
/// block itself into the map of hashes. Reports whether both succeeded, so that it can be found there
/// afterwards, which fails only where no memory can be had for it.
pub fn cache_full_block(cache: &mut BodyCache, block: BscBlock) -> (done: bool)
    requires
        old(cache).wf(),
    ensures
        final(cache).wf(),
        exists|hash: B256, m: &mut NumberLru, n: &mut BlockLru, numbered: bool, stored: bool|
            hash@ == primitives::header_hash(block@.header) && *m == old(cache).numbers()
                && *final(m) == final(cache).numbers() && *n == old(cache).blocks() && *final(n)
                == final(cache).blocks() && #[trigger] call_ensures(
                NumberLru::insert,
                (m, block.header.number, hash),
                numbered,
            ) && #[trigger] call_ensures(BlockLru::insert, (n, hash, block), stored) && done == (
            numbered && stored),
        block_written(old(cache)@, block@, done, final(cache)@),
        done ==> final(cache)@.block_by_hash(primitives::header_hash(block@.header)) == Some(
            block@,
        ),
        done ==> final(cache)@.block_by_number(block@.header.number) == Some(block@),
        lru::holds(old(cache)@.by_number, block@.header.number) && lru::holds(
            old(cache)@.by_hash,
            primitives::header_hash(block@.header),
        ) ==> done,
{
    let hash = block.header.hash_slow();
    let number = block.header.number;
    let ghost b = block@;
    let numbered = cache.by_number.insert(number, hash);
    let stored = cache.by_hash.insert(hash, block);
    proof {
        let c = old(cache)@;
        let d = cache@;
        let limit = BODY_CACHE_CAPACITY as nat;
        assert(lru::written(c.by_number, limit, number, hash@, numbered, d.by_number));
        assert(lru::written(c.by_hash, limit, hash@, b, stored, d.by_hash));
        assert(block_written(c, b, numbered && stored, d));
        law_cached_block_is_found(c, b, numbered && stored, d);
    }
    numbered && stored
}

/// Fetch a full block from the in-memory body cache by hash.
pub fn get_cached_block_by_hash(cache: &mut BodyCache, hash: &B256) -> (r: Option<BscBlock>)
    requires
        old(cache).wf(),
    ensures
        final(cache).wf(),
        primitives::opt_block(r) == old(cache)@.block_by_hash(hash@),
        final(cache)@ == old(cache)@.hash_looked_up(hash@),
{
    let r = match cache.by_hash.get(hash) {
        Some(block) => Some(block.clone()),
        None => None,
    };
    proof {
        assert(cache@ =~= old(cache)@.hash_looked_up(hash@));
        law_lookup_by_hash_keeps_blocks(old(cache)@, hash@);
    }
    r
}

/// Fetch a full block from the in-memory body cache by number.
pub fn get_cached_block_by_number(cache: &mut BodyCache, number: u64) -> (r: Option<BscBlock>)
    requires
        old(cache).wf(),
    ensures
        final(cache).wf(),
        primitives::opt_block(r) == old(cache)@.block_by_number(number),
        final(cache)@ == old(cache)@.number_looked_up(number),
{
    let hash = match cache.by_number.get(number) {
        Some(h) => Some(*h),
        None => None,
    };
    let r = match hash {
        Some(h) => match cache.by_hash.get(&h) {
            Some(block) => Some(block.clone()),
            None => None,
        },
        None => None,
    };
    proof {
        assert(cache@ =~= old(cache)@.number_looked_up(number));
        law_lookup_by_number_keeps_blocks(old(cache)@, number);
    }
    r
}

/// Clear the body cache.
pub fn clear_body_cache(cache: &mut BodyCache)
    ensures
        final(cache).wf(),
        final(cache)@.by_hash.len() == 0,
        final(cache)@.by_number.len() == 0,
{
    *cache = BodyCache::default();
}


} // verus!
