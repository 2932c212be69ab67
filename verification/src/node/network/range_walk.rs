//! The walk from a block to its ancestors that answers a range request, and where its blocks come
//! from: the cache, the provider of full blocks, and the lookups of headers.
use crate::body_cache;
use crate::body_cache::{
    get_cached_block_by_hash, get_cached_block_by_number, BodyCache, BodyCacheView,
};
use crate::node::network::blocks_by_range::{
    BlocksByRangePacket, GetBlocksByRangePacket, GetBlocksByRangeView,
    MAX_REQUEST_RANGE_BLOCKS_COUNT,
};
use crate::node::primitives;
use crate::node::primitives::{BscBlock, BscBlockBody, BscBlockView, Header, HeaderView, B256};
use crate::once_slot::OnceSlot;
use crate::shared::{
    get_canonical_header_by_hash, get_canonical_header_by_number, get_full_block_by_hash,
    get_full_block_by_number, FullBlockProvider,
};
use vstd::prelude::*;

verus! {

// ---- where blocks come from ----

/// Whether asking the provider of full blocks for a hash can give `o`.
pub open spec fn full_by_hash<P: FullBlockProvider>(
    full: Option<P>,
    hash: B256,
    o: Option<BscBlock>,
) -> bool {
    match full {
        Some(p) => call_ensures(P::block_by_hash, (&p, &hash), o),
        None => o is None,
    }
}

/// Whether asking the provider of full blocks for a number can give `o`.
pub open spec fn full_by_number<P: FullBlockProvider>(
    full: Option<P>,
    number: u64,
    o: Option<BscBlock>,
) -> bool {
    match full {
        Some(p) => call_ensures(P::block_by_number, (&p, number), o),
        None => o is None,
    }
}

/// Whether looking a header up by a hash can give `o`.
pub open spec fn header_by_hash<H: Fn(&B256) -> Option<Header>>(
    lookup: Option<H>,
    hash: B256,
    o: Option<Header>,
) -> bool {
    match lookup {
        Some(f) => f.ensures((&hash,), o),
        None => o is None,
    }
}

/// Whether looking a header up by a number can give `o`.
pub open spec fn header_by_number<N: Fn(u64) -> Option<Header>>(
    lookup: Option<N>,
    number: u64,
    o: Option<Header>,
) -> bool {
    match lookup {
        Some(f) => f.ensures((number,), o),
        None => o is None,
    }
}

/// The header of a block, if there is one.
pub open spec fn header_of(o: Option<BscBlock>) -> Option<Header> {
    match o {
        Some(b) => Some(b.header),
        None => None,
    }
}

/// Whether a block, if there is one, is its header and the body without transactions and ommers.
pub open spec fn header_only(o: Option<BscBlock>) -> bool {
    o matches Some(b) ==> b@ == primitives::header_block(b@.header)
}

/// Whether `o` is what can be had for a hash: the cached block, else the one that the provider gives,
/// else the header that the lookup gives, with an empty body.
pub open spec fn found_by_hash<P: FullBlockProvider, H: Fn(&B256) -> Option<Header>>(
    c: BodyCacheView,
    full: Option<P>,
    by_hash: Option<H>,
    hash: B256,
    o: Option<BscBlock>,
) -> bool {
    match c.block_by_hash(hash@) {
        Some(b) => primitives::opt_block(o) == Some(b),
        None => {
            ||| o is Some && full_by_hash(full, hash, o)
            ||| full_by_hash(full, hash, None) && header_by_hash(by_hash, hash, header_of(o))
                && header_only(o)
        },
    }
}

/// Whether `o` is what can be had for a number: the cached block, else the one that the provider
/// gives, else the header that the lookup gives, with an empty body.
pub open spec fn found_by_number<P: FullBlockProvider, N: Fn(u64) -> Option<Header>>(
    c: BodyCacheView,
    full: Option<P>,
    by_number: Option<N>,
    number: u64,
    o: Option<BscBlock>,
) -> bool {
    match c.block_by_number(number) {
        Some(b) => primitives::opt_block(o) == Some(b),
        None => {
            ||| o is Some && full_by_number(full, number, o)
            ||| full_by_number(full, number, None) && header_by_number(
                by_number,
                number,
                header_of(o),
            ) && header_only(o)
        },
    }
}

/// Whether the header of a hash can be looked up.
pub open spec fn hashes_ready<H: Fn(&B256) -> Option<Header>>(lookup: Option<H>) -> bool {
    lookup matches Some(f) ==> forall|hash: &B256| #[trigger] f.requires((hash,))
}

/// Whether the header of a number can be looked up.
pub open spec fn numbers_ready<N: Fn(u64) -> Option<Header>>(lookup: Option<N>) -> bool {
    lookup matches Some(f) ==> forall|number: u64| #[trigger] f.requires((number,))
}

/// A block of this header with an empty body, if there is a header.
fn with_empty_body(header: Option<Header>) -> (r: Option<BscBlock>)
    ensures
        header_of(r) == header,
        header_only(r),
{
    match header {
        Some(header) => Some(BscBlock { header, body: BscBlockBody::default() }),
        None => None,
    }
}

/// Finds the block with this hash, with an empty body if only its header can be had.
pub fn find_by_hash<P: FullBlockProvider, H: Fn(&B256) -> Option<Header>>(
    cache: &mut BodyCache,
    full: &OnceSlot<P>,
    by_hash: &OnceSlot<H>,
    hash: &B256,
) -> (r: Option<BscBlock>)
    requires
        old(cache).wf(),
        full@ matches Some(p) ==> p.ready(),
        hashes_ready(by_hash@),
    ensures
        found_by_hash(old(cache)@, full@, by_hash@, *hash, r),
        final(cache)@ == old(cache)@.hash_looked_up(hash@),
        final(cache).wf(),
{
    let cached = get_cached_block_by_hash(cache, hash);
    if cached.is_some() {
        return cached;
    }
    let provided = get_full_block_by_hash(full, hash);
    if provided.is_some() {
        return provided;
    }
    with_empty_body(get_canonical_header_by_hash(by_hash, hash))
}

/// Finds the block with this number, with an empty body if only its header can be had.
pub fn find_by_number<P: FullBlockProvider, N: Fn(u64) -> Option<Header>>(
    cache: &mut BodyCache,
    full: &OnceSlot<P>,
    by_number: &OnceSlot<N>,
    number: u64,
) -> (r: Option<BscBlock>)
    requires
        old(cache).wf(),
        full@ matches Some(p) ==> p.ready(),
        numbers_ready(by_number@),
    ensures
        found_by_number(old(cache)@, full@, by_number@, number, r),
        final(cache)@ == old(cache)@.number_looked_up(number),
        final(cache).wf(),
{
    let cached = get_cached_block_by_number(cache, number);
    if cached.is_some() {
        return cached;
    }
    let provided = get_full_block_by_number(full, number);
    if provided.is_some() {
        return provided;
    }
    with_empty_body(get_canonical_header_by_number(by_number, number))
}

// ---- the walk ----

/// How many blocks a request is answered with at most.
pub open spec fn wanted(count: u64) -> nat {
    if count <= MAX_REQUEST_RANGE_BLOCKS_COUNT {
        count as nat
    } else {
        MAX_REQUEST_RANGE_BLOCKS_COUNT as nat
    }
}

/// Whether `o` is what can be had for the start of a request: the block with its hash, or, where the
/// hash is zero, the one at its height.
pub open spec fn found_start<
    P: FullBlockProvider,
    H: Fn(&B256) -> Option<Header>,
    N: Fn(u64) -> Option<Header>,
>(
    c: BodyCacheView,
    full: Option<P>,
    by_hash: Option<H>,
    by_number: Option<N>,
    req: GetBlocksByRangePacket,
    o: Option<BscBlock>,
) -> bool {
    if req.start_block_hash@ != primitives::zero_hash() {
        found_by_hash(c, full, by_hash, req.start_block_hash, o)
    } else {
        found_by_number(c, full, by_number, req.start_block_height, o)
    }
}

/// Whether `o` is what can be had for the parent of a block: nothing, if its parent hash is zero.
pub open spec fn found_parent<P: FullBlockProvider, H: Fn(&B256) -> Option<Header>>(
    c: BodyCacheView,
    full: Option<P>,
    by_hash: Option<H>,
    b: BscBlock,
    o: Option<BscBlock>,
) -> bool {
    if b.header.parent_hash@ != primitives::zero_hash() {
        found_by_hash(c, full, by_hash, b.header.parent_hash, o)
    } else {
        o is None
    }
}

/// The block at a place of an answer, if the answer goes that far.
pub open spec fn block_at(blocks: Seq<BscBlock>, i: int) -> Option<BscBlock> {
    if 0 <= i < blocks.len() {
        Some(blocks[i])
    } else {
        None
    }
}

/// Whether each place of `blocks` up to `room` holds what can be had for the parent of the block
/// before it.
pub open spec fn follows_parents<P: FullBlockProvider, H: Fn(&B256) -> Option<Header>>(
    c: BodyCacheView,
    full: Option<P>,
    by_hash: Option<H>,
    blocks: Seq<BscBlock>,
    room: nat,
) -> bool {
    forall|i: int|
        0 <= i < blocks.len() && i + 1 < room ==> found_parent(
            c,
            full,
            by_hash,
            #[trigger] blocks[i],
            block_at(blocks, i + 1),
        )
}

/// Whether `r` answers `req`: it carries the id of the request and no more blocks than wanted. Its
/// first place holds what can be had for the start, each next one what can be had for the parent of
/// the block before it, and it ends early only where there is nothing to be had.
pub open spec fn answers<
    P: FullBlockProvider,
    H: Fn(&B256) -> Option<Header>,
    N: Fn(u64) -> Option<Header>,
>(
    c: BodyCacheView,
    full: Option<P>,
    by_hash: Option<H>,
    by_number: Option<N>,
    req: GetBlocksByRangePacket,
    r: BlocksByRangePacket,
) -> bool {
    &&& r.request_id == req.request_id
    &&& r.blocks@.len() <= wanted(req.count)
    &&& wanted(req.count) > 0 ==> found_start(
        c,
        full,
        by_hash,
        by_number,
        req,
        block_at(r.blocks@, 0),
    )
    &&& follows_parents(c, full, by_hash, r.blocks@, wanted(req.count))
}

/// The cache once the start of a request was looked up.
pub open spec fn start_looked_up(c: BodyCacheView, req: GetBlocksByRangeView) -> BodyCacheView {
    if req.start_block_hash != primitives::zero_hash() {
        c.hash_looked_up(req.start_block_hash)
    } else {
        c.number_looked_up(req.start_block_height)
    }
}

/// The cache once the parent of a block was looked up.
pub open spec fn parent_looked_up(c: BodyCacheView, b: BscBlockView) -> BodyCacheView {
    if b.header.parent_hash != primitives::zero_hash() {
        c.hash_looked_up(b.header.parent_hash)
    } else {
        c
    }
}

/// The cache once the parent of each block was looked up, one after the other.
pub open spec fn parents_looked_up(c: BodyCacheView, blocks: Seq<BscBlockView>) -> BodyCacheView
    decreases blocks.len(),
{
    if blocks.len() == 0 {
        c
    } else {
        parent_looked_up(parents_looked_up(c, blocks.drop_last()), blocks.last())
    }
}

/// The cache once a request was answered with these blocks.
pub open spec fn cache_after(
    c: BodyCacheView,
    req: GetBlocksByRangeView,
    blocks: Seq<BscBlockView>,
) -> BodyCacheView {
    parents_looked_up(start_looked_up(c, req), blocks)
}

/// Whether two caches answer every lookup alike.
pub open spec fn same_blocks(c: BodyCacheView, d: BodyCacheView) -> bool {
    &&& forall|h: Seq<u8>| #[trigger] d.block_by_hash(h) == c.block_by_hash(h)
    &&& forall|n: u64| #[trigger] d.block_by_number(n) == c.block_by_number(n)
}

/// A cache that answers like one that answers like `c` answers like `c`.
pub proof fn lemma_same_blocks(c: BodyCacheView, d: BodyCacheView, e: BodyCacheView)
    requires
        same_blocks(c, d),
        same_blocks(d, e),
    ensures
        same_blocks(c, e),
{
    assert forall|h: Seq<u8>| #[trigger] e.block_by_hash(h) == c.block_by_hash(h) by {
        assert(d.block_by_hash(h) == c.block_by_hash(h));
    }
    assert forall|n: u64| #[trigger] e.block_by_number(n) == c.block_by_number(n) by {
        assert(d.block_by_number(n) == c.block_by_number(n));
    }
}

/// Looking up the start of a request keeps the blocks of the cache.
pub proof fn lemma_start_looked_up(c: BodyCacheView, req: GetBlocksByRangeView)
    requires
        c.wf(),
    ensures
        start_looked_up(c, req).wf(),
        same_blocks(c, start_looked_up(c, req)),
{
    body_cache::law_lookup_by_hash_keeps_blocks(c, req.start_block_hash);
    body_cache::law_lookup_by_number_keeps_blocks(c, req.start_block_height);
}

/// Looking up the parents of blocks keeps the blocks of the cache.
pub proof fn lemma_parents_looked_up(c: BodyCacheView, blocks: Seq<BscBlockView>)
    requires
        c.wf(),
    ensures
        parents_looked_up(c, blocks).wf(),
        same_blocks(c, parents_looked_up(c, blocks)),
    decreases blocks.len(),
{
    if blocks.len() > 0 {
        let d = parents_looked_up(c, blocks.drop_last());
        lemma_parents_looked_up(c, blocks.drop_last());
        body_cache::law_lookup_by_hash_keeps_blocks(d, blocks.last().header.parent_hash);
        lemma_same_blocks(c, d, parents_looked_up(c, blocks));
    }
}

/// Caches that answer alike lead to the same answers.
pub proof fn lemma_found_alike<P: FullBlockProvider, H: Fn(&B256) -> Option<Header>>(
    c: BodyCacheView,
    d: BodyCacheView,
    full: Option<P>,
    by_hash: Option<H>,
    hash: B256,
    o: Option<BscBlock>,
)
    requires
        same_blocks(c, d),
    ensures
        found_by_hash(d, full, by_hash, hash, o) == found_by_hash(c, full, by_hash, hash, o),
{
    assert(d.block_by_hash(hash@) == c.block_by_hash(hash@));
}

proof fn lemma_answers_alike<
    P: FullBlockProvider,
    H: Fn(&B256) -> Option<Header>,
    N: Fn(u64) -> Option<Header>,
>(
    c: BodyCacheView,
    d: BodyCacheView,
    full: Option<P>,
    by_hash: Option<H>,
    by_number: Option<N>,
    req: GetBlocksByRangePacket,
    r: BlocksByRangePacket,
)
    requires
        same_blocks(c, d),
        answers(c, full, by_hash, by_number, req, r),
    ensures
        answers(d, full, by_hash, by_number, req, r),
{
    let blocks = r.blocks@;
    let room = wanted(req.count);
    lemma_found_alike(c, d, full, by_hash, req.start_block_hash, block_at(blocks, 0));
    assert(d.block_by_number(req.start_block_height) == c.block_by_number(req.start_block_height));
    assert forall|i: int| 0 <= i < blocks.len() && i + 1 < room implies found_parent(
        d,
        full,
        by_hash,
        #[trigger] blocks[i],
        block_at(blocks, i + 1),
    ) by {
        assert(found_parent(c, full, by_hash, blocks[i], block_at(blocks, i + 1)));
        lemma_found_alike(
            c,
            d,
            full,
            by_hash,
            blocks[i].header.parent_hash,
            block_at(blocks, i + 1),
        );
    }
}

/// Answering a request takes no block out of the cache and changes none, so that every request is
/// answered afterwards as it would have been before.
pub proof fn law_answering_keeps_blocks<
    P: FullBlockProvider,
    H: Fn(&B256) -> Option<Header>,
    N: Fn(u64) -> Option<Header>,
>(
    c: BodyCacheView,
    first: GetBlocksByRangeView,
    sent: Seq<BscBlockView>,
    full: Option<P>,
    by_hash: Option<H>,
    by_number: Option<N>,
    req: GetBlocksByRangePacket,
    r: BlocksByRangePacket,
)
    requires
        c.wf(),
    ensures
        cache_after(c, first, sent).wf(),
        same_blocks(c, cache_after(c, first, sent)),
        answers(cache_after(c, first, sent), full, by_hash, by_number, req, r) == answers(
            c,
            full,
            by_hash,
            by_number,
            req,
            r,
        ),
{
    let mid = start_looked_up(c, first);
    let d = cache_after(c, first, sent);
    lemma_start_looked_up(c, first);
    lemma_parents_looked_up(mid, sent);
    lemma_same_blocks(c, mid, d);
    if answers(c, full, by_hash, by_number, req, r) {
        lemma_answers_alike(c, d, full, by_hash, by_number, req, r);
    }
    if answers(d, full, by_hash, by_number, req, r) {
        assert(same_blocks(d, c)) by {
            assert forall|h: Seq<u8>| #[trigger] c.block_by_hash(h) == d.block_by_hash(h) by {}
            assert forall|n: u64| #[trigger] c.block_by_number(n) == d.block_by_number(n) by {}
        }
        lemma_answers_alike(d, c, full, by_hash, by_number, req, r);
    }
}

/// An answer carries the id of its request, and at most as many blocks as were asked for and may be
/// asked for.
pub proof fn law_answer_is_limited<
    P: FullBlockProvider,
    H: Fn(&B256) -> Option<Header>,
    N: Fn(u64) -> Option<Header>,
>(
    c: BodyCacheView,
    full: Option<P>,
    by_hash: Option<H>,
    by_number: Option<N>,
    req: GetBlocksByRangePacket,
    r: BlocksByRangePacket,
)
    requires
        answers(c, full, by_hash, by_number, req, r),
    ensures
        r.request_id == req.request_id,
        r.blocks@.len() <= req.count,
        r.blocks@.len() <= MAX_REQUEST_RANGE_BLOCKS_COUNT,
{
}

/// Whether neither the cache nor the provider nor the lookup has anything for a hash.
pub open spec fn nothing_for_hash<P: FullBlockProvider, H: Fn(&B256) -> Option<Header>>(
    c: BodyCacheView,
    full: Option<P>,
    by_hash: Option<H>,
    hash: B256,
) -> bool {
    &&& c.block_by_hash(hash@) is None
    &&& full_by_hash(full, hash, None)
    &&& header_by_hash(by_hash, hash, None)
}

/// Whether neither the cache nor the provider nor the lookup has anything for a number.
pub open spec fn nothing_for_number<P: FullBlockProvider, N: Fn(u64) -> Option<Header>>(
    c: BodyCacheView,
    full: Option<P>,
    by_number: Option<N>,
    number: u64,
) -> bool {
    &&& c.block_by_number(number) is None
    &&& full_by_number(full, number, None)
    &&& header_by_number(by_number, number, None)
}

/// An answer is shorter than wanted only where its last block has no parent, or where there is
/// nothing to be had for what comes next.
pub proof fn law_answer_ends_early<
    P: FullBlockProvider,
    H: Fn(&B256) -> Option<Header>,
    N: Fn(u64) -> Option<Header>,
>(
    c: BodyCacheView,
    full: Option<P>,
    by_hash: Option<H>,
    by_number: Option<N>,
    req: GetBlocksByRangePacket,
    r: BlocksByRangePacket,
)
    requires
        answers(c, full, by_hash, by_number, req, r),
        r.blocks@.len() < wanted(req.count),
    ensures
        r.blocks@.len() > 0 ==> {
            let parent = r.blocks@.last().header.parent_hash;
            parent@ == primitives::zero_hash() || nothing_for_hash(c, full, by_hash, parent)
        },
        r.blocks@.len() == 0 && req.start_block_hash@ != primitives::zero_hash()
            ==> nothing_for_hash(c, full, by_hash, req.start_block_hash),
        r.blocks@.len() == 0 && req.start_block_hash@ == primitives::zero_hash()
            ==> nothing_for_number(c, full, by_number, req.start_block_height),
{
    let blocks = r.blocks@;
    if blocks.len() > 0 {
        let last = blocks.len() - 1;
        assert(found_parent(c, full, by_hash, blocks[last], block_at(blocks, last + 1)));
    }
}

/// Whether the provider and the lookup give for a hash only what has this hash.
pub open spec fn gives_what_was_asked<P: FullBlockProvider, H: Fn(&B256) -> Option<Header>>(
    full: Option<P>,
    by_hash: Option<H>,
) -> bool {
    &&& forall|hash: B256, b: BscBlock| #[trigger]
        full_by_hash(full, hash, Some(b)) ==> primitives::header_hash(b.header@) == hash@
    &&& forall|hash: B256, h: Header| #[trigger]
        header_by_hash(by_hash, hash, Some(h)) ==> primitives::header_hash(h@) == hash@
}

proof fn lemma_found_has_hash<P: FullBlockProvider, H: Fn(&B256) -> Option<Header>>(
    c: BodyCacheView,
    full: Option<P>,
    by_hash: Option<H>,
    hash: B256,
    b: BscBlock,
)
    requires
        c.wf(),
        gives_what_was_asked(full, by_hash),
        found_by_hash(c, full, by_hash, hash, Some(b)),
    ensures
        primitives::header_hash(b@.header) == hash@,
{
    body_cache::law_found_block_has_hash(c, hash@);
}

/// An answer starts at the block that was asked for, and each block is followed by its parent, as
/// long as the provider and the lookup give what they are asked for.
pub proof fn law_answer_follows_parents<
    P: FullBlockProvider,
    H: Fn(&B256) -> Option<Header>,
    N: Fn(u64) -> Option<Header>,
>(
    c: BodyCacheView,
    full: Option<P>,
    by_hash: Option<H>,
    by_number: Option<N>,
    req: GetBlocksByRangePacket,
    r: BlocksByRangePacket,
)
    requires
        c.wf(),
        gives_what_was_asked(full, by_hash),
        answers(c, full, by_hash, by_number, req, r),
    ensures
        r.blocks@.len() > 0 && req.start_block_hash@ != primitives::zero_hash()
            ==> primitives::header_hash(r.blocks@[0]@.header) == req.start_block_hash@,
        forall|i: int|
            #![trigger r.blocks@[i]]
            0 <= i < r.blocks@.len() - 1 ==> r.blocks@[i]@.header.parent_hash
                == primitives::header_hash(r.blocks@[i + 1]@.header),
{
    let blocks = r.blocks@;
    if blocks.len() > 0 && req.start_block_hash@ != primitives::zero_hash() {
        lemma_found_has_hash(c, full, by_hash, req.start_block_hash, blocks[0]);
    }
    assert forall|i: int|
        #![trigger blocks[i]]
        0 <= i < blocks.len() - 1 implies blocks[i]@.header.parent_hash == primitives::header_hash(
        blocks[i + 1]@.header,
    ) by {
        assert(found_parent(c, full, by_hash, blocks[i], block_at(blocks, i + 1)));
        lemma_found_has_hash(c, full, by_hash, blocks[i].header.parent_hash, blocks[i + 1]);
    }
}

// ---- what the cache alone has ----

/// The cached block that a request starts at.
pub open spec fn start_block(c: BodyCacheView, req: GetBlocksByRangeView) -> Option<BscBlockView> {
    if req.start_block_hash != primitives::zero_hash() {
        c.block_by_hash(req.start_block_hash)
    } else {
        c.block_by_number(req.start_block_height)
    }
}

/// The parent of a block, if it has one and the cache holds it.
pub open spec fn cached_parent(c: BodyCacheView, b: BscBlockView) -> Option<BscBlockView> {
    if b.header.parent_hash != primitives::zero_hash() {
        c.block_by_hash(b.header.parent_hash)
    } else {
        None
    }
}

/// A block and its cached ancestors, newest first, `room` blocks at most.
pub open spec fn lineage(c: BodyCacheView, at: Option<BscBlockView>, room: nat) -> Seq<BscBlockView>
    decreases room,
{
    match at {
        Some(b) => if room == 0 {
            Seq::empty()
        } else {
            seq![b] + lineage(c, cached_parent(c, b), (room - 1) as nat)
        },
        None => Seq::empty(),
    }
}

proof fn lemma_lineage_is_kept<P: FullBlockProvider, H: Fn(&B256) -> Option<Header>>(
    c: BodyCacheView,
    full: Option<P>,
    by_hash: Option<H>,
    blocks: Seq<BscBlock>,
    room: nat,
    i: nat,
    at: Option<BscBlockView>,
)
    requires
        i <= room,
        blocks.len() <= room,
        follows_parents(c, full, by_hash, blocks, room),
        at is Some && i < room ==> primitives::opt_block(block_at(blocks, i as int)) == at,
    ensures
        lineage(c, at, (room - i) as nat).is_prefix_of(primitives::block_views(blocks).skip(i as int))
            || i > blocks.len(),
        full is None && by_hash is None && (at is None ==> i >= blocks.len()) && i <= blocks.len()
            ==> lineage(c, at, (room - i) as nat) == primitives::block_views(blocks).skip(i as int),
    decreases room - i,
{
    let views = primitives::block_views(blocks);
    let line = lineage(c, at, (room - i) as nat);
    if i <= blocks.len() {
        let tail = views.skip(i as int);
        if at is Some && i < room {
            let b = at->0;
            let next = cached_parent(c, b);
            let here = blocks[i as int];
            assert(here@ == b);
            if i + 1 < room {
                assert(found_parent(c, full, by_hash, here, block_at(blocks, (i + 1) as int)));
            }
            lemma_lineage_is_kept(c, full, by_hash, blocks, room, i + 1, next);
            let later = lineage(c, next, (room - i - 1) as nat);
            assert(views.skip(i as int) =~= seq![b] + views.skip((i + 1) as int));
            assert(line =~= seq![b] + later);
            assert(line =~= tail.take(line.len() as int));
        } else {
            assert(line =~= Seq::empty());
            assert(line =~= tail.take(0));
            if at is None && i >= blocks.len() || i >= room {
                assert(tail =~= Seq::empty());
            }
        }
    }
}

/// An answer begins with the cached lineage of the block that was asked for, and is that lineage if
/// there is no provider and no lookup.
pub proof fn law_answer_begins_with_the_cached<
    P: FullBlockProvider,
    H: Fn(&B256) -> Option<Header>,
    N: Fn(u64) -> Option<Header>,
>(
    c: BodyCacheView,
    full: Option<P>,
    by_hash: Option<H>,
    by_number: Option<N>,
    req: GetBlocksByRangePacket,
    r: BlocksByRangePacket,
)
    requires
        answers(c, full, by_hash, by_number, req, r),
    ensures
        lineage(c, start_block(c, req@), wanted(req.count)).is_prefix_of(
            primitives::block_views(r.blocks@),
        ),
        full is None && by_hash is None && by_number is None ==> primitives::block_views(r.blocks@)
            == lineage(c, start_block(c, req@), wanted(req.count)),
{
    let views = primitives::block_views(r.blocks@);
    assert(views.skip(0) =~= views);
    lemma_lineage_is_kept(
        c,
        full,
        by_hash,
        r.blocks@,
        wanted(req.count),
        0,
        start_block(c, req@),
    );
}

// ---- requests that differ in their count ----

/// A lineage with less room is the beginning of one with more.
pub proof fn law_smaller_count_is_prefix(
    c: BodyCacheView,
    at: Option<BscBlockView>,
    m: nat,
    n: nat,
)
    requires
        m <= n,
    ensures
        lineage(c, at, m) == lineage(c, at, n).take(lineage(c, at, m).len() as int),
        lineage(c, at, m).len() == (if lineage(c, at, n).len() < m {
            lineage(c, at, n).len()
        } else {
            m
        }),
    decreases m,
{
    let short = lineage(c, at, m);
    let long = lineage(c, at, n);
    if at is Some && m > 0 {
        let b = at->0;
        let next = cached_parent(c, b);
        law_smaller_count_is_prefix(c, next, (m - 1) as nat, (n - 1) as nat);
        let later = lineage(c, next, (n - 1) as nat);
        assert(long =~= seq![b] + later);
        assert(short =~= long.take(short.len() as int));
    } else {
        assert(short =~= long.take(0));
    }
}

/// Whether the provider and the lookups always give the same for the same hash or number.
pub open spec fn steady<
    P: FullBlockProvider,
    H: Fn(&B256) -> Option<Header>,
    N: Fn(u64) -> Option<Header>,
>(full: Option<P>, by_hash: Option<H>, by_number: Option<N>) -> bool {
    &&& forall|hash: B256, o: Option<BscBlock>, q: Option<BscBlock>|
        #[trigger] full_by_hash(full, hash, o) && #[trigger] full_by_hash(full, hash, q)
            ==> primitives::opt_block(o) == primitives::opt_block(q)
    &&& forall|number: u64, o: Option<BscBlock>, q: Option<BscBlock>|
        #[trigger] full_by_number(full, number, o) && #[trigger] full_by_number(full, number, q)
            ==> primitives::opt_block(o) == primitives::opt_block(q)
    &&& forall|hash: B256, o: Option<Header>, q: Option<Header>|
        #[trigger] header_by_hash(by_hash, hash, o) && #[trigger] header_by_hash(by_hash, hash, q)
            ==> opt_header(o) == opt_header(q)
    &&& forall|number: u64, o: Option<Header>, q: Option<Header>|
        #[trigger] header_by_number(by_number, number, o) && #[trigger] header_by_number(
            by_number,
            number,
            q,
        ) ==> opt_header(o) == opt_header(q)
}

/// What an optional header holds.
pub open spec fn opt_header(o: Option<Header>) -> Option<HeaderView> {
    match o {
        Some(h) => Some(h@),
        None => None,
    }
}

proof fn lemma_found_once<
    P: FullBlockProvider,
    H: Fn(&B256) -> Option<Header>,
    N: Fn(u64) -> Option<Header>,
>(
    c: BodyCacheView,
    full: Option<P>,
    by_hash: Option<H>,
    by_number: Option<N>,
    hash: B256,
    o: Option<BscBlock>,
    q: Option<BscBlock>,
)
    requires
        steady(full, by_hash, by_number),
        found_by_hash(c, full, by_hash, hash, o),
        found_by_hash(c, full, by_hash, hash, q),
    ensures
        primitives::opt_block(o) == primitives::opt_block(q),
{
    if c.block_by_hash(hash@) is None {
        let none = None::<BscBlock>;
        let of_full = o is Some && full_by_hash(full, hash, o);
        let qf_full = q is Some && full_by_hash(full, hash, q);
        if of_full {
            assert(full_by_hash(full, hash, none) ==> primitives::opt_block(none)
                == primitives::opt_block(o));
            assert(qf_full);
        } else {
            assert(full_by_hash(full, hash, none));
            assert(!qf_full);
            assert(header_by_hash(by_hash, hash, header_of(o)));
            assert(header_by_hash(by_hash, hash, header_of(q)));
            assert(opt_header(header_of(o)) == opt_header(header_of(q)));
        }
    }
}

proof fn lemma_start_once<
    P: FullBlockProvider,
    H: Fn(&B256) -> Option<Header>,
    N: Fn(u64) -> Option<Header>,
>(
    c: BodyCacheView,
    full: Option<P>,
    by_hash: Option<H>,
    by_number: Option<N>,
    req: GetBlocksByRangePacket,
    o: Option<BscBlock>,
    q: Option<BscBlock>,
)
    requires
        steady(full, by_hash, by_number),
        found_start(c, full, by_hash, by_number, req, o),
        found_start(c, full, by_hash, by_number, req, q),
    ensures
        primitives::opt_block(o) == primitives::opt_block(q),
{
    let number = req.start_block_height;
    if req.start_block_hash@ != primitives::zero_hash() {
        lemma_found_once(c, full, by_hash, by_number, req.start_block_hash, o, q);
    } else if c.block_by_number(number) is None {
        let none = None::<BscBlock>;
        let of_full = o is Some && full_by_number(full, number, o);
        let qf_full = q is Some && full_by_number(full, number, q);
        if of_full {
            assert(full_by_number(full, number, none) ==> primitives::opt_block(none)
                == primitives::opt_block(o));
            assert(qf_full);
        } else {
            assert(full_by_number(full, number, none));
            assert(!qf_full);
            assert(header_by_number(by_number, number, header_of(o)));
            assert(header_by_number(by_number, number, header_of(q)));
            assert(opt_header(header_of(o)) == opt_header(header_of(q)));
        }
    }
}

proof fn lemma_places_agree<
    P: FullBlockProvider,
    H: Fn(&B256) -> Option<Header>,
    N: Fn(u64) -> Option<Header>,
>(
    c: BodyCacheView,
    full: Option<P>,
    by_hash: Option<H>,
    by_number: Option<N>,
    small: GetBlocksByRangePacket,
    large: GetBlocksByRangePacket,
    r: BlocksByRangePacket,
    s: BlocksByRangePacket,
    i: nat,
)
    requires
        steady(full, by_hash, by_number),
        small.count <= large.count,
        large == (GetBlocksByRangePacket { count: large.count, ..small }),
        answers(c, full, by_hash, by_number, small, r),
        answers(c, full, by_hash, by_number, large, s),
        i < wanted(small.count),
    ensures
        primitives::opt_block(block_at(r.blocks@, i as int)) == primitives::opt_block(
            block_at(s.blocks@, i as int),
        ),
    decreases i,
{
    let a = r.blocks@;
    let b = s.blocks@;
    if i == 0 {
        lemma_start_once(c, full, by_hash, by_number, small, block_at(a, 0), block_at(b, 0));
    } else {
        let j = i - 1;
        lemma_places_agree(c, full, by_hash, by_number, small, large, r, s, j as nat);
        if j < a.len() {
            assert(j < b.len());
            assert(a[j]@ == b[j]@);
            assert(a[j].header.parent_hash =~= b[j].header.parent_hash) by {
                assert(a[j]@.header.parent_hash == b[j]@.header.parent_hash);
            }
            assert(found_parent(c, full, by_hash, a[j], block_at(a, j + 1)));
            assert(found_parent(c, full, by_hash, b[j], block_at(b, j + 1)));
            if a[j].header.parent_hash@ != primitives::zero_hash() {
                lemma_found_once(
                    c,
                    full,
                    by_hash,
                    by_number,
                    a[j].header.parent_hash,
                    block_at(a, j + 1),
                    block_at(b, j + 1),
                );
            }
        }
    }
}

/// Of two requests that differ only in their count, the one with the smaller count is answered with
/// the beginning of the answer to the other: as many blocks as it wants, or all there are. The cache
/// holds the same blocks for both, and the provider and the lookups always give the same.
pub proof fn law_smaller_request_is_prefix<
    P: FullBlockProvider,
    H: Fn(&B256) -> Option<Header>,
    N: Fn(u64) -> Option<Header>,
>(
    c: BodyCacheView,
    d: BodyCacheView,
    full: Option<P>,
    by_hash: Option<H>,
    by_number: Option<N>,
    small: GetBlocksByRangePacket,
    large: GetBlocksByRangePacket,
    r: BlocksByRangePacket,
    s: BlocksByRangePacket,
)
    requires
        same_blocks(c, d),
        steady(full, by_hash, by_number),
        small.count <= large.count,
        large == (GetBlocksByRangePacket { count: large.count, ..small }),
        answers(c, full, by_hash, by_number, small, r),
        answers(d, full, by_hash, by_number, large, s),
    ensures
        r.blocks@.len() == (if s.blocks@.len() < wanted(small.count) {
            s.blocks@.len()
        } else {
            wanted(small.count)
        }),
        primitives::block_views(r.blocks@) == primitives::block_views(s.blocks@).take(
            r.blocks@.len() as int,
        ),
        small.count == 0 ==> r.blocks@.len() == 0,
        small.count >= MAX_REQUEST_RANGE_BLOCKS_COUNT ==> primitives::block_views(r.blocks@)
            == primitives::block_views(s.blocks@),
{
    assert(same_blocks(d, c)) by {
        assert forall|h: Seq<u8>| #[trigger] c.block_by_hash(h) == d.block_by_hash(h) by {}
        assert forall|n: u64| #[trigger] c.block_by_number(n) == d.block_by_number(n) by {}
    }
    lemma_answers_alike(d, c, full, by_hash, by_number, large, s);
    let a = r.blocks@;
    let b = s.blocks@;
    let room = wanted(small.count);
    assert forall|i: nat| i < room implies primitives::opt_block(#[trigger] block_at(a, i as int))
        == primitives::opt_block(block_at(b, i as int)) by {
        lemma_places_agree(c, full, by_hash, by_number, small, large, r, s, i);
    }
    if a.len() < room {
        let n: nat = a.len();
        assert(block_at(a, n as int) is None);
        assert(block_at(b, n as int) is None);
    }
    if b.len() < a.len() {
        let n: nat = b.len();
        assert(block_at(a, n as int) is Some);
    }
    if a.len() < b.len() && a.len() > 0 {
        let n: nat = (a.len() - 1) as nat;
        assert(block_at(a, n as int) is Some);
    }
    assert forall|i: int| 0 <= i < a.len() implies a[i]@ == b[i]@ by {
        let n: nat = i as nat;
        assert(block_at(a, n as int) == Some(a[i]));
    }
    let views = primitives::block_views(b);
    assert(primitives::block_views(a) =~= views.take(a.len() as int));
    assert(views.take(views.len() as int) =~= views);
}

/// The same with the cache alone, without a provider and lookups.
pub proof fn law_smaller_request_is_prefix_in_cache<
    P: FullBlockProvider,
    H: Fn(&B256) -> Option<Header>,
    N: Fn(u64) -> Option<Header>,
>(
    c: BodyCacheView,
    d: BodyCacheView,
    small: GetBlocksByRangePacket,
    large: GetBlocksByRangePacket,
    r: BlocksByRangePacket,
    s: BlocksByRangePacket,
)
    requires
        same_blocks(c, d),
        small.count <= large.count,
        large == (GetBlocksByRangePacket { count: large.count, ..small }),
        answers(c, None::<P>, None::<H>, None::<N>, small, r),
        answers(d, None::<P>, None::<H>, None::<N>, large, s),
    ensures
        r.blocks@.len() == (if s.blocks@.len() < wanted(small.count) {
            s.blocks@.len()
        } else {
            wanted(small.count)
        }),
        primitives::block_views(r.blocks@) == primitives::block_views(s.blocks@).take(
            r.blocks@.len() as int,
        ),
        small.count == 0 ==> r.blocks@.len() == 0,
        small.count >= MAX_REQUEST_RANGE_BLOCKS_COUNT ==> primitives::block_views(r.blocks@)
            == primitives::block_views(s.blocks@),
{
    law_smaller_request_is_prefix(c, d, None::<P>, None::<H>, None::<N>, small, large, r, s);
}

// ---- where each block of an answer comes from ----

/// A block that is cached under a hash is what is found for it. Otherwise what the provider of full
/// blocks gives is, and only where it gives nothing the header that the lookup gives, with two empty
/// lists as its body.
pub proof fn law_source_by_hash<P: FullBlockProvider, H: Fn(&B256) -> Option<Header>>(
    c: BodyCacheView,
    full: Option<P>,
    by_hash: Option<H>,
    hash: B256,
    o: Option<BscBlock>,
)
    requires
        found_by_hash(c, full, by_hash, hash, o),
    ensures
        c.block_by_hash(hash@) matches Some(b) ==> (o matches Some(x) && x@ == b),
        c.block_by_hash(hash@) is None ==> match o {
            Some(x) => {
                ||| full matches Some(p) && call_ensures(P::block_by_hash, (&p, &hash), Some(x))
                ||| (full matches Some(p) ==> call_ensures(P::block_by_hash, (&p, &hash), None)) && (
                by_hash matches Some(f) && f.ensures((&hash,), Some(x.header)))
                    && x.body.items@ == seq![0xc0u8, 0xc0u8]
            },
            None => {
                &&& full matches Some(p) ==> call_ensures(P::block_by_hash, (&p, &hash), None)
                &&& by_hash matches Some(f) ==> f.ensures((&hash,), None)
            },
        },
{
}

/// A block that is cached for a number is what is found for it. Otherwise what the provider of full
/// blocks gives is, and only where it gives nothing the header that the lookup gives, with two empty
/// lists as its body.
pub proof fn law_source_by_number<P: FullBlockProvider, N: Fn(u64) -> Option<Header>>(
    c: BodyCacheView,
    full: Option<P>,
    by_number: Option<N>,
    number: u64,
    o: Option<BscBlock>,
)
    requires
        found_by_number(c, full, by_number, number, o),
    ensures
        c.block_by_number(number) matches Some(b) ==> (o matches Some(x) && x@ == b),
        c.block_by_number(number) is None ==> match o {
            Some(x) => {
                ||| full matches Some(p) && call_ensures(P::block_by_number, (&p, number), Some(x))
                ||| (full matches Some(p) ==> call_ensures(P::block_by_number, (&p, number), None))
                    && (by_number matches Some(f) && f.ensures((number,), Some(x.header)))
                    && x.body.items@ == seq![0xc0u8, 0xc0u8]
            },
            None => {
                &&& full matches Some(p) ==> call_ensures(P::block_by_number, (&p, number), None)
                &&& by_number matches Some(f) ==> f.ensures((number,), None)
            },
        },
{
}

/// The first block of an answer is what is found for the hash that was asked for, or for the height
/// where the hash is all zero; each other one is what is found for the parent hash of the block in
/// front of it. An answer has at most sixty-four blocks and never more than were asked for, and it
/// stops short only behind a block without a parent or where nothing is found.
pub proof fn law_answer_place_by_place<
    P: FullBlockProvider,
    H: Fn(&B256) -> Option<Header>,
    N: Fn(u64) -> Option<Header>,
>(
    c: BodyCacheView,
    full: Option<P>,
    by_hash: Option<H>,
    by_number: Option<N>,
    req: GetBlocksByRangePacket,
    r: BlocksByRangePacket,
    i: int,
)
    requires
        answers(c, full, by_hash, by_number, req, r),
    ensures
        r.request_id == req.request_id,
        r.blocks@.len() <= req.count,
        r.blocks@.len() <= 64,
        r.blocks@.len() > 0 && !(forall|k: int|
            0 <= k < 32 ==> (#[trigger] req.start_block_hash@[k]) == 0) ==> found_by_hash(
            c,
            full,
            by_hash,
            req.start_block_hash,
            Some(r.blocks@[0]),
        ),
        r.blocks@.len() > 0 && (forall|k: int|
            0 <= k < 32 ==> (#[trigger] req.start_block_hash@[k]) == 0) ==> found_by_number(
            c,
            full,
            by_number,
            req.start_block_height,
            Some(r.blocks@[0]),
        ),
        0 < i < r.blocks@.len() ==> found_by_hash(
            c,
            full,
            by_hash,
            r.blocks@[i - 1].header.parent_hash,
            Some(r.blocks@[i]),
        ),
        0 < r.blocks@.len() < req.count && r.blocks@.len() < 64 && !(forall|k: int|
            0 <= k < 32 ==> (#[trigger] r.blocks@.last().header.parent_hash@[k]) == 0)
            ==> found_by_hash(
            c,
            full,
            by_hash,
            r.blocks@.last().header.parent_hash,
            None,
        ),
        r.blocks@.len() == 0 && req.count > 0 && !(forall|k: int|
            0 <= k < 32 ==> (#[trigger] req.start_block_hash@[k]) == 0) ==> found_by_hash(
            c,
            full,
            by_hash,
            req.start_block_hash,
            None,
        ),
        r.blocks@.len() == 0 && req.count > 0 && (forall|k: int|
            0 <= k < 32 ==> (#[trigger] req.start_block_hash@[k]) == 0) ==> found_by_number(
            c,
            full,
            by_number,
            req.start_block_height,
            None,
        ),
{
    let blocks = r.blocks@;
    primitives::law_zero_hash(req.start_block_hash);
    if 0 < i < blocks.len() {
        assert(found_parent(c, full, by_hash, blocks[i - 1], block_at(blocks, i - 1 + 1)));
    }
    if 0 < blocks.len() < wanted(req.count) {
        let last = blocks.len() - 1;
        primitives::law_zero_hash(blocks[last].header.parent_hash);
        assert(found_parent(c, full, by_hash, blocks[last], block_at(blocks, last + 1)));
    }
}

/// Answering looks up the start, and then the parent of each block that is sent, the last one too, as
/// long as it has one: these are the entries of the cache that were used last.
pub proof fn law_cache_is_used(
    c: BodyCacheView,
    req: GetBlocksByRangePacket,
    blocks: Seq<BscBlockView>,
    b: BscBlockView,
)
    ensures
        req.start_block_hash@ != primitives::zero_hash() ==> cache_after(c, req@, Seq::empty())
            == c.hash_looked_up(req.start_block_hash@),
        req.start_block_hash@ == primitives::zero_hash() ==> cache_after(c, req@, Seq::empty())
            == c.number_looked_up(req.start_block_height),
        b.header.parent_hash != primitives::zero_hash() ==> cache_after(c, req@, blocks.push(b))
            == cache_after(c, req@, blocks).hash_looked_up(b.header.parent_hash),
        b.header.parent_hash == primitives::zero_hash() ==> cache_after(c, req@, blocks.push(b))
            == cache_after(c, req@, blocks),
{
    assert(blocks.push(b).drop_last() =~= blocks);
}

} // verus!
