//! The request for a range of blocks, its answer, and how the answer is put together.
use crate::body_cache::BodyCache;
use crate::node::block_codec;
use crate::node::block_codec::{put_blocks, take_blocks};
use crate::node::network::range_walk;
use crate::node::network::range_walk::{find_by_hash, find_by_number};
use crate::node::primitives;
use crate::node::primitives::{is_zero_hash, BscBlock, BscBlockView, Header, B256};
use crate::num;
use crate::num::{read_be, write_be};
use crate::once_slot::OnceSlot;
use crate::rlp;
use crate::rlp::{
    field_reach, header_reach, into_array, payload_reach, put_list, put_record, put_slice, put_u64,
    record_reach, take_field, take_header, take_payload, take_record, FieldKind, RlpError,
};
use crate::shared::FullBlockProvider;
use vstd::prelude::*;

verus! {

/// Max range allowed in a single request.
pub const MAX_REQUEST_RANGE_BLOCKS_COUNT: u64 = 64;

/// Message id of [`GetBlocksByRangePacket`].
pub const GET_BLOCKS_BY_RANGE_ID: u8 = 0x02;

/// Message id of [`BlocksByRangePacket`].
pub const BLOCKS_BY_RANGE_ID: u8 = 0x03;

/// GetBlocksByRange request packet (message id 0x02)
#[derive(Debug, Clone, Copy, PartialEq, Eq)]
pub struct GetBlocksByRangePacket {
    pub request_id: u64,
    pub start_block_height: u64,
    pub start_block_hash: B256,
    pub count: u64,
}

/// What a [`GetBlocksByRangePacket`] holds.
#[verifier::ext_equal]
pub struct GetBlocksByRangeView {
    pub request_id: u64,
    pub start_block_height: u64,
    pub start_block_hash: Seq<u8>,
    pub count: u64,
}

impl View for GetBlocksByRangePacket {
    type V = GetBlocksByRangeView;

    open spec fn view(&self) -> GetBlocksByRangeView {
        GetBlocksByRangeView {
            request_id: self.request_id,
            start_block_height: self.start_block_height,
            start_block_hash: self.start_block_hash@,
            count: self.count,
        }
    }
}

/// BlocksByRange response packet (message id 0x03)
#[derive(Debug, PartialEq, Eq)]
pub struct BlocksByRangePacket {
    pub request_id: u64,
    pub blocks: Vec<BscBlock>,
}

/// What a [`BlocksByRangePacket`] holds.
#[verifier::ext_equal]
pub struct BlocksByRangeView {
    pub request_id: u64,
    pub blocks: Seq<BscBlockView>,
}

impl View for BlocksByRangePacket {
    type V = BlocksByRangeView;

    open spec fn view(&self) -> BlocksByRangeView {
        BlocksByRangeView {
            request_id: self.request_id,
            blocks: primitives::block_views(self.blocks@),
        }
    }
}

impl Clone for BlocksByRangePacket {
    fn clone(&self) -> (r: Self)
        ensures
            r@ == self@,
    {
        let mut blocks: Vec<BscBlock> = Vec::new();
        let mut i: usize = 0;
        while i < self.blocks.len()
            invariant
                i <= self.blocks@.len(),
                primitives::block_views(blocks@) == self@.blocks.take(i as int),
            decreases self.blocks@.len() - i,
        {
            let b = self.blocks[i].clone();
            proof {
                assert(primitives::block_views(blocks@.push(b)) =~= primitives::block_views(
                    blocks@,
                ).push(b@));
                assert(self@.blocks.take(i + 1) =~= self@.blocks.take(i as int).push(b@));
            }
            blocks.push(b);
            i += 1;
        }
        assert(self@.blocks.take(i as int) =~= self@.blocks);
        BlocksByRangePacket { request_id: self.request_id, blocks }
    }
}

// ---- the packets as bytes ----

/// The fields of a request, in order.
pub open spec fn request_kinds() -> Seq<FieldKind> {
    seq![FieldKind::Word, FieldKind::Word, FieldKind::Fixed(32), FieldKind::Word]
}

/// The payloads of a request's fields.
pub open spec fn request_payloads(p: GetBlocksByRangeView) -> Seq<Seq<u8>> {
    seq![
        num::be_bytes(p.request_id as nat),
        num::be_bytes(p.start_block_height as nat),
        p.start_block_hash,
        num::be_bytes(p.count as nat),
    ]
}

/// A request as bytes: the message id, then the record of its fields.
pub open spec fn request_bytes(p: GetBlocksByRangeView) -> Seq<u8> {
    seq![GET_BLOCKS_BY_RANGE_ID] + rlp::record_item(request_payloads(p))
}

/// The request at the front of `s`, and how many bytes it takes.
pub open spec fn request_in(s: Seq<u8>) -> Result<(GetBlocksByRangeView, nat), RlpError> {
    if s.len() == 0 {
        Err(RlpError::InputTooShort)
    } else if s[0] != GET_BLOCKS_BY_RANGE_ID {
        Err(RlpError::Custom("Invalid message ID for GetBlocksByRangePacket"))
    } else {
        match rlp::record_at(s.skip(1), request_kinds(), 4) {
            Err(e) => Err(e),
            Ok((ps, n)) => Ok(
                (
                    GetBlocksByRangeView {
                        request_id: num::be_value(ps[0]) as u64,
                        start_block_height: num::be_value(ps[1]) as u64,
                        start_block_hash: ps[2],
                        count: num::be_value(ps[3]) as u64,
                    },
                    n + 1,
                ),
            ),
        }
    }
}

/// A response as bytes: the message id, then the list of the request id and the blocks.
pub open spec fn response_bytes(p: BlocksByRangeView) -> Seq<u8> {
    seq![BLOCKS_BY_RANGE_ID] + rlp::list_item(
        rlp::number_item(p.request_id as nat) + rlp::list_item(block_codec::block_items(p.blocks)),
    )
}

/// The request id and the blocks at the front of `s`, and how many bytes they take.
#[verifier::opaque]
pub open spec fn response_fields(s: Seq<u8>) -> Result<(BlocksByRangeView, nat), RlpError> {
    match rlp::field_at(s, FieldKind::Word) {
        Err(e) => Err(e),
        Ok((p, n)) => match rlp::payload_at(s.skip(n as int), true) {
            Err(e) => Err(e),
            Ok((q, m)) => match block_codec::blocks_in(q) {
                Err(e) => Err(e),
                Ok(blocks) => Ok(
                    (BlocksByRangeView { request_id: num::be_value(p) as u64, blocks }, n + m),
                ),
            },
        },
    }
}

/// The response at the front of `s`, and how many bytes it takes.
pub open spec fn response_in(s: Seq<u8>) -> Result<(BlocksByRangeView, nat), RlpError> {
    if s.len() == 0 {
        Err(RlpError::InputTooShort)
    } else if s[0] != BLOCKS_BY_RANGE_ID {
        Err(RlpError::Custom("Invalid message ID for BlocksByRangePacket"))
    } else {
        match rlp::header_at(s.skip(1)) {
            Err(e) => Err(e),
            Ok(h) => if !h.list {
                Err(RlpError::UnexpectedString)
            } else {
                match response_fields(s.skip(1).skip(h.header_len as int)) {
                    Err(e) => Err(e),
                    Ok((packet, n)) => if n != h.payload_len {
                        Err(
                            RlpError::ListLengthMismatch {
                                expected: h.payload_len,
                                got: n as usize,
                            },
                        )
                    } else {
                        Ok((packet, (1 + h.header_len + n) as nat))
                    },
                }
            },
        }
    }
}

/// How many bytes reading a request takes from the front of `s`, whether it is accepted or refused: a
/// message id is taken from any bytes, and what follows up to the first field that is refused.
pub open spec fn request_taken(s: Seq<u8>) -> nat {
    if s.len() == 0 {
        0
    } else if s[0] != GET_BLOCKS_BY_RANGE_ID {
        1
    } else {
        1 + rlp::record_taken(s.skip(1), request_kinds(), 4)
    }
}

/// How many bytes reading the request id and the blocks takes. The list of the blocks is taken before
/// any block is looked at.
#[verifier::opaque]
pub open spec fn response_fields_taken(s: Seq<u8>) -> nat {
    match rlp::field_at(s, FieldKind::Word) {
        Err(_) => rlp::field_taken(s, FieldKind::Word),
        Ok((_, n)) => n + rlp::payload_taken(s.skip(n as int), true),
    }
}

/// How many bytes reading a response takes from the front of `s`, whether it is accepted or refused.
pub open spec fn response_taken(s: Seq<u8>) -> nat {
    if s.len() == 0 {
        0
    } else if s[0] != BLOCKS_BY_RANGE_ID {
        1
    } else {
        match rlp::header_at(s.skip(1)) {
            Err(_) => 1 + rlp::header_taken(s.skip(1)),
            Ok(h) => if !h.list {
                1 + rlp::header_taken(s.skip(1))
            } else {
                1 + rlp::header_taken(s.skip(1)) + response_fields_taken(
                    s.skip(1).skip(h.header_len as int),
                )
            },
        }
    }
}

/// A request that is accepted is taken whole, and one that is refused no further than the bytes go.
pub proof fn law_request_taken(s: Seq<u8>)
    ensures
        request_taken(s) <= s.len(),
        request_in(s) matches Ok((_, n)) ==> request_taken(s) == n,
{
    if s.len() > 0 {
        rlp::law_record_taken(s.skip(1), request_kinds(), 4);
    }
}

proof fn lemma_response_fields_taken(s: Seq<u8>)
    ensures
        response_fields_taken(s) <= s.len(),
        response_fields(s) matches Ok((_, n)) ==> response_fields_taken(s) == n,
{
    reveal(response_fields);
    reveal(response_fields_taken);
    rlp::law_field_taken(s, FieldKind::Word);
    if let Ok((_, n)) = rlp::field_at(s, FieldKind::Word) {
        rlp::law_header_taken(s.skip(n as int));
        rlp::law_header_canonical(s.skip(n as int));
    }
}

/// A response that is accepted is taken whole, and one that is refused no further than the bytes go.
pub proof fn law_response_taken(s: Seq<u8>)
    ensures
        response_taken(s) <= s.len(),
        response_in(s) matches Ok((_, n)) ==> response_taken(s) == n,
{
    if s.len() > 0 {
        let t = s.skip(1);
        rlp::law_header_taken(t);
        rlp::law_header_canonical(t);
        if let Ok(h) = rlp::header_at(t) {
            lemma_response_fields_taken(t.skip(h.header_len as int));
        }
    }
}

proof fn lemma_request_payloads(p: GetBlocksByRangePacket)
    ensures
        rlp::record_fields(request_payloads(p@), request_kinds(), 4),
{
    rlp::lemma_word_payload(p.request_id);
    rlp::lemma_word_payload(p.start_block_height);
    rlp::lemma_word_payload(p.count);
}

proof fn lemma_request_item_len(p: GetBlocksByRangePacket)
    ensures
        rlp::items_from(request_payloads(p@), 0).len() <= 60,
{
    let ps = request_payloads(p@);
    reveal_with_fuel(rlp::items_from, 5);
    lemma_request_payloads(p);
    assert(rlp::fault(request_kinds()[0], ps[0]) is None);
    assert(rlp::fault(request_kinds()[1], ps[1]) is None);
    assert(rlp::fault(request_kinds()[3], ps[3]) is None);
}

/// A request is read back, whatever follows.
pub proof fn law_request_read_back(p: GetBlocksByRangePacket, rest: Seq<u8>)
    ensures
        request_in(request_bytes(p@) + rest) == Ok::<(GetBlocksByRangeView, nat), RlpError>(
            (p@, request_bytes(p@).len()),
        ),
        (request_bytes(p@) + rest).skip(request_taken(request_bytes(p@) + rest) as int) == rest,
{
    let ps = request_payloads(p@);
    let item = rlp::record_item(ps);
    let s = request_bytes(p@) + rest;
    lemma_request_payloads(p);
    lemma_request_item_len(p);
    rlp::law_record_read_back(ps, request_kinds(), 4, rest);
    assert(s.skip(1) =~= item + rest);
    rlp::lemma_word_payload(p.request_id);
    rlp::lemma_word_payload(p.start_block_height);
    rlp::lemma_word_payload(p.count);
    law_request_taken(s);
    assert(s.skip(request_bytes(p@).len() as int) =~= rest);
}

/// A response is read back, whatever follows, if its blocks can be read at all.
pub proof fn law_response_read_back(p: BlocksByRangePacket, rest: Seq<u8>)
    requires
        forall|i: int|
            0 <= i < p.blocks@.len() ==> block_codec::readable((#[trigger] p.blocks@[i])@),
        response_bytes(p@).len() <= usize::MAX - 9,
    ensures
        response_in(response_bytes(p@) + rest) == Ok::<(BlocksByRangeView, nat), RlpError>(
            (p@, response_bytes(p@).len()),
        ),
        (response_bytes(p@) + rest).skip(response_taken(response_bytes(p@) + rest) as int) == rest,
{
    let id = rlp::number_item(p.request_id as nat);
    let list = rlp::list_item(block_codec::block_items(p@.blocks));
    let payload = id + list;
    let head = rlp::item_header(true, payload.len());
    let s = response_bytes(p@) + rest;
    rlp::law_header_read_back(true, payload, rest);
    assert(s.skip(1) =~= head + payload + rest);
    lemma_response_fields(p, rest);
    assert(s.skip(1).skip(head.len() as int) =~= payload + rest);
    law_response_taken(s);
    assert(s.skip(response_bytes(p@).len() as int) =~= rest);
}

proof fn lemma_response_fields(p: BlocksByRangePacket, rest: Seq<u8>)
    requires
        forall|i: int|
            0 <= i < p.blocks@.len() ==> block_codec::readable((#[trigger] p.blocks@[i])@),
        response_bytes(p@).len() <= usize::MAX - 9,
    ensures
        ({
            let id = rlp::number_item(p.request_id as nat);
            let list = rlp::list_item(block_codec::block_items(p@.blocks));
            response_fields(id + list + rest) == Ok::<(BlocksByRangeView, nat), RlpError>(
                (p@, id.len() + list.len()),
            )
        }),
{
    reveal(response_fields);
    let id = rlp::number_item(p.request_id as nat);
    let items = block_codec::block_items(p@.blocks);
    let list = rlp::list_item(items);
    let body = id + list + rest;
    assert(body =~= id + (list + rest));
    rlp::lemma_word_payload(p.request_id);
    rlp::law_string_read_back(num::be_bytes(p.request_id as nat), list + rest);
    assert(body.skip(id.len() as int) =~= list + rest);
    rlp::law_list_read_back(items, rest);
    block_codec::law_blocks_read_back(p.blocks@);
}

/// Reads the request id and the blocks at the front of `s`, and how many bytes they take.
fn take_response_fields(s: &[u8]) -> (r: Result<(BlocksByRangePacket, usize), RlpError>)
    ensures
        match r {
            Ok((p, n)) => response_fields(s@) == Ok::<(BlocksByRangeView, nat), RlpError>(
                (p@, n as nat),
            ) && n <= s@.len(),
            Err(e) => response_fields(s@) == Err::<(BlocksByRangeView, nat), RlpError>(e),
        },
{
    reveal(response_fields);
    let (id, n) = take_field(s, FieldKind::Word)?;
    let tail = vstd::slice::slice_subrange(s, n, s.len());
    assert(tail@ =~= s@.skip(n as int));
    let (items, m) = take_payload(tail, true)?;
    let blocks = take_blocks(items)?;
    assert(s@.len() == s.len());
    Ok((BlocksByRangePacket { request_id: read_be(id), blocks }, n + m))
}

/// How far reading the request id and the blocks at the front of `s` goes.
fn response_fields_reach(s: &[u8]) -> (r: usize)
    ensures
        r == response_fields_taken(s@),
        r <= s@.len(),
{
    proof {
        reveal(response_fields_taken);
        lemma_response_fields_taken(s@);
    }
    match take_field(s, FieldKind::Word) {
        Err(_) => field_reach(s, FieldKind::Word),
        Ok((_, n)) => {
            let tail = vstd::slice::slice_subrange(s, n, s.len());
            assert(tail@ =~= s@.skip(n as int));
            assert(s@.len() == s.len());
            n + payload_reach(tail, true)
        },
    }
}

impl GetBlocksByRangePacket {
    /// Appends the message id, then the fields as a list.
    pub fn encode(&self, out: &mut Vec<u8>)
        ensures
            final(out)@ == old(out)@ + request_bytes(self@),
    {
        out.push(GET_BLOCKS_BY_RANGE_ID);
        let mut hash: Vec<u8> = Vec::new();
        put_slice(&mut hash, self.start_block_hash.as_slice());
        assert(hash@ =~= self@.start_block_hash);
        let ps = vec![
            write_be(self.request_id),
            write_be(self.start_block_height),
            hash,
            write_be(self.count),
        ];
        assert(rlp::payloads(ps@) =~= request_payloads(self@));
        put_record(out, &ps);
        assert(out@ =~= old(out)@ + request_bytes(self@));
    }

    /// Reads the request at the front of `buf` and moves `buf` behind it, or as far as it was read.
    pub fn decode(buf: &mut &[u8]) -> (r: Result<GetBlocksByRangePacket, RlpError>)
        ensures
            match r {
                Ok(p) => request_in(old(buf)@) matches Ok((v, _)) && v == p@,
                Err(e) => request_in(old(buf)@) == Err::<(GetBlocksByRangeView, nat), RlpError>(e),
            },
            final(buf)@ == old(buf)@.skip(request_taken(old(buf)@) as int),
    {
        let s: &[u8] = *buf;
        if s.len() == 0 {
            assert(s@.skip(0) =~= s@);
            return Err(RlpError::InputTooShort);
        }
        let inner = vstd::slice::slice_subrange(s, 1, s.len());
        assert(inner@ =~= s@.skip(1));
        *buf = inner;
        if s[0] != GET_BLOCKS_BY_RANGE_ID {
            return Err(RlpError::Custom("Invalid message ID for GetBlocksByRangePacket"));
        }
        let kinds = vec![
            FieldKind::Word,
            FieldKind::Word,
            FieldKind::Fixed(32),
            FieldKind::Word,
        ];
        assert(kinds@ =~= request_kinds());
        let (ps, n) = match take_record(inner, kinds.as_slice(), 4) {
            Ok(found) => found,
            Err(e) => {
                let n = record_reach(inner, kinds.as_slice(), 4);
                *buf = vstd::slice::slice_subrange(inner, n, inner.len());
                assert(buf@ =~= s@.skip(n + 1));
                return Err(e);
            },
        };
        proof {
            law_request_taken(s@);
            rlp::law_record_canonical(inner@, request_kinds(), 4);
            let c = rlp::contents(ps@);
            assert forall|i: int| 0 <= i < 4 implies rlp::fault(
                request_kinds()[i],
                #[trigger] ps@[i]@,
            ) is None by {
                assert(c[i] == ps@[i]@);
                assert(rlp::fault(request_kinds()[i], c[i]) is None);
            }
        }
        let p = GetBlocksByRangePacket {
            request_id: read_be(ps[0]),
            start_block_height: read_be(ps[1]),
            start_block_hash: into_array([0u8; 32], ps[2]),
            count: read_be(ps[3]),
        };
        *buf = vstd::slice::slice_subrange(inner, n, inner.len());
        assert(buf@ =~= s@.skip(n + 1));
        Ok(p)
    }
}

impl BlocksByRangePacket {
    /// Appends the message id, then the fields as a list.
    pub fn encode(&self, out: &mut Vec<u8>)
        ensures
            final(out)@ == old(out)@ + response_bytes(self@),
    {
        out.push(BLOCKS_BY_RANGE_ID);
        let mut payload: Vec<u8> = Vec::new();
        put_u64(&mut payload, self.request_id);
        put_blocks(&mut payload, &self.blocks);
        proof {
            let id = rlp::number_item(self.request_id as nat);
            let list = rlp::list_item(block_codec::block_items(self@.blocks));
            assert(payload@ =~= id + list);
        }
        put_list(out, payload.as_slice());
        assert(out@ =~= old(out)@ + response_bytes(self@));
    }

    /// Reads the response at the front of `buf` and moves `buf` behind it, or as far as it was read.
    pub fn decode(buf: &mut &[u8]) -> (r: Result<BlocksByRangePacket, RlpError>)
        ensures
            match r {
                Ok(p) => response_in(old(buf)@) matches Ok((v, _)) && v == p@,
                Err(e) => response_in(old(buf)@) == Err::<(BlocksByRangeView, nat), RlpError>(e),
            },
            final(buf)@ == old(buf)@.skip(response_taken(old(buf)@) as int),
    {
        let s: &[u8] = *buf;
        if s.len() == 0 {
            assert(s@.skip(0) =~= s@);
            return Err(RlpError::InputTooShort);
        }
        let inner = vstd::slice::slice_subrange(s, 1, s.len());
        assert(inner@ =~= s@.skip(1));
        *buf = inner;
        if s[0] != BLOCKS_BY_RANGE_ID {
            return Err(RlpError::Custom("Invalid message ID for BlocksByRangePacket"));
        }
        proof {
            rlp::law_header_canonical(inner@);
            rlp::law_header_taken(inner@);
        }
        let start = header_reach(inner);
        let body = vstd::slice::slice_subrange(inner, start, inner.len());
        assert(body@ =~= inner@.skip(start as int));
        *buf = body;
        assert(body@ =~= s@.skip(1 + start));
        let h = match take_header(inner) {
            Ok(h) => h,
            Err(e) => {
                return Err(e);
            },
        };
        if !h.list {
            return Err(RlpError::UnexpectedString);
        }
        let reach = response_fields_reach(body);
        *buf = vstd::slice::slice_subrange(body, reach, body.len());
        assert(buf@ =~= s@.skip(1 + start + reach));
        let (p, n) = match take_response_fields(body) {
            Ok(found) => found,
            Err(e) => {
                return Err(e);
            },
        };
        if n != h.payload_len {
            return Err(RlpError::ListLengthMismatch { expected: h.payload_len, got: n });
        }
        Ok(p)
    }
}

// ---- answering a request ----

/// Build a best-effort response for a GetBlocksByRange request using only headers if needed.
///
/// Blocks are constructed with empty bodies if full data is not available, neither in the cache nor
/// from the provider of full blocks. It prioritizes `start_block_hash` if non-zero, otherwise uses
/// `start_block_height`. The traversal follows parent hashes up to `count` blocks.
pub fn build_blocks_by_range_response<
    P: FullBlockProvider,
    H: Fn(&B256) -> Option<Header>,
    N: Fn(u64) -> Option<Header>,
>(
    cache: &mut BodyCache,
    full: &OnceSlot<P>,
    by_hash: &OnceSlot<H>,
    by_number: &OnceSlot<N>,
    req: &GetBlocksByRangePacket,
) -> (r: BlocksByRangePacket)
    requires
        old(cache).wf(),
        full@ matches Some(p) ==> p.ready(),
        range_walk::hashes_ready(by_hash@),
        range_walk::numbers_ready(by_number@),
    ensures
        range_walk::answers(old(cache)@, full@, by_hash@, by_number@, *req, r),
        final(cache)@ == range_walk::cache_after(old(cache)@, req@, r@.blocks),
        final(cache).wf(),
{
    let ghost c = old(cache)@;
    let ghost mid = range_walk::start_looked_up(c, req@);
    let ghost room = range_walk::wanted(req.count);
    proof {
        old(cache).lemma_contents();
        range_walk::lemma_start_looked_up(c, req@);
    }
    let mut current: Option<BscBlock> = if !is_zero_hash(&req.start_block_hash) {
        find_by_hash(cache, full, by_hash, &req.start_block_hash)
    } else {
        find_by_number(cache, full, by_number, req.start_block_height)
    };
    let mut remaining: u64 = if req.count <= MAX_REQUEST_RANGE_BLOCKS_COUNT {
        req.count
    } else {
        MAX_REQUEST_RANGE_BLOCKS_COUNT
    };
    let ghost start = current;
    let mut blocks: Vec<BscBlock> = Vec::new();
    assert(primitives::block_views(blocks@) =~= Seq::empty());
    loop
        invariant
            cache.wf(),
            c.wf(),
            mid.wf(),
            range_walk::same_blocks(c, mid),
            full@ matches Some(p) ==> p.ready(),
            range_walk::hashes_ready(by_hash@),
            room == range_walk::wanted(req.count),
            blocks@.len() + remaining == room,
            cache@ == range_walk::parents_looked_up(mid, primitives::block_views(blocks@)),
            blocks@.len() == 0 ==> current == start,
            blocks@.len() > 0 ==> Some(blocks@[0]) == start && range_walk::found_parent(
                c,
                full@,
                by_hash@,
                blocks@.last(),
                current,
            ),
            range_walk::follows_parents(c, full@, by_hash@, blocks@, blocks@.len()),
        ensures
            cache.wf(),
            blocks@.len() <= room,
            cache@ == range_walk::parents_looked_up(mid, primitives::block_views(blocks@)),
            room > 0 ==> range_walk::block_at(blocks@, 0) == start,
            range_walk::follows_parents(c, full@, by_hash@, blocks@, room),
        decreases remaining,
    {
        if remaining == 0 {
            break;
        }
        match current {
            None => {
                break;
            },
            Some(block) => {
                let ghost before = blocks@;
                let parent_hash = block.header.parent_hash;
                blocks.push(block);
                proof {
                    let views = primitives::block_views(before);
                    range_walk::lemma_parents_looked_up(mid, views);
                    range_walk::lemma_same_blocks(c, mid, cache@);
                    assert(primitives::block_views(blocks@) =~= views.push(block@));
                    assert(views.push(block@).drop_last() =~= views);
                    assert forall|i: int| 0 <= i < blocks@.len() && i + 1 < blocks@.len() implies
                        range_walk::found_parent(
                        c,
                        full@,
                        by_hash@,
                        #[trigger] blocks@[i],
                        range_walk::block_at(blocks@, i + 1),
                    ) by {
                        assert(blocks@[i] == before[i]);
                        if i + 1 < before.len() {
                            assert(blocks@[i + 1] == before[i + 1]);
                        }
                    }
                }
                let ghost held = cache@;
                current = if !is_zero_hash(&parent_hash) {
                    find_by_hash(cache, full, by_hash, &parent_hash)
                } else {
                    None
                };
                proof {
                    range_walk::lemma_found_alike(c, held, full@, by_hash@, parent_hash, current);
                }
                remaining = remaining - 1;
            },
        }
    }
    BlocksByRangePacket { request_id: req.request_id, blocks }
}

// ---- laws ----

/// A request is the byte two and the list of its id, height, hash and count, in this order; a
/// response is the byte three and the list of its id and its list of blocks.
pub proof fn law_packet_forms(q: GetBlocksByRangePacket, r: BlocksByRangePacket)
    ensures
        request_bytes(q@) == seq![2u8] + rlp::list_item(
            rlp::number_item(q.request_id as nat) + rlp::number_item(q.start_block_height as nat)
                + rlp::string_item(q.start_block_hash@) + rlp::number_item(q.count as nat),
        ),
        response_bytes(r@) == seq![3u8] + rlp::list_item(
            rlp::number_item(r.request_id as nat) + rlp::list_item(
                block_codec::block_items(primitives::block_views(r.blocks@)),
            ),
        ),
{
    let ps = request_payloads(q@);
    reveal_with_fuel(rlp::items_from, 5);
    assert(rlp::items_from(ps, 4) =~= Seq::<u8>::empty());
    assert(rlp::items_from(ps, 0) =~= rlp::number_item(q.request_id as nat) + rlp::number_item(
        q.start_block_height as nat,
    ) + rlp::string_item(q.start_block_hash@) + rlp::number_item(q.count as nat));
}

/// Two requests with the same bytes are the same, and so are two responses whose blocks can be read.
pub proof fn law_packets_differ_in_bytes(
    p: GetBlocksByRangePacket,
    q: GetBlocksByRangePacket,
    r: BlocksByRangePacket,
    s: BlocksByRangePacket,
)
    ensures
        request_bytes(p@) == request_bytes(q@) ==> p.request_id == q.request_id
            && p.start_block_height == q.start_block_height && p.start_block_hash@
            == q.start_block_hash@ && p.count == q.count,
        response_bytes(r@) == response_bytes(s@) && response_bytes(r@).len() <= usize::MAX - 9 && (
        forall|i: int|
            0 <= i < r.blocks@.len() ==> block_codec::readable((#[trigger] r.blocks@[i])@)) && (
        forall|i: int|
            0 <= i < s.blocks@.len() ==> block_codec::readable((#[trigger] s.blocks@[i])@))
            ==> r.request_id == s.request_id && primitives::block_views(r.blocks@)
            == primitives::block_views(s.blocks@),
{
    let none = Seq::<u8>::empty();
    law_request_read_back(p, none);
    law_request_read_back(q, none);
    if response_bytes(r@) == response_bytes(s@) && response_bytes(r@).len() <= usize::MAX - 9 && (
    forall|i: int| 0 <= i < r.blocks@.len() ==> block_codec::readable((#[trigger] r.blocks@[i])@))
        && (forall|i: int|
        0 <= i < s.blocks@.len() ==> block_codec::readable((#[trigger] s.blocks@[i])@)) {
        law_response_read_back(r, none);
        law_response_read_back(s, none);
    }
}


/// A packet is refused without bytes, and under another message id than its own, which is then named;
/// under its own it is what stands behind the id. The fields of a request are read in the order in
/// which they are written.
pub proof fn law_packets_are_read(s: Seq<u8>)
    ensures
        s.len() == 0 ==> request_in(s) == Err::<(GetBlocksByRangeView, nat), RlpError>(
            RlpError::InputTooShort,
        ) && response_in(s) == Err::<(BlocksByRangeView, nat), RlpError>(RlpError::InputTooShort),
        s.len() > 0 && s[0] != 2 ==> request_in(s) == Err::<(GetBlocksByRangeView, nat), RlpError>(
            RlpError::Custom("Invalid message ID for GetBlocksByRangePacket"),
        ) && request_taken(s) == 1,
        s.len() > 0 && s[0] != 3 ==> response_in(s) == Err::<(BlocksByRangeView, nat), RlpError>(
            RlpError::Custom("Invalid message ID for BlocksByRangePacket"),
        ) && response_taken(s) == 1,
        request_in(s) matches Ok((q, n)) ==> s[0] == 2 && n <= s.len() && s.take(n as int)
            == seq![2u8] + rlp::list_item(
            rlp::number_item(q.request_id as nat) + rlp::number_item(q.start_block_height as nat)
                + rlp::string_item(q.start_block_hash) + rlp::number_item(q.count as nat),
        ) && q.start_block_hash.len() == 32,
{
    if let Ok((q, n)) = request_in(s) {
        let t = s.skip(1);
        rlp::law_record_canonical(t, request_kinds(), 4);
        let (ps, m) = rlp::record_at(t, request_kinds(), 4)->Ok_0;
        assert forall|i: int| 0 <= i < 4 && i != 2 implies num::be_bytes(
            (num::be_value(#[trigger] ps[i]) as u64) as nat,
        ) == ps[i] by {
            assert(rlp::fault(request_kinds()[i], ps[i]) is None);
            num::lemma_bytes_of_value(ps[i]);
            num::lemma_word_ranges();
            num::lemma_value_bound(ps[i]);
            num::lemma_byte_range_grows(ps[i].len(), 8);
        }
        assert(rlp::fault(request_kinds()[2], ps[2]) is None);
        reveal_with_fuel(rlp::items_from, 5);
        assert(rlp::items_from(ps, 0) =~= rlp::number_item(q.request_id as nat) + rlp::number_item(
            q.start_block_height as nat,
        ) + rlp::string_item(q.start_block_hash) + rlp::number_item(q.count as nat));
        assert(s.take(n as int) =~= seq![2u8] + t.take(m as int));
    }
}

} // verus!
