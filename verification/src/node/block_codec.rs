//! Headers and blocks as bytes.
//!
//! A header is a record of fifteen fields and up to six more, which later forks added one after the
//! other. A block is a list of its header and the items of its body.
use crate::node::primitives;
use crate::node::primitives::{BscBlock, BscBlockBody, BscBlockView, Header, HeaderView};
use crate::num;
use crate::num::{read_be, write_be, U256};
use crate::rlp;
use crate::rlp::{
    into_array, put_list, put_record, put_slice, take_header, take_payload, take_record, FieldKind,
    RlpError,
};
use alloy_consensus::{EthereumTxEnvelope, TxEip4844};
use alloy_rlp::{Decodable, Error};
use vstd::prelude::*;

verus! {

/// How many fields every header has.
pub const HEADER_FIELDS: usize = 15;

/// The fields of a header, in order.
pub open spec fn header_kinds() -> Seq<FieldKind> {
    seq![
        FieldKind::Fixed(32),
        FieldKind::Fixed(32),
        FieldKind::Fixed(20),
        FieldKind::Fixed(32),
        FieldKind::Fixed(32),
        FieldKind::Fixed(32),
        FieldKind::Fixed(256),
        FieldKind::Wide,
        FieldKind::Word,
        FieldKind::Word,
        FieldKind::Word,
        FieldKind::Word,
        FieldKind::Data,
        FieldKind::Fixed(32),
        FieldKind::Fixed(8),
        FieldKind::Word,
        FieldKind::Fixed(32),
        FieldKind::Word,
        FieldKind::Word,
        FieldKind::Fixed(32),
        FieldKind::Fixed(32),
    ]
}

/// The payload of an optional number, if it is there.
pub open spec fn opt_number(o: Option<u64>) -> Seq<Seq<u8>> {
    match o {
        Some(n) => seq![num::be_bytes(n as nat)],
        None => Seq::empty(),
    }
}

/// The payload of an optional byte string, if it is there.
pub open spec fn opt_string(o: Option<Seq<u8>>) -> Seq<Seq<u8>> {
    match o {
        Some(s) => seq![s],
        None => Seq::empty(),
    }
}

/// The payloads of the fields that every header has.
pub open spec fn common_payloads(h: HeaderView) -> Seq<Seq<u8>> {
    seq![
        h.parent_hash,
        h.ommers_hash,
        h.beneficiary,
        h.state_root,
        h.transactions_root,
        h.receipts_root,
        h.logs_bloom,
        num::be_bytes(num::be_value(h.difficulty)),
        num::be_bytes(h.number as nat),
        num::be_bytes(h.gas_limit as nat),
        num::be_bytes(h.gas_used as nat),
        num::be_bytes(h.timestamp as nat),
        h.extra_data,
        h.mix_hash,
        h.nonce,
    ]
}

/// The payloads of the fields that later forks added. One that is missing leaves no gap.
pub open spec fn fork_payloads(h: HeaderView) -> Seq<Seq<u8>> {
    opt_number(h.base_fee_per_gas) + opt_string(h.withdrawals_root) + opt_number(h.blob_gas_used)
        + opt_number(h.excess_blob_gas) + opt_string(h.parent_beacon_block_root) + opt_string(
        h.requests_hash,
    )
}

/// The payloads of a header's fields.
pub open spec fn header_payloads(h: HeaderView) -> Seq<Seq<u8>> {
    common_payloads(h) + fork_payloads(h)
}

/// A header as an item.
pub open spec fn header_item(h: HeaderView) -> Seq<u8> {
    rlp::record_item(header_payloads(h))
}

/// The number in field `i`, if the record has that many fields.
pub open spec fn number_in(ps: Seq<Seq<u8>>, i: int) -> Option<u64> {
    if i < ps.len() {
        Some(num::be_value(ps[i]) as u64)
    } else {
        None
    }
}

/// The byte string in field `i`, if the record has that many fields.
pub open spec fn string_in(ps: Seq<Seq<u8>>, i: int) -> Option<Seq<u8>> {
    if i < ps.len() {
        Some(ps[i])
    } else {
        None
    }
}

/// The header with these payloads.
pub open spec fn header_of(ps: Seq<Seq<u8>>) -> HeaderView {
    HeaderView {
        parent_hash: ps[0],
        ommers_hash: ps[1],
        beneficiary: ps[2],
        state_root: ps[3],
        transactions_root: ps[4],
        receipts_root: ps[5],
        logs_bloom: ps[6],
        difficulty: num::left_padded(ps[7], 32),
        number: num::be_value(ps[8]) as u64,
        gas_limit: num::be_value(ps[9]) as u64,
        gas_used: num::be_value(ps[10]) as u64,
        timestamp: num::be_value(ps[11]) as u64,
        extra_data: ps[12],
        mix_hash: ps[13],
        nonce: ps[14],
        base_fee_per_gas: number_in(ps, 15),
        withdrawals_root: string_in(ps, 16),
        blob_gas_used: number_in(ps, 17),
        excess_blob_gas: number_in(ps, 18),
        parent_beacon_block_root: string_in(ps, 19),
        requests_hash: string_in(ps, 20),
    }
}

/// The header at the front of `s`, and how many bytes it takes.
#[verifier::opaque]
pub open spec fn header_in(s: Seq<u8>) -> Result<(HeaderView, nat), RlpError> {
    match rlp::record_at(s, header_kinds(), HEADER_FIELDS as nat) {
        Err(e) => Err(e),
        Ok((ps, n)) => Ok((header_of(ps), n)),
    }
}

/// Whether no field is missing in front of one that is there.
pub open spec fn no_gaps(h: HeaderView) -> bool {
    &&& h.withdrawals_root is Some ==> h.base_fee_per_gas is Some
    &&& h.blob_gas_used is Some ==> h.withdrawals_root is Some
    &&& h.excess_blob_gas is Some ==> h.blob_gas_used is Some
    &&& h.parent_beacon_block_root is Some ==> h.excess_blob_gas is Some
    &&& h.requests_hash is Some ==> h.parent_beacon_block_root is Some
}

/// What keeps `s` from being a run of whole items, if anything.
pub open spec fn run_fault(s: Seq<u8>) -> Option<RlpError>
    decreases s.len(),
{
    if s.len() == 0 {
        None
    } else {
        match rlp::header_at(s) {
            Err(e) => Some(e),
            Ok(h) => {
                proof {
                    rlp::law_header_canonical(s);
                }
                run_fault(s.skip(h.header_len + h.payload_len))
            },
        }
    }
}

/// What is left of these bytes once a signed transaction in its network form was read from the front
/// of them, or the error: what `alloy_rlp::Decodable::decode` of an Ethereum transaction envelope
/// makes of them.
pub uninterp spec fn behind_transaction(s: Seq<u8>) -> Result<Seq<u8>, RlpError>;

/// Calls `alloy_rlp::Decodable::decode` of an Ethereum transaction envelope, which reads the network
/// form of a signed transaction: what it leaves of the bytes, or its error. The call reads nothing
/// but the bytes, and where it succeeds it takes at least one from the front of them.
#[verifier::external_body]
fn decode_transaction(s: &[u8]) -> (r: Result<&[u8], RlpError>)
    ensures
        match r {
            Ok(rest) => behind_transaction(s@) == Ok::<Seq<u8>, RlpError>(rest@) && rest@.len()
                < s@.len() && rest@ == s@.skip(s@.len() - rest@.len()),
            Err(e) => behind_transaction(s@) == Err::<Seq<u8>, RlpError>(e),
        },
{
    let mut rest = s;
    match EthereumTxEnvelope::<TxEip4844>::decode(&mut rest) {
        Ok(_) => Ok(rest),
        Err(Error::Overflow) => Err(RlpError::Overflow),
        Err(Error::LeadingZero) => Err(RlpError::LeadingZero),
        Err(Error::InputTooShort) => Err(RlpError::InputTooShort),
        Err(Error::NonCanonicalSingleByte) => Err(RlpError::NonCanonicalSingleByte),
        Err(Error::NonCanonicalSize) => Err(RlpError::NonCanonicalSize),
        Err(Error::UnexpectedLength) => Err(RlpError::UnexpectedLength),
        Err(Error::UnexpectedString) => Err(RlpError::UnexpectedString),
        Err(Error::UnexpectedList) => Err(RlpError::UnexpectedList),
        Err(Error::ListLengthMismatch { expected, got }) =>
            Err(RlpError::ListLengthMismatch { expected, got }),
        Err(Error::Custom(text)) => Err(RlpError::Custom(text)),
    }
}

/// What keeps `s` from being a run of signed transactions, if anything. Reading one always takes some
/// of the bytes.
pub open spec fn transactions_fault(s: Seq<u8>) -> Option<RlpError>
    decreases s.len(),
{
    if s.len() == 0 {
        None
    } else {
        match behind_transaction(s) {
            Err(e) => Some(e),
            Ok(rest) => if rest.len() < s.len() {
                transactions_fault(rest)
            } else {
                Some(RlpError::UnexpectedLength)
            },
        }
    }
}

/// What keeps `s` from being a run of headers, if anything.
pub open spec fn headers_fault(s: Seq<u8>) -> Option<RlpError>
    decreases s.len(),
{
    if s.len() == 0 {
        None
    } else {
        match header_in(s) {
            Err(e) => Some(e),
            Ok((_, n)) => {
                proof {
                    lemma_header_len(s);
                }
                headers_fault(s.skip(n as int))
            },
        }
    }
}

/// What keeps bytes from being the body of a block, if anything, from what there is against its
/// transactions and from the bytes behind them: the list of its ommers, which are headers, and then
/// whatever whole items.
pub open spec fn body_verdict(transactions: Option<RlpError>, tail: Seq<u8>) -> Option<RlpError> {
    match transactions {
        Some(e) => Some(e),
        None => match rlp::payload_at(tail, true) {
            Err(e) => Some(e),
            Ok((ommers, n)) => match headers_fault(ommers) {
                Some(e) => Some(e),
                None => run_fault(tail.skip(n as int)),
            },
        },
    }
}

/// What keeps `s` from being the body of a block, if anything: the list of its transactions, the list
/// of its ommers, and whatever follows.
pub open spec fn body_fault(s: Seq<u8>) -> Option<RlpError> {
    match rlp::payload_at(s, true) {
        Err(e) => Some(e),
        Ok((transactions, n)) => body_verdict(
            transactions_fault(transactions),
            s.skip(n as int),
        ),
    }
}

/// A header takes at least one byte, and no more than there are.
pub proof fn lemma_header_len(s: Seq<u8>)
    ensures
        header_in(s) matches Ok((h, n)) ==> 0 < n <= s.len(),
{
    reveal(header_in);
    rlp::law_record_canonical(s, header_kinds(), HEADER_FIELDS as nat);
}

/// A block as an item.
#[verifier::opaque]
pub open spec fn block_item(b: BscBlockView) -> Seq<u8> {
    rlp::list_item(header_item(b.header) + b.body)
}

/// The block at the front of `s`, and how many bytes it takes. What follows the header in its list
/// is its body, and has to be one.
#[verifier::opaque]
pub open spec fn block_in(s: Seq<u8>) -> Result<(BscBlockView, nat), RlpError> {
    match rlp::payload_at(s, true) {
        Err(e) => Err(e),
        Ok((p, n)) => match header_in(p) {
            Err(e) => Err(e),
            Ok((header, m)) => match body_fault(p.skip(m as int)) {
                Some(e) => Err(e),
                None => Ok((BscBlockView { header, body: p.skip(m as int) }, n)),
            },
        },
    }
}

/// The items of these blocks, one behind the other.
pub open spec fn block_items(bs: Seq<BscBlockView>) -> Seq<u8>
    decreases bs.len(),
{
    if bs.len() == 0 {
        Seq::empty()
    } else {
        block_item(bs[0]) + block_items(bs.skip(1))
    }
}

/// All the blocks in `s`, which holds nothing else.
pub open spec fn blocks_in(s: Seq<u8>) -> Result<Seq<BscBlockView>, RlpError>
    decreases s.len(),
{
    if s.len() == 0 {
        Ok(Seq::empty())
    } else {
        match block_in(s) {
            Err(e) => Err(e),
            Ok((b, n)) => {
                proof {
                    lemma_block_len(s);
                }
                match blocks_in(s.skip(n as int)) {
                    Err(e) => Err(e),
                    Ok(bs) => Ok(seq![b] + bs),
                }
            },
        }
    }
}

/// A block takes at least one byte, and no more than there are.
pub proof fn lemma_block_len(s: Seq<u8>)
    ensures
        block_in(s) matches Ok((b, n)) ==> 0 < n <= s.len(),
{
    reveal(block_in);
    rlp::law_header_canonical(s);
}

// ---- laws ----

proof fn lemma_header_payloads(h: Header)
    requires
        no_gaps(h@),
    ensures
        rlp::record_fields(header_payloads(h@), header_kinds(), HEADER_FIELDS as nat),
        header_of(header_payloads(h@)) == h@,
{
    let ps = header_payloads(h@);
    let kinds = header_kinds();
    rlp::lemma_wide_payload(h.difficulty);
    rlp::lemma_word_payload(h.number);
    rlp::lemma_word_payload(h.gas_limit);
    rlp::lemma_word_payload(h.gas_used);
    rlp::lemma_word_payload(h.timestamp);
    if let Some(n) = h.base_fee_per_gas {
        rlp::lemma_word_payload(n);
    }
    if let Some(n) = h.blob_gas_used {
        rlp::lemma_word_payload(n);
    }
    if let Some(n) = h.excess_blob_gas {
        rlp::lemma_word_payload(n);
    }
    assert forall|i: int| 0 <= i < ps.len() implies #[trigger] rlp::fault(kinds[i], ps[i]) is None by {
        assert(i < 15 ==> ps[i] == common_payloads(h@)[i]);
        assert(i >= 15 ==> ps[i] == fork_payloads(h@)[i - 15]);
    }
    assert(header_of(ps) =~= h@);
}

/// A header is read back, whatever follows, unless a field is missing in front of one that is there.
pub proof fn law_header_read_back(h: Header, rest: Seq<u8>)
    requires
        no_gaps(h@),
        header_item(h@).len() <= usize::MAX - 9,
    ensures
        header_in(header_item(h@) + rest) == Ok::<(HeaderView, nat), RlpError>(
            (h@, header_item(h@).len()),
        ),
{
    reveal(header_in);
    lemma_header_payloads(h);
    rlp::law_record_read_back(header_payloads(h@), header_kinds(), HEADER_FIELDS as nat, rest);
}

/// A header is accepted only in its one encoding.
pub proof fn law_header_canonical(s: Seq<u8>)
    ensures
        header_in(s) matches Ok((h, n)) ==> n <= s.len() && s.take(n as int) == header_item(h)
            && no_gaps(h),
{
    reveal(header_in);
    rlp::law_record_canonical(s, header_kinds(), HEADER_FIELDS as nat);
    if let Ok((ps, n)) = rlp::record_at(s, header_kinds(), HEADER_FIELDS as nat) {
        let h = header_of(ps);
        assert forall|i: int| 0 <= i < ps.len() && header_kinds()[i] == FieldKind::Word implies
            num::be_bytes((num::be_value(ps[i]) as u64) as nat) == #[trigger] ps[i] by {
            assert(rlp::fault(header_kinds()[i], ps[i]) is None);
            num::lemma_bytes_of_value(ps[i]);
            num::lemma_word_ranges();
            num::lemma_value_bound(ps[i]);
            num::lemma_byte_range_grows(ps[i].len(), 8);
        }
        assert(rlp::fault(header_kinds()[7], ps[7]) is None);
        num::lemma_bytes_of_value(ps[7]);
        num::lemma_padding_value((32 - ps[7].len()) as nat, ps[7]);
        assert(header_payloads(h) =~= ps);
    }
}

/// Whether a block is one that can be read: its header has no gaps and its body is one.
pub open spec fn readable(b: BscBlockView) -> bool {
    no_gaps(b.header) && body_fault(b.body) is None
}

/// A block of a header alone, with an empty body, can be read if the header has no gaps.
pub proof fn law_header_block_is_readable(header: HeaderView)
    requires
        no_gaps(header),
    ensures
        readable(primitives::header_block(header)),
{
    let s = seq![0xc0u8, 0xc0u8];
    reveal(rlp::header_at);
    assert(s.skip(1) =~= seq![0xc0u8]);
    assert(s.skip(1).skip(1) =~= Seq::<u8>::empty());
    assert(s.subrange(1, 1) =~= Seq::<u8>::empty());
    assert(s.skip(1).subrange(1, 1) =~= Seq::<u8>::empty());
}

/// Only blocks that can be read are read.
pub proof fn law_read_block_is_readable(s: Seq<u8>)
    ensures
        block_in(s) matches Ok((b, n)) ==> readable(b),
{
    reveal(block_in);
    if let Ok((p, n)) = rlp::payload_at(s, true) {
        law_header_canonical(p);
    }
}

/// A block is read back, whatever follows, if it can be read at all.
pub proof fn law_block_read_back(b: BscBlock, rest: Seq<u8>)
    requires
        readable(b@),
        block_item(b@).len() <= usize::MAX - 9,
    ensures
        block_in(block_item(b@) + rest) == Ok::<(BscBlockView, nat), RlpError>(
            (b@, block_item(b@).len()),
        ),
{
    reveal(block_in);
    reveal(block_item);
    let item = header_item(b@.header);
    let payload = item + b@.body;
    rlp::law_list_read_back(payload, rest);
    law_header_read_back(b.header, b@.body);
    assert(payload.skip(item.len() as int) =~= b@.body);
}

/// Blocks are read back, if they can be read at all.
pub proof fn law_blocks_read_back(bs: Seq<BscBlock>)
    requires
        forall|i: int| 0 <= i < bs.len() ==> readable((#[trigger] bs[i])@),
        block_items(primitives::block_views(bs)).len() <= usize::MAX - 9,
    ensures
        blocks_in(block_items(primitives::block_views(bs))) == Ok::<Seq<BscBlockView>, RlpError>(
            primitives::block_views(bs),
        ),
    decreases bs.len(),
{
    let views = primitives::block_views(bs);
    if bs.len() == 0 {
        assert(views =~= Seq::empty());
    } else {
        let later = bs.skip(1);
        let rest = block_items(primitives::block_views(later));
        let item = block_item(views[0]);
        assert(views.skip(1) =~= primitives::block_views(later));
        assert forall|i: int| 0 <= i < later.len() implies readable((#[trigger] later[i])@) by {
            assert(later[i] == bs[i + 1]);
        }
        assert(readable(bs[0]@));
        law_blocks_read_back(later);
        law_block_read_back(bs[0], rest);
        lemma_block_len(item + rest);
        assert((item + rest).skip(item.len() as int) =~= rest);
        assert(seq![views[0]] + views.skip(1) =~= views);
    }
}

// ---- writing ----

fn push_number(ps: &mut Vec<Vec<u8>>, o: Option<u64>)
    ensures
        rlp::payloads(final(ps)@) == rlp::payloads(old(ps)@) + opt_number(o),
{
    match o {
        Some(n) => {
            ps.push(write_be(n));
        },
        None => {},
    }
    assert(rlp::payloads(ps@) =~= rlp::payloads(old(ps)@) + opt_number(o));
}

fn push_string(ps: &mut Vec<Vec<u8>>, s: &[u8])
    ensures
        rlp::payloads(final(ps)@) == rlp::payloads(old(ps)@).push(s@),
{
    let mut bytes: Vec<u8> = Vec::new();
    put_slice(&mut bytes, s);
    assert(bytes@ =~= s@);
    ps.push(bytes);
    assert(rlp::payloads(ps@) =~= rlp::payloads(old(ps)@).push(s@));
}

fn push_hash(ps: &mut Vec<Vec<u8>>, o: &Option<[u8; 32]>)
    ensures
        rlp::payloads(final(ps)@) == rlp::payloads(old(ps)@) + opt_string(
            primitives::opt_bytes(*o),
        ),
{
    match o {
        Some(s) => {
            push_string(ps, s.as_slice());
        },
        None => {},
    }
    assert(rlp::payloads(ps@) =~= rlp::payloads(old(ps)@) + opt_string(primitives::opt_bytes(*o)));
}

/// The payloads of the fields that every header has, in order.
fn common_fields(h: &Header) -> (ps: Vec<Vec<u8>>)
    ensures
        rlp::payloads(ps@) == common_payloads(h@),
{
    let mut ps: Vec<Vec<u8>> = Vec::new();
    push_string(&mut ps, h.parent_hash.as_slice());
    push_string(&mut ps, h.ommers_hash.as_slice());
    push_string(&mut ps, h.beneficiary.as_slice());
    push_string(&mut ps, h.state_root.as_slice());
    push_string(&mut ps, h.transactions_root.as_slice());
    push_string(&mut ps, h.receipts_root.as_slice());
    push_string(&mut ps, h.logs_bloom.as_slice());
    push_string(&mut ps, h.difficulty.trimmed());
    push_string(&mut ps, write_be(h.number).as_slice());
    push_string(&mut ps, write_be(h.gas_limit).as_slice());
    push_string(&mut ps, write_be(h.gas_used).as_slice());
    push_string(&mut ps, write_be(h.timestamp).as_slice());
    push_string(&mut ps, h.extra_data.as_slice());
    push_string(&mut ps, h.mix_hash.as_slice());
    push_string(&mut ps, h.nonce.as_slice());
    assert(rlp::payloads(ps@) =~= common_payloads(h@));
    ps
}

/// Appends a header.
pub fn put_block_header(out: &mut Vec<u8>, h: &Header)
    ensures
        final(out)@ == old(out)@ + header_item(h@),
{
    let mut ps = common_fields(h);
    push_number(&mut ps, h.base_fee_per_gas);
    push_hash(&mut ps, &h.withdrawals_root);
    push_number(&mut ps, h.blob_gas_used);
    push_number(&mut ps, h.excess_blob_gas);
    push_hash(&mut ps, &h.parent_beacon_block_root);
    push_hash(&mut ps, &h.requests_hash);
    proof {
        let c = common_payloads(h@);
        let a1 = opt_number(h@.base_fee_per_gas);
        let a2 = opt_string(h@.withdrawals_root);
        let a3 = opt_number(h@.blob_gas_used);
        let a4 = opt_number(h@.excess_blob_gas);
        let a5 = opt_string(h@.parent_beacon_block_root);
        let a6 = opt_string(h@.requests_hash);
        assert(c + a1 + a2 + a3 + a4 + a5 + a6 =~= c + (a1 + a2 + a3 + a4 + a5 + a6));
    }
    put_record(out, &ps);
}

/// Appends a block.
pub fn put_block(out: &mut Vec<u8>, b: &BscBlock)
    ensures
        final(out)@ == old(out)@ + block_item(b@),
{
    let mut payload: Vec<u8> = Vec::new();
    put_block_header(&mut payload, &b.header);
    put_slice(&mut payload, b.body.items.as_slice());
    reveal(block_item);
    assert(payload@ =~= header_item(b@.header) + b@.body);
    put_list(out, payload.as_slice());
}

/// Appends a list of blocks.
pub fn put_blocks(out: &mut Vec<u8>, bs: &Vec<BscBlock>)
    ensures
        final(out)@ == old(out)@ + rlp::list_item(block_items(primitives::block_views(bs@))),
{
    let mut payload: Vec<u8> = Vec::new();
    let mut i: usize = 0;
    let ghost views = primitives::block_views(bs@);
    assert(payload@ + block_items(views) =~= block_items(views));
    assert(views.skip(0) =~= views);
    while i < bs.len()
        invariant
            i <= bs@.len(),
            views == primitives::block_views(bs@),
            payload@ + block_items(views.skip(i as int)) == block_items(views),
        decreases bs@.len() - i,
    {
        let ghost before = payload@;
        put_block(&mut payload, &bs[i]);
        proof {
            let here = views.skip(i as int);
            assert(here[0] == bs@[i as int]@);
            assert(here.skip(1) =~= views.skip(i + 1));
            assert(payload@ + block_items(views.skip(i + 1)) =~= before + block_items(here));
        }
        i += 1;
    }
    assert(views.skip(i as int) =~= Seq::empty());
    assert(payload@ =~= block_items(views));
    put_list(out, payload.as_slice());
}

// ---- reading ----

fn field_kinds() -> (r: Vec<FieldKind>)
    ensures
        r@ == header_kinds(),
{
    let r = vec![
        FieldKind::Fixed(32),
        FieldKind::Fixed(32),
        FieldKind::Fixed(20),
        FieldKind::Fixed(32),
        FieldKind::Fixed(32),
        FieldKind::Fixed(32),
        FieldKind::Fixed(256),
        FieldKind::Wide,
        FieldKind::Word,
        FieldKind::Word,
        FieldKind::Word,
        FieldKind::Word,
        FieldKind::Data,
        FieldKind::Fixed(32),
        FieldKind::Fixed(8),
        FieldKind::Word,
        FieldKind::Fixed(32),
        FieldKind::Word,
        FieldKind::Word,
        FieldKind::Fixed(32),
        FieldKind::Fixed(32),
    ];
    assert(r@ =~= header_kinds());
    r
}

fn number_field(ps: &Vec<&[u8]>, i: usize) -> (r: Option<u64>)
    requires
        i < ps@.len() ==> ps@[i as int]@.len() <= 8,
    ensures
        r == number_in(rlp::contents(ps@), i as int),
{
    if i < ps.len() {
        let n = read_be(ps[i]);
        assert(rlp::contents(ps@)[i as int] == ps@[i as int]@);
        Some(n)
    } else {
        None
    }
}

fn hash_field(ps: &Vec<&[u8]>, i: usize) -> (r: Option<[u8; 32]>)
    requires
        i < ps@.len() ==> ps@[i as int]@.len() == 32,
    ensures
        primitives::opt_bytes(r) == string_in(rlp::contents(ps@), i as int),
{
    if i < ps.len() {
        assert(rlp::contents(ps@)[i as int] == ps@[i as int]@);
        Some(into_array([0u8; 32], ps[i]))
    } else {
        None
    }
}

/// Reads the header at the front of `s`, and how many bytes it takes.
pub fn take_block_header(s: &[u8]) -> (r: Result<(Header, usize), RlpError>)
    ensures
        match r {
            Ok((h, n)) => header_in(s@) == Ok::<(HeaderView, nat), RlpError>((h@, n as nat)) && n
                <= s@.len(),
            Err(e) => header_in(s@) == Err::<(HeaderView, nat), RlpError>(e),
        },
{
    reveal(header_in);
    let kinds = field_kinds();
    let (ps, n) = take_record(s, kinds.as_slice(), HEADER_FIELDS)?;
    proof {
        rlp::law_record_canonical(s@, header_kinds(), HEADER_FIELDS as nat);
        let c = rlp::contents(ps@);
        assert forall|i: int| 0 <= i < ps@.len() implies rlp::fault(
            header_kinds()[i],
            #[trigger] ps@[i]@,
        ) is None by {
            assert(c[i] == ps@[i]@);
            assert(rlp::fault(header_kinds()[i], c[i]) is None);
        }
    }
    let mut extra_data: Vec<u8> = Vec::new();
    put_slice(&mut extra_data, ps[12]);
    let h = Header {
        parent_hash: into_array([0u8; 32], ps[0]),
        ommers_hash: into_array([0u8; 32], ps[1]),
        beneficiary: into_array([0u8; 20], ps[2]),
        state_root: into_array([0u8; 32], ps[3]),
        transactions_root: into_array([0u8; 32], ps[4]),
        receipts_root: into_array([0u8; 32], ps[5]),
        logs_bloom: into_array([0u8; 256], ps[6]),
        difficulty: U256::from_be_slice(ps[7]),
        number: read_be(ps[8]),
        gas_limit: read_be(ps[9]),
        gas_used: read_be(ps[10]),
        timestamp: read_be(ps[11]),
        extra_data,
        mix_hash: into_array([0u8; 32], ps[13]),
        nonce: into_array([0u8; 8], ps[14]),
        base_fee_per_gas: number_field(&ps, 15),
        withdrawals_root: hash_field(&ps, 16),
        blob_gas_used: number_field(&ps, 17),
        excess_blob_gas: number_field(&ps, 18),
        parent_beacon_block_root: hash_field(&ps, 19),
        requests_hash: hash_field(&ps, 20),
    };
    assert(h@ =~= header_of(rlp::contents(ps@)));
    Ok((h, n))
}

/// Checks that `s` is a run of whole items.
fn check_run(s: &[u8]) -> (r: Result<(), RlpError>)
    ensures
        match r {
            Ok(()) => run_fault(s@) is None,
            Err(e) => run_fault(s@) == Some(e),
        },
{
    let mut at: usize = 0;
    assert(s@.skip(0) =~= s@);
    while at < s.len()
        invariant
            at <= s@.len(),
            run_fault(s@) == run_fault(s@.skip(at as int)),
        decreases s@.len() - at,
    {
        let here = vstd::slice::slice_subrange(s, at, s.len());
        assert(here@ =~= s@.skip(at as int));
        let h = take_header(here)?;
        proof {
            rlp::law_header_canonical(here@);
            assert(here@.len() == s.len() - at);
            assert(here@.skip(h.header_len + h.payload_len) =~= s@.skip(
                at + h.header_len + h.payload_len,
            ));
        }
        at += h.header_len + h.payload_len;
    }
    Ok(())
}

/// Checks that `s` is a run of signed transactions.
fn check_transactions(s: &[u8]) -> (r: Result<(), RlpError>)
    ensures
        match r {
            Ok(()) => transactions_fault(s@) is None,
            Err(e) => transactions_fault(s@) == Some(e),
        },
{
    let mut rest = s;
    while rest.len() > 0
        invariant
            transactions_fault(s@) == transactions_fault(rest@),
        decreases rest@.len(),
    {
        rest = decode_transaction(rest)?;
    }
    Ok(())
}

/// Checks that `s` is a run of headers.
fn check_headers(s: &[u8]) -> (r: Result<(), RlpError>)
    ensures
        match r {
            Ok(()) => headers_fault(s@) is None,
            Err(e) => headers_fault(s@) == Some(e),
        },
{
    let mut at: usize = 0;
    assert(s@.skip(0) =~= s@);
    while at < s.len()
        invariant
            at <= s@.len(),
            headers_fault(s@) == headers_fault(s@.skip(at as int)),
        decreases s@.len() - at,
    {
        let here = vstd::slice::slice_subrange(s, at, s.len());
        assert(here@ =~= s@.skip(at as int));
        let (_, n) = take_block_header(here)?;
        proof {
            lemma_header_len(here@);
            assert(here@.skip(n as int) =~= s@.skip(at + n));
        }
        at += n;
    }
    Ok(())
}

/// Checks a body from what there is against its transactions, and from the bytes behind them.
pub fn judge_body(transactions: Result<(), RlpError>, tail: &[u8]) -> (r: Result<(), RlpError>)
    ensures
        match r {
            Ok(()) => body_verdict(transactions.err(), tail@) is None,
            Err(e) => body_verdict(transactions.err(), tail@) == Some(e),
        },
{
    match transactions {
        Ok(()) => {},
        Err(e) => {
            return Err(e);
        },
    }
    let (ommers, n) = take_payload(tail, true)?;
    check_headers(ommers)?;
    let rest = vstd::slice::slice_subrange(tail, n, tail.len());
    assert(rest@ =~= tail@.skip(n as int));
    check_run(rest)
}

/// Checks that `s` is the body of a block.
fn check_body(s: &[u8]) -> (r: Result<(), RlpError>)
    ensures
        match r {
            Ok(()) => body_fault(s@) is None,
            Err(e) => body_fault(s@) == Some(e),
        },
{
    let (transactions, n) = take_payload(s, true)?;
    let tail = vstd::slice::slice_subrange(s, n, s.len());
    assert(tail@ =~= s@.skip(n as int));
    judge_body(check_transactions(transactions), tail)
}

/// Reads the block at the front of `s`, and how many bytes it takes.
pub fn take_block(s: &[u8]) -> (r: Result<(BscBlock, usize), RlpError>)
    ensures
        match r {
            Ok((b, n)) => block_in(s@) == Ok::<(BscBlockView, nat), RlpError>((b@, n as nat)) && 0
                < n <= s@.len(),
            Err(e) => block_in(s@) == Err::<(BscBlockView, nat), RlpError>(e),
        },
{
    reveal(block_in);
    let (p, n) = take_payload(s, true)?;
    let (header, m) = take_block_header(p)?;
    let body = vstd::slice::slice_subrange(p, m, p.len());
    assert(body@ =~= p@.skip(m as int));
    check_body(body)?;
    let mut items: Vec<u8> = Vec::new();
    put_slice(&mut items, body);
    assert(items@ =~= body@);
    proof {
        lemma_block_len(s@);
    }
    Ok((BscBlock { header, body: BscBlockBody { items } }, n))
}

/// `r` with `bs` in front.
spec fn behind(
    bs: Seq<BscBlockView>,
    r: Result<Seq<BscBlockView>, RlpError>,
) -> Result<Seq<BscBlockView>, RlpError> {
    match r {
        Err(e) => Err(e),
        Ok(later) => Ok(bs + later),
    }
}

/// Reads all the blocks in `s`, which holds nothing else.
pub fn take_blocks(s: &[u8]) -> (r: Result<Vec<BscBlock>, RlpError>)
    ensures
        match r {
            Ok(bs) => blocks_in(s@) == Ok::<Seq<BscBlockView>, RlpError>(
                primitives::block_views(bs@),
            ),
            Err(e) => blocks_in(s@) == Err::<Seq<BscBlockView>, RlpError>(e),
        },
{
    let mut bs: Vec<BscBlock> = Vec::new();
    let mut at: usize = 0;
    proof {
        assert(s@.skip(0) =~= s@);
        if let Ok(later) = blocks_in(s@) {
            assert(primitives::block_views(bs@) + later =~= later);
        }
    }
    while at < s.len()
        invariant
            at <= s@.len(),
            blocks_in(s@) == behind(primitives::block_views(bs@), blocks_in(s@.skip(at as int))),
        decreases s@.len() - at,
    {
        let here = vstd::slice::slice_subrange(s, at, s.len());
        assert(here@ =~= s@.skip(at as int));
        let (b, n) = take_block(here)?;
        proof {
            assert(here@.skip(n as int) =~= s@.skip(at + n));
            let before = primitives::block_views(bs@);
            assert(primitives::block_views(bs@.push(b)) =~= before.push(b@));
            if let Ok(later) = blocks_in(s@.skip(at + n)) {
                assert(before + (seq![b@] + later) =~= before.push(b@) + later);
            }
        }
        bs.push(b);
        at += n;
    }
    assert(primitives::block_views(bs@) + Seq::<BscBlockView>::empty() =~= primitives::block_views(
        bs@,
    ));
    Ok(bs)
}

// ---- the forms of headers and blocks ----

/// A header is written as a list of its fifteen common fields, in this order, followed by those of the
/// later fields that are there, in the order in which forks added them.
pub proof fn law_header_form(h: Header)
    ensures
        header_item(h@) == rlp::list_item(rlp::items_from(header_payloads(h@), 0)),
        header_payloads(h@).len() >= 15,
        header_payloads(h@)[0] == h.parent_hash@,
        header_payloads(h@)[1] == h.ommers_hash@,
        header_payloads(h@)[2] == h.beneficiary@,
        header_payloads(h@)[3] == h.state_root@,
        header_payloads(h@)[4] == h.transactions_root@,
        header_payloads(h@)[5] == h.receipts_root@,
        header_payloads(h@)[6] == h.logs_bloom@,
        header_payloads(h@)[7] == num::be_bytes(num::be_value(h.difficulty.be@)),
        header_payloads(h@)[8] == num::be_bytes(h.number as nat),
        header_payloads(h@)[9] == num::be_bytes(h.gas_limit as nat),
        header_payloads(h@)[10] == num::be_bytes(h.gas_used as nat),
        header_payloads(h@)[11] == num::be_bytes(h.timestamp as nat),
        header_payloads(h@)[12] == h.extra_data@,
        header_payloads(h@)[13] == h.mix_hash@,
        header_payloads(h@)[14] == h.nonce@,
        h.base_fee_per_gas is None && h.withdrawals_root is None && h.blob_gas_used is None
            && h.excess_blob_gas is None && h.parent_beacon_block_root is None
            && h.requests_hash is None ==> header_payloads(h@).len() == 15,
        h.base_fee_per_gas is Some ==> header_payloads(h@)[15] == num::be_bytes(
            h.base_fee_per_gas->0 as nat,
        ),
        h.base_fee_per_gas is Some && h.withdrawals_root is Some ==> header_payloads(h@)[16]
            == h.withdrawals_root->0@,
        h.base_fee_per_gas is Some && h.withdrawals_root is Some && h.blob_gas_used is Some
            ==> header_payloads(h@)[17] == num::be_bytes(h.blob_gas_used->0 as nat),
        h.base_fee_per_gas is Some && h.withdrawals_root is Some && h.blob_gas_used is Some
            && h.excess_blob_gas is Some ==> header_payloads(h@)[18] == num::be_bytes(
            h.excess_blob_gas->0 as nat,
        ),
        h.base_fee_per_gas is Some && h.withdrawals_root is Some && h.blob_gas_used is Some
            && h.excess_blob_gas is Some && h.parent_beacon_block_root is Some ==> header_payloads(
            h@,
        )[19] == h.parent_beacon_block_root->0@,
        h.base_fee_per_gas is Some && h.withdrawals_root is Some && h.blob_gas_used is Some
            && h.excess_blob_gas is Some && h.parent_beacon_block_root is Some
            && h.requests_hash is Some ==> header_payloads(h@)[20] == h.requests_hash->0@
            && header_payloads(h@).len() == 21,
{
}

/// A block is written as the list of its header and the items of its body, and blocks one behind the
/// other.
pub proof fn law_block_form(b: BscBlock, later: Seq<BscBlockView>)
    ensures
        block_item(b@) == rlp::list_item(header_item(b.header@) + b.body.items@),
        block_items(Seq::<BscBlockView>::empty()) == Seq::<u8>::empty(),
        block_items(seq![b@] + later) == block_item(b@) + block_items(later),
{
    reveal(block_item);
    let all = seq![b@] + later;
    assert(all[0] == b@);
    assert(all.skip(1) =~= later);
}

/// Where the transactions of a body are refused, so is the body, for the same reason. Otherwise the
/// list behind them has to be there, and nothing may follow it that is no whole item.
pub proof fn law_body_verdict(e: RlpError, tail: Seq<u8>)
    ensures
        body_verdict(Some(e), tail) == Some(e),
        rlp::payload_at(tail, true) matches Err(f) ==> body_verdict(None, tail) == Some(f),
        rlp::payload_at(tail, true) matches Ok((ommers, n)) ==> (body_verdict(None, tail) is None
            <==> headers_fault(ommers) is None && run_fault(tail.skip(n as int)) is None),
        run_fault(Seq::<u8>::empty()) is None,
        headers_fault(Seq::<u8>::empty()) is None,
        transactions_fault(Seq::<u8>::empty()) is None,
{
}

} // verus!
