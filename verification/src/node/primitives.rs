//! Block headers, blocks and the identifiers they are made of.
use crate::num::U256;
use alloy_primitives::{FixedBytes, U256 as AlloyU256};
use vstd::prelude::*;

verus! {

/// A 256-bit hash.
pub type B256 = [u8; 32];

/// A 160-bit account address.
pub type Address = [u8; 20];

/// A peer's 512-bit network identity.
pub type PeerId = [u8; 64];

/// The all-zero hash, which names no block.
pub open spec fn zero_hash() -> Seq<u8> {
    Seq::new(32, |i: int| 0u8)
}

/// The contents of an optional array.
pub open spec fn opt_bytes<const N: usize>(o: Option<[u8; N]>) -> Option<Seq<u8>> {
    match o {
        Some(a) => Some(a@),
        None => None,
    }
}

/// Two arrays with the same bytes are the same array.
pub proof fn lemma_array_from_bytes<const N: usize>(a: [u8; N], b: [u8; N])
    requires
        a@ == b@,
    ensures
        a == b,
{
    assert forall|i: int| 0 <= i < N implies a[i] == b[i] by {
        assert(a@[i] == b@[i]);
    }
    assert(a =~= b);
}

/// Whether two arrays hold the same bytes.
pub fn same_bytes<const N: usize>(a: &[u8; N], b: &[u8; N]) -> (r: bool)
    ensures
        r == (a@ == b@),
        r == (*a == *b),
{
    let mut i: usize = 0;
    while i < N
        invariant
            i <= N,
            forall|j: int| 0 <= j < i ==> a@[j] == b@[j],
        decreases N - i,
    {
        if a[i] != b[i] {
            assert(a@[i as int] != b@[i as int]);
            return false;
        }
        i += 1;
    }
    proof {
        assert(a@ =~= b@);
        lemma_array_from_bytes(*a, *b);
    }
    true
}

/// Whether a hash is all zero.
pub fn is_zero_hash(h: &B256) -> (r: bool)
    ensures
        r == (h@ == zero_hash()),
{
    let zero = [0u8; 32];
    assert(zero@ =~= zero_hash());
    same_bytes(h, &zero)
}

/// Copies a byte string.
pub fn copy_bytes(v: &Vec<u8>) -> (r: Vec<u8>)
    ensures
        r@ == v@,
{
    let r = v.clone();
    assert(r@ =~= v@);
    r
}

/// A block header.
#[derive(Debug, PartialEq, Eq, Hash)]
pub struct Header {
    pub parent_hash: B256,
    pub ommers_hash: B256,
    pub beneficiary: Address,
    pub state_root: B256,
    pub transactions_root: B256,
    pub receipts_root: B256,
    pub logs_bloom: [u8; 256],
    pub difficulty: U256,
    pub number: u64,
    pub gas_limit: u64,
    pub gas_used: u64,
    pub timestamp: u64,
    pub extra_data: Vec<u8>,
    pub mix_hash: B256,
    pub nonce: [u8; 8],
    pub base_fee_per_gas: Option<u64>,
    pub withdrawals_root: Option<B256>,
    pub blob_gas_used: Option<u64>,
    pub excess_blob_gas: Option<u64>,
    pub parent_beacon_block_root: Option<B256>,
    pub requests_hash: Option<B256>,
}

/// What a [`Header`] holds, with every byte string as a sequence.
#[verifier::ext_equal]
pub struct HeaderView {
    pub parent_hash: Seq<u8>,
    pub ommers_hash: Seq<u8>,
    pub beneficiary: Seq<u8>,
    pub state_root: Seq<u8>,
    pub transactions_root: Seq<u8>,
    pub receipts_root: Seq<u8>,
    pub logs_bloom: Seq<u8>,
    pub difficulty: Seq<u8>,
    pub number: u64,
    pub gas_limit: u64,
    pub gas_used: u64,
    pub timestamp: u64,
    pub extra_data: Seq<u8>,
    pub mix_hash: Seq<u8>,
    pub nonce: Seq<u8>,
    pub base_fee_per_gas: Option<u64>,
    pub withdrawals_root: Option<Seq<u8>>,
    pub blob_gas_used: Option<u64>,
    pub excess_blob_gas: Option<u64>,
    pub parent_beacon_block_root: Option<Seq<u8>>,
    pub requests_hash: Option<Seq<u8>>,
}

impl View for Header {
    type V = HeaderView;

    open spec fn view(&self) -> HeaderView {
        HeaderView {
            parent_hash: self.parent_hash@,
            ommers_hash: self.ommers_hash@,
            beneficiary: self.beneficiary@,
            state_root: self.state_root@,
            transactions_root: self.transactions_root@,
            receipts_root: self.receipts_root@,
            logs_bloom: self.logs_bloom@,
            difficulty: self.difficulty.be@,
            number: self.number,
            gas_limit: self.gas_limit,
            gas_used: self.gas_used,
            timestamp: self.timestamp,
            extra_data: self.extra_data@,
            mix_hash: self.mix_hash@,
            nonce: self.nonce@,
            base_fee_per_gas: self.base_fee_per_gas,
            withdrawals_root: opt_bytes(self.withdrawals_root),
            blob_gas_used: self.blob_gas_used,
            excess_blob_gas: self.excess_blob_gas,
            parent_beacon_block_root: opt_bytes(self.parent_beacon_block_root),
            requests_hash: opt_bytes(self.requests_hash),
        }
    }
}

impl Clone for Header {
    fn clone(&self) -> (r: Self)
        ensures
            r@ == self@,
    {
        Header {
            parent_hash: self.parent_hash,
            ommers_hash: self.ommers_hash,
            beneficiary: self.beneficiary,
            state_root: self.state_root,
            transactions_root: self.transactions_root,
            receipts_root: self.receipts_root,
            logs_bloom: self.logs_bloom,
            difficulty: self.difficulty,
            number: self.number,
            gas_limit: self.gas_limit,
            gas_used: self.gas_used,
            timestamp: self.timestamp,
            extra_data: copy_bytes(&self.extra_data),
            mix_hash: self.mix_hash,
            nonce: self.nonce,
            base_fee_per_gas: self.base_fee_per_gas,
            withdrawals_root: self.withdrawals_root,
            blob_gas_used: self.blob_gas_used,
            excess_blob_gas: self.excess_blob_gas,
            parent_beacon_block_root: self.parent_beacon_block_root,
            requests_hash: self.requests_hash,
        }
    }
}

/// The root of a trie without entries.
pub fn empty_root_hash() -> (r: B256)
    ensures
        r@ == empty_root(),
{
    let r = [
        0x56, 0xe8, 0x1f, 0x17, 0x1b, 0xcc, 0x55, 0xa6,
        0xff, 0x83, 0x45, 0xe6, 0x92, 0xc0, 0xf8, 0x6e,
        0x5b, 0x48, 0xe0, 0x1b, 0x99, 0x6c, 0xad, 0xc0,
        0x01, 0x62, 0x2f, 0xb5, 0xe3, 0x63, 0xb4, 0x21,
    ];
    assert(r@ =~= empty_root());
    r
}

/// The root of a trie without entries.
pub open spec fn empty_root() -> Seq<u8> {
    seq![
        0x56, 0xe8, 0x1f, 0x17, 0x1b, 0xcc, 0x55, 0xa6,
        0xff, 0x83, 0x45, 0xe6, 0x92, 0xc0, 0xf8, 0x6e,
        0x5b, 0x48, 0xe0, 0x1b, 0x99, 0x6c, 0xad, 0xc0,
        0x01, 0x62, 0x2f, 0xb5, 0xe3, 0x63, 0xb4, 0x21,
    ]
}

/// The hash of a list without ommers.
pub fn empty_ommers_hash() -> (r: B256)
    ensures
        r@ == empty_ommers(),
{
    let r = [
        0x1d, 0xcc, 0x4d, 0xe8, 0xde, 0xc7, 0x5d, 0x7a,
        0xab, 0x85, 0xb5, 0x67, 0xb6, 0xcc, 0xd4, 0x1a,
        0xd3, 0x12, 0x45, 0x1b, 0x94, 0x8a, 0x74, 0x13,
        0xf0, 0xa1, 0x42, 0xfd, 0x40, 0xd4, 0x93, 0x47,
    ];
    assert(r@ =~= empty_ommers());
    r
}

/// The hash of a list without ommers.
pub open spec fn empty_ommers() -> Seq<u8> {
    seq![
        0x1d, 0xcc, 0x4d, 0xe8, 0xde, 0xc7, 0x5d, 0x7a,
        0xab, 0x85, 0xb5, 0x67, 0xb6, 0xcc, 0xd4, 0x1a,
        0xd3, 0x12, 0x45, 0x1b, 0x94, 0x8a, 0x74, 0x13,
        0xf0, 0xa1, 0x42, 0xfd, 0x40, 0xd4, 0x93, 0x47,
    ]
}

impl Default for Header {
    /// The header of an empty block without a parent.
    fn default() -> (r: Self)
        ensures
            r@.parent_hash == zero_hash(),
            r@.ommers_hash == empty_ommers(),
            r@.beneficiary == Seq::new(20, |i: int| 0u8),
            r@.state_root == empty_root(),
            r@.transactions_root == empty_root(),
            r@.receipts_root == empty_root(),
            r@.logs_bloom == Seq::new(256, |i: int| 0u8),
            r@.difficulty == Seq::new(32, |i: int| 0u8),
            r@.number == 0,
            r@.gas_limit == 0,
            r@.gas_used == 0,
            r@.timestamp == 0,
            r@.extra_data == Seq::<u8>::empty(),
            r@.mix_hash == zero_hash(),
            r@.nonce == Seq::new(8, |i: int| 0u8),
            r@.base_fee_per_gas is None,
            r@.withdrawals_root is None,
            r@.blob_gas_used is None,
            r@.excess_blob_gas is None,
            r@.parent_beacon_block_root is None,
            r@.requests_hash is None,
    {
        let r = Header {
            parent_hash: [0u8; 32],
            ommers_hash: empty_ommers_hash(),
            beneficiary: [0u8; 20],
            state_root: empty_root_hash(),
            transactions_root: empty_root_hash(),
            receipts_root: empty_root_hash(),
            logs_bloom: [0u8; 256],
            difficulty: U256 { be: [0u8; 32] },
            number: 0,
            gas_limit: 0,
            gas_used: 0,
            timestamp: 0,
            extra_data: Vec::new(),
            mix_hash: [0u8; 32],
            nonce: [0u8; 8],
            base_fee_per_gas: None,
            withdrawals_root: None,
            blob_gas_used: None,
            excess_blob_gas: None,
            parent_beacon_block_root: None,
            requests_hash: None,
        };
        assert(r@.parent_hash =~= zero_hash());
        assert(r@.beneficiary =~= Seq::new(20, |i: int| 0u8));
        assert(r@.logs_bloom =~= Seq::new(256, |i: int| 0u8));
        assert(r@.difficulty =~= Seq::new(32, |i: int| 0u8));
        assert(r@.extra_data =~= Seq::<u8>::empty());
        assert(r@.mix_hash =~= zero_hash());
        assert(r@.nonce =~= Seq::new(8, |i: int| 0u8));
        r
    }
}

/// The Keccak-256 hash of a header's encoding, by which a block is known: what
/// `alloy_consensus::Header::hash_slow` returns for a header with these fields.
pub uninterp spec fn header_hash(h: HeaderView) -> Seq<u8>;

/// Calls `alloy_consensus::Header::hash_slow` on a header with the same fields. The call encodes
/// the header and hashes the bytes, so its result is a function of the fields alone; which
/// function, only its name [`header_hash`] says.
#[verifier::external_body]
fn consensus_hash(h: Header) -> (r: B256)
    ensures
        r@ == header_hash(h@),
{
    let Header { number, gas_limit, gas_used, timestamp, .. } = h;
    let Header { base_fee_per_gas, blob_gas_used, excess_blob_gas, .. } = h;
    alloy_consensus::Header {
        number, gas_limit, gas_used, timestamp, base_fee_per_gas, blob_gas_used, excess_blob_gas,
        parent_hash: FixedBytes(h.parent_hash), ommers_hash: FixedBytes(h.ommers_hash),
        beneficiary: h.beneficiary.into(), state_root: FixedBytes(h.state_root),
        transactions_root: FixedBytes(h.transactions_root), nonce: FixedBytes(h.nonce),
        receipts_root: FixedBytes(h.receipts_root), logs_bloom: h.logs_bloom.into(),
        difficulty: AlloyU256::from_be_bytes(h.difficulty.be), extra_data: h.extra_data.into(),
        mix_hash: FixedBytes(h.mix_hash), withdrawals_root: h.withdrawals_root.map(FixedBytes),
        parent_beacon_block_root: h.parent_beacon_block_root.map(FixedBytes),
        requests_hash: h.requests_hash.map(FixedBytes),
    }.hash_slow().0
}

impl Header {
    /// The hash by which the block of this header is known.
    pub fn hash_slow(&self) -> (r: B256)
        ensures
            r@ == header_hash(self@),
    {
        consensus_hash(self.clone())
    }
}

/// The part of a block behind its header: the encoded items of the transactions, the ommers and
/// whatever optional parts follow, as they stand in the block's list.
#[derive(Debug, PartialEq, Eq, Hash)]
pub struct BscBlockBody {
    pub items: Vec<u8>,
}

impl Default for BscBlockBody {
    /// A body without transactions and ommers: two empty lists.
    fn default() -> (r: Self)
        ensures
            r.items@ == seq![0xc0u8, 0xc0u8],
    {
        let items: Vec<u8> = vec![0xc0, 0xc0];
        assert(items@ =~= seq![0xc0u8, 0xc0u8]);
        BscBlockBody { items }
    }
}

/// A block.
#[derive(Debug, PartialEq, Eq, Hash)]
pub struct BscBlock {
    pub header: Header,
    pub body: BscBlockBody,
}

/// What a [`BscBlock`] holds.
#[verifier::ext_equal]
pub struct BscBlockView {
    pub header: HeaderView,
    pub body: Seq<u8>,
}

impl View for BscBlock {
    type V = BscBlockView;

    open spec fn view(&self) -> BscBlockView {
        BscBlockView { header: self.header@, body: self.body.items@ }
    }
}

impl Clone for BscBlock {
    fn clone(&self) -> (r: Self)
        ensures
            r@ == self@,
    {
        BscBlock {
            header: self.header.clone(),
            body: BscBlockBody { items: copy_bytes(&self.body.items) },
        }
    }
}

/// The block of a header with a body without transactions and ommers.
pub open spec fn header_block(header: HeaderView) -> BscBlockView {
    BscBlockView { header, body: seq![0xc0u8, 0xc0u8] }
}

/// What an optional block holds.
pub open spec fn opt_block(o: Option<BscBlock>) -> Option<BscBlockView> {
    match o {
        Some(b) => Some(b@),
        None => None,
    }
}

/// What the blocks of a vector hold.
pub open spec fn block_views(blocks: Seq<BscBlock>) -> Seq<BscBlockView> {
    blocks.map_values(|b: BscBlock| b@)
}

/// The zero hash has thirty-two bytes, all of them zero, and no other hash does.
pub proof fn law_zero_hash(h: B256)
    ensures
        zero_hash().len() == 32,
        h@ == zero_hash() <==> forall|i: int| 0 <= i < 32 ==> (#[trigger] h@[i]) == 0,
{
    if forall|i: int| 0 <= i < 32 ==> (#[trigger] h@[i]) == 0 {
        assert(h@ =~= zero_hash());
    }
    if h@ == zero_hash() {
        assert forall|i: int| 0 <= i < 32 implies (#[trigger] h@[i]) == 0 by {
            assert(zero_hash()[i] == 0);
        }
    }
}

/// The block of a header alone has that header, and two empty lists as its body.
pub proof fn law_header_block(header: HeaderView)
    ensures
        header_block(header).header == header,
        header_block(header).body == seq![0xc0u8, 0xc0u8],
{
}

/// Two headers that hold the same have the same in each of their fields.
pub proof fn law_headers_hold_their_fields(a: Header, b: Header)
    requires
        a@ == b@,
    ensures
        a.parent_hash@ == b.parent_hash@,
        a.ommers_hash@ == b.ommers_hash@,
        a.beneficiary@ == b.beneficiary@,
        a.state_root@ == b.state_root@,
        a.transactions_root@ == b.transactions_root@,
        a.receipts_root@ == b.receipts_root@,
        a.logs_bloom@ == b.logs_bloom@,
        a.mix_hash@ == b.mix_hash@,
        a.nonce@ == b.nonce@,
        a.extra_data@ == b.extra_data@,
        a.difficulty.be@ == b.difficulty.be@,
        a.number == b.number,
        a.gas_limit == b.gas_limit,
        a.gas_used == b.gas_used,
        a.timestamp == b.timestamp,
        a.base_fee_per_gas == b.base_fee_per_gas,
        a.blob_gas_used == b.blob_gas_used,
        a.excess_blob_gas == b.excess_blob_gas,
        a.withdrawals_root is Some <==> b.withdrawals_root is Some,
        a.withdrawals_root is Some ==> a.withdrawals_root->0@ == b.withdrawals_root->0@,
        a.parent_beacon_block_root is Some <==> b.parent_beacon_block_root is Some,
        a.parent_beacon_block_root is Some ==> a.parent_beacon_block_root->0@ == b.parent_beacon_block_root->0@,
        a.requests_hash is Some <==> b.requests_hash is Some,
        a.requests_hash is Some ==> a.requests_hash->0@ == b.requests_hash->0@,
{
    assert(opt_bytes(a.withdrawals_root) == opt_bytes(b.withdrawals_root));
    assert(opt_bytes(a.parent_beacon_block_root) == opt_bytes(b.parent_beacon_block_root));
    assert(opt_bytes(a.requests_hash) == opt_bytes(b.requests_hash));
}

/// A block holds what its header holds, and the items of its body. A list of blocks holds what each of
/// them holds, in their order.
pub proof fn law_blocks_hold_their_parts(b: BscBlock, blocks: Seq<BscBlock>, i: int)
    ensures
        b@.header == b.header@,
        b@.body == b.body.items@,
        block_views(blocks).len() == blocks.len(),
        0 <= i < blocks.len() ==> block_views(blocks)[i] == blocks[i]@,
        opt_block(Some(b)) == Some(b@),
        opt_block(None) is None,
{
}

} // verus!
