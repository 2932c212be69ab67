use alloy_primitives::{hex, FixedBytes, U256 as AlloyU256};
use alloy_rlp::{Decodable, Encodable};
use bsc_node::node::block_codec::{
    judge_body, put_block, put_block_header, put_blocks, take_block, take_block_header, take_blocks,
};
use bsc_node::node::primitives::{is_zero_hash, BscBlock, BscBlockBody, Header};
use bsc_node::num::{read_be, u256_to_u128, write_be, U256};
use bsc_node::rlp::{
    put_header, put_list, put_string, put_u64, take_header, take_payload, ItemHeader,
    RlpError,
};

fn to_alloy(h: &Header) -> alloy_consensus::Header {
    alloy_consensus::Header {
        parent_hash: FixedBytes(h.parent_hash),
        ommers_hash: FixedBytes(h.ommers_hash),
        beneficiary: h.beneficiary.into(),
        state_root: FixedBytes(h.state_root),
        transactions_root: FixedBytes(h.transactions_root),
        receipts_root: FixedBytes(h.receipts_root),
        logs_bloom: h.logs_bloom.into(),
        difficulty: AlloyU256::from_be_bytes(h.difficulty.be),
        number: h.number,
        gas_limit: h.gas_limit,
        gas_used: h.gas_used,
        timestamp: h.timestamp,
        extra_data: h.extra_data.clone().into(),
        mix_hash: FixedBytes(h.mix_hash),
        nonce: FixedBytes(h.nonce),
        base_fee_per_gas: h.base_fee_per_gas,
        withdrawals_root: h.withdrawals_root.map(FixedBytes),
        blob_gas_used: h.blob_gas_used,
        excess_blob_gas: h.excess_blob_gas,
        parent_beacon_block_root: h.parent_beacon_block_root.map(FixedBytes),
        requests_hash: h.requests_hash.map(FixedBytes),
    }
}

/// A header with every field set apart, and the first `forks` of the later ones.
fn header(forks: usize) -> Header {
    Header {
        parent_hash: [1; 32],
        ommers_hash: [2; 32],
        beneficiary: [3; 20],
        state_root: [4; 32],
        transactions_root: [5; 32],
        receipts_root: [6; 32],
        logs_bloom: [7; 256],
        difficulty: U256::from_be_slice(&[9, 0, 8]),
        number: 0,
        gas_limit: 127,
        gas_used: 128,
        timestamp: u64::MAX,
        extra_data: vec![0xee; 97],
        mix_hash: [10; 32],
        nonce: [11; 8],
        base_fee_per_gas: if forks > 0 { Some(0) } else { None },
        withdrawals_root: if forks > 1 { Some([12; 32]) } else { None },
        blob_gas_used: if forks > 2 { Some(131072) } else { None },
        excess_blob_gas: if forks > 3 { Some(1) } else { None },
        parent_beacon_block_root: if forks > 4 { Some([13; 32]) } else { None },
        requests_hash: if forks > 5 { Some([14; 32]) } else { None },
    }
}

fn encoded(h: &Header) -> Vec<u8> {
    let mut out = Vec::new();
    put_block_header(&mut out, h);
    out
}

#[test]
fn default_header_is_the_usual_one() {
    assert_eq!(to_alloy(&Header::default()), alloy_consensus::Header::default());
    assert_eq!(
        Header::default().hash_slow(),
        alloy_consensus::Header::default().hash_slow().0
    );
}

#[test]
fn hash_depends_on_the_fields() {
    let a = header(6);
    let mut b = a.clone();
    assert_eq!(a.hash_slow(), b.hash_slow());
    assert_eq!(a.hash_slow(), to_alloy(&a).hash_slow().0);
    b.nonce[7] = 0;
    assert_ne!(a.hash_slow(), b.hash_slow());
    assert_eq!(b.hash_slow(), to_alloy(&b).hash_slow().0);
}

#[test]
fn headers_are_written_as_usual() {
    for forks in 0..7 {
        let h = header(forks);
        let mut expected = Vec::new();
        Encodable::encode(&to_alloy(&h), &mut expected);
        assert_eq!(encoded(&h), expected);
    }
    let mut gap = header(1);
    gap.base_fee_per_gas = None;
    gap.requests_hash = Some([14; 32]);
    let mut expected = Vec::new();
    Encodable::encode(&to_alloy(&gap), &mut expected);
    assert_eq!(encoded(&gap), expected);
}

#[test]
fn headers_are_read_back() {
    for forks in 0..7 {
        let h = header(forks);
        let mut bytes = encoded(&h);
        let n = bytes.len();
        bytes.extend_from_slice(&[1, 2, 3]);
        assert_eq!(take_block_header(&bytes), Ok((h, n)));
    }
}

#[test]
fn header_with_a_gap_is_not_read_back() {
    let mut gap = header(0);
    gap.requests_hash = Some([14; 32]);
    let bytes = encoded(&gap);
    assert_eq!(take_block_header(&bytes), Err(RlpError::Overflow));
    assert_eq!(
        alloy_consensus::Header::decode(&mut bytes.as_slice()),
        Err(alloy_rlp::Error::Overflow)
    );
}

fn same_verdict(bytes: &[u8]) {
    let mut rest = bytes;
    let theirs = alloy_consensus::Header::decode(&mut rest);
    match (take_block_header(bytes), theirs) {
        (Ok((h, n)), Ok(expected)) => {
            assert_eq!(to_alloy(&h), expected);
            assert_eq!(n, bytes.len() - rest.len());
        }
        (Err(e), Err(expected)) => assert_eq!(format!("{e:?}"), format!("{expected:?}")),
        (ours, theirs) => panic!("{ours:?} but {theirs:?}"),
    }
}

#[test]
fn changed_headers_are_read_or_refused_as_usual() {
    for forks in [0, 3, 6] {
        let bytes = encoded(&header(forks));
        for i in 0..bytes.len() {
            for b in [0x00, 0x01, 0x7f, 0x80, 0x81, 0xa0, 0xb7, 0xb8, 0xb9, 0xbf, 0xc0, 0xf7, 0xf8, 0xff] {
                let mut changed = bytes.clone();
                changed[i] = b;
                same_verdict(&changed);
            }
            same_verdict(&bytes[..i]);
        }
    }
}

/// A legacy transaction in its network form, signed for chain one.
fn legacy() -> Vec<u8> {
    hex::decode("f86c098504a817c800825208943535353535353535353535353535353535353535880de0b6b3a76400008025a028ef61340bd939bc2195fe537567866003e1a15d3c71ff63e1590620aa636276a067cbe9d8997f761aecb703304b3800ccf555c9f3dc64214b297fb1966a3b6d83").unwrap()
}

/// A transaction with a fee cap in its network form.
fn typed() -> Vec<u8> {
    alloy_rlp::encode(hex::decode("02f872018307910d808507204d2cb1827d0094388c818ca8b9251b393131c08a736a67ccb19297880320d04823e2701c80c001a0cf024f4815304df2867a1a74e9d2707b6abda0337d2d54a4438d453f4160f190a07ac0e6b3bc9395b5b9c8b9e6d77204a236577a5b18467b9175c01de4faa208d9").unwrap().as_slice())
}

/// A body with these transactions and no ommers.
fn body_of(transactions: &[Vec<u8>]) -> Vec<u8> {
    let mut items = Vec::new();
    put_list(&mut items, &transactions.concat());
    items.push(0xc0);
    items
}

#[test]
fn changed_transactions_are_read_or_refused_as_usual() {
    for tx in [legacy(), typed()] {
        for i in 0..tx.len() {
            for b in [0x00, 0x01, 0x03, 0x7f, 0x80, 0x81, 0xa0, 0xb8, 0xc0, 0xf8, 0xff] {
                let mut other = tx.clone();
                other[i] = b;
                let body = BscBlockBody { items: body_of(&[tx.clone(), other]) };
                let mut bytes = Vec::new();
                put_block(&mut bytes, &BscBlock { header: header(1), body });
                let theirs = alloy_consensus::Block::<
                    alloy_consensus::EthereumTxEnvelope<alloy_consensus::TxEip4844>,
                >::decode(&mut bytes.as_slice());
                match (take_block(&bytes), theirs) {
                    (Ok(_), Ok(block)) => assert_eq!(block.body.transactions.len(), 2),
                    (Err(e), Err(expected)) => {
                        assert_eq!(format!("{e:?}"), format!("{expected:?}"))
                    }
                    (ours, theirs) => panic!("{ours:?} but {theirs:?}"),
                }
            }
        }
    }
}

#[test]
fn verdict_on_the_transactions_comes_first() {
    let bad = Err(RlpError::UnexpectedLength);
    assert_eq!(judge_body(bad, &[0x80]), bad);
    assert_eq!(judge_body(bad, &[0xc0]), bad);
    assert_eq!(judge_body(Ok(()), &[0xc0]), Ok(()));
    assert_eq!(judge_body(Ok(()), &[0x80]), Err(RlpError::UnexpectedString));
    assert_eq!(judge_body(Ok(()), &[]), Err(RlpError::InputTooShort));
}

#[test]
fn blocks_are_read_back() {
    let blocks = vec![
        BscBlock { header: header(2), body: BscBlockBody::default() },
        BscBlock { header: header(6), body: BscBlockBody { items: body_of(&[legacy(), typed()]) } },
        BscBlock { header: header(0), body: BscBlockBody { items: vec![0xc0, 0xc0] } },
    ];
    let mut one = Vec::new();
    put_block(&mut one, &blocks[1]);
    let n = one.len();
    one.push(0);
    assert_eq!(take_block(&one), Ok((blocks[1].clone(), n)));
    let mut list = Vec::new();
    put_blocks(&mut list, &blocks);
    let (payload, n) = take_payload(&list, true).unwrap();
    assert_eq!(n, list.len());
    assert_eq!(take_blocks(payload), Ok(blocks));
    assert_eq!(take_blocks(&[]), Ok(Vec::new()));
    assert_eq!(take_blocks(&[0xc0]), Err(RlpError::InputTooShort));
    assert_eq!(take_blocks(&[0x05]), Err(RlpError::UnexpectedString));
}

#[test]
fn bodies_that_are_none_are_refused() {
    let read = |items: Vec<u8>| {
        let mut bytes = Vec::new();
        put_block(&mut bytes, &BscBlock { header: header(1), body: BscBlockBody { items } });
        let one = take_block(&bytes).map(|(b, _)| b.body.items);
        assert_eq!(take_blocks(&bytes).map(|_| ()), one.clone().map(|_| ()));
        one
    };
    assert_eq!(read(vec![]), Err(RlpError::InputTooShort));
    assert_eq!(read(vec![0xff, 0xff]), Err(RlpError::InputTooShort));
    assert_eq!(read(vec![0xc0]), Err(RlpError::InputTooShort));
    assert_eq!(read(vec![0x80, 0xc0]), Err(RlpError::UnexpectedString));
    assert_eq!(read(vec![0xc0, 0x80]), Err(RlpError::UnexpectedString));
    assert_eq!(read(vec![0xc1, 0xb8, 0xc0]), Err(RlpError::InputTooShort));
    assert_eq!(read(vec![0xc2, 0x81, 0x05, 0xc0]), Err(RlpError::NonCanonicalSingleByte));
    assert_eq!(read(vec![0xc0, 0xc1, 0x05]), Err(RlpError::UnexpectedString));
    assert_eq!(read(vec![0xc0, 0xc0, 0xc2]), Err(RlpError::InputTooShort));
    assert_eq!(read(vec![0xc1, 0x05, 0xc0]), Err(RlpError::Custom("unexpected tx type")));
    assert_eq!(read(vec![0xc1, 0xc0, 0xc0]), Err(RlpError::Custom("Unexpected type flag")));
    assert_eq!(read(body_of(&[vec![0x05]])), Err(RlpError::Custom("unexpected tx type")));
    for items in [
        vec![0xc0, 0xc0],
        vec![0xc0, 0xc0, 0xc0],
        vec![0xc0, 0xc0, 0xc2, 0x05, 0x06, 0x05],
        body_of(&[legacy()]),
        body_of(&[typed(), legacy(), typed()]),
    ] {
        assert_eq!(read(items.clone()), Ok(items));
    }
    let mut ommers = Vec::new();
    put_block_header(&mut ommers, &header(0));
    put_block_header(&mut ommers, &header(6));
    let mut items = vec![0xc0];
    put_list(&mut items, &ommers);
    assert_eq!(read(items.clone()), Ok(items));
}

#[test]
fn items_are_written_as_usual() {
    for n in [0u64, 1, 127, 128, 255, 256, 65535, 1 << 32, u64::MAX] {
        let mut ours = Vec::new();
        put_u64(&mut ours, n);
        assert_eq!(ours, alloy_rlp::encode(n));
        let mut wide = Vec::new();
        put_string(&mut wide, U256::from_u64(n).trimmed());
        assert_eq!(wide, alloy_rlp::encode(AlloyU256::from(n)));
        assert_eq!(read_be(&write_be(n)), n);
    }
    let mut wide = Vec::new();
    put_string(&mut wide, U256 { be: [0xff; 32] }.trimmed());
    assert_eq!(wide, alloy_rlp::encode(AlloyU256::MAX));
    for len in [0usize, 1, 55, 56, 255, 256, 70000] {
        let payload = vec![0x80u8; len];
        let mut ours = Vec::new();
        put_string(&mut ours, &payload);
        assert_eq!(ours, alloy_rlp::encode(payload.as_slice()));
        let mut list = Vec::new();
        put_list(&mut list, &payload);
        let mut expected = Vec::new();
        alloy_rlp::Header { list: true, payload_length: len }.encode(&mut expected);
        expected.extend_from_slice(&payload);
        assert_eq!(list, expected);
        let mut head = Vec::new();
        put_header(&mut head, true, len);
        assert_eq!(
            take_header(&list),
            Ok(ItemHeader { list: true, header_len: head.len(), payload_len: len })
        );
    }
    let mut single = Vec::new();
    put_string(&mut single, &[0x7f]);
    assert_eq!(single, [0x7f]);
}

#[test]
fn long_lengths_are_checked() {
    assert_eq!(take_header(&[0xb9, 0x00, 0x40]), Err(RlpError::LeadingZero));
    assert_eq!(take_header(&[0xb9, 0x01]), Err(RlpError::InputTooShort));
    assert_eq!(take_header(&[0xf8, 0x37]), Err(RlpError::NonCanonicalSize));
    assert_eq!(take_header(&[0xff; 9]), Err(RlpError::InputTooShort));
    assert_eq!(take_payload(&[0xc0], false), Err(RlpError::UnexpectedList));
    assert_eq!(take_payload(&[0x80], true), Err(RlpError::UnexpectedString));
}

#[test]
fn wide_numbers_are_narrowed_if_they_fit() {
    let mut be = [0u8; 32];
    be[16..].copy_from_slice(&[0xff; 16]);
    assert_eq!(u256_to_u128(U256 { be }), Some(u128::MAX));
    be[15] = 1;
    assert_eq!(u256_to_u128(U256 { be }), None);
    assert_eq!(u256_to_u128(U256::from_u64(20)), Some(20));
    assert_eq!(u256_to_u128(U256 { be: [0; 32] }), Some(0));
}

#[test]
fn zero_hash_is_known() {
    assert!(is_zero_hash(&[0; 32]));
    let mut h = [0; 32];
    h[31] = 1;
    assert!(!is_zero_hash(&h));
}
