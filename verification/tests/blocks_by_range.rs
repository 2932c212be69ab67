use alloy_rlp::{Decodable, Encodable};
use bsc_node::node::network::blocks_by_range::{
    build_blocks_by_range_response, BlocksByRangePacket, GetBlocksByRangePacket,
    MAX_REQUEST_RANGE_BLOCKS_COUNT,
};
use bsc_node::node::primitives::{BscBlock, BscBlockBody, Header};
use bsc_node::once_slot::OnceSlot;
use bsc_node::rlp::RlpError;
use bsc_node::shared::{
    cache_full_block, clear_body_cache, get_cached_block_by_hash,
    set_full_block_provider_from_closures, BodyCache, ClosureFullBlockProvider,
};

type FullByHash = Box<dyn Fn(&[u8; 32]) -> Option<BscBlock> + Send + Sync>;
type FullByNumber = Box<dyn Fn(u64) -> Option<BscBlock> + Send + Sync>;
type Full = ClosureFullBlockProvider<FullByHash, FullByNumber>;
type HeaderByHash = Box<dyn Fn(&[u8; 32]) -> Option<Header>>;
type HeaderByNumber = Box<dyn Fn(u64) -> Option<Header>>;

/// What the cache alone answers.
fn cached_response(cache: &mut BodyCache, req: &GetBlocksByRangePacket) -> BlocksByRangePacket {
    let full: OnceSlot<Full> = OnceSlot::new();
    let by_hash: OnceSlot<HeaderByHash> = OnceSlot::new();
    let by_number: OnceSlot<HeaderByNumber> = OnceSlot::new();
    build_blocks_by_range_response(cache, &full, &by_hash, &by_number, req)
}

/// A provider of these blocks.
fn full_blocks(blocks: Vec<BscBlock>) -> OnceSlot<Full> {
    let mut slot = OnceSlot::new();
    let same = blocks.clone();
    let by_hash: FullByHash =
        Box::new(move |hash| blocks.iter().find(|b| b.header.hash_slow() == *hash).cloned());
    let by_number: FullByNumber =
        Box::new(move |number| same.iter().find(|b| b.header.number == number).cloned());
    assert!(set_full_block_provider_from_closures(&mut slot, by_hash, by_number).is_ok());
    slot
}

/// The lookups of the headers of these blocks.
fn headers(blocks: Vec<BscBlock>) -> (OnceSlot<HeaderByHash>, OnceSlot<HeaderByNumber>) {
    let mut hashes: OnceSlot<HeaderByHash> = OnceSlot::new();
    let mut numbers: OnceSlot<HeaderByNumber> = OnceSlot::new();
    let same = blocks.clone();
    let by_hash: HeaderByHash = Box::new(move |hash| {
        blocks.iter().find(|b| b.header.hash_slow() == *hash).map(|b| b.header.clone())
    });
    let by_number: HeaderByNumber = Box::new(move |number| {
        same.iter().find(|b| b.header.number == number).map(|b| b.header.clone())
    });
    assert!(hashes.set(by_hash).is_ok());
    assert!(numbers.set(by_number).is_ok());
    (hashes, numbers)
}

/// A chain of `n` blocks whose bodies have a third list each, oldest first.
fn full_chain(n: u64) -> Vec<BscBlock> {
    let mut blocks: Vec<BscBlock> = Vec::new();
    for number in 0..n {
        let parent_hash = blocks.last().map_or([0; 32], |b| b.header.hash_slow());
        blocks.push(BscBlock {
            header: Header { number, parent_hash, ..Default::default() },
            body: BscBlockBody { items: vec![0xc0, 0xc0, 0xc0] },
        });
    }
    blocks
}

/// The block with its body left out.
fn bare(b: &BscBlock) -> BscBlock {
    BscBlock { header: b.header.clone(), body: BscBlockBody { items: vec![0xc0, 0xc0] } }
}

fn block(number: u64, parent_hash: [u8; 32]) -> BscBlock {
    BscBlock {
        header: Header { number, parent_hash, ..Default::default() },
        body: BscBlockBody::default(),
    }
}

/// A cache with a chain of `n` blocks, and their hashes, oldest first.
fn chain(n: u64) -> (BodyCache, Vec<[u8; 32]>) {
    let mut cache = BodyCache::default();
    let mut hashes = Vec::new();
    let mut parent = [0u8; 32];
    for number in 0..n {
        let b = block(number, parent);
        parent = b.header.hash_slow();
        hashes.push(parent);
        assert!(cache_full_block(&mut cache, b));
    }
    (cache, hashes)
}

fn request(start_block_height: u64, start_block_hash: [u8; 32], count: u64) -> GetBlocksByRangePacket {
    GetBlocksByRangePacket { request_id: 9, start_block_height, start_block_hash, count }
}

#[test]
fn test_get_blocks_by_range_codec_roundtrip() {
    let req = GetBlocksByRangePacket {
        request_id: 42,
        start_block_height: 123,
        start_block_hash: [1u8; 32],
        count: 5,
    };
    let mut bytes = Vec::new();
    req.encode(&mut bytes);
    let mut slice = bytes.as_slice();
    let dec = GetBlocksByRangePacket::decode(&mut slice).unwrap();
    assert_eq!(req, dec);

    let b = BscBlock { header: Header::default(), body: BscBlockBody::default() };
    let res = BlocksByRangePacket { request_id: 7, blocks: vec![b.clone()] };
    let mut bytes = Vec::new();
    res.encode(&mut bytes);
    let mut slice = bytes.as_slice();
    let dec = BlocksByRangePacket::decode(&mut slice).unwrap();
    assert_eq!(res.request_id, dec.request_id);
    assert_eq!(res.blocks.len(), dec.blocks.len());
    assert_eq!(res.blocks[0].header.hash_slow(), dec.blocks[0].header.hash_slow());
}

#[test]
fn test_build_blocks_by_range_uses_cache() {
    let mut cache = BodyCache::default();
    clear_body_cache(&mut cache);
    let parent_block = block(1, [0; 32]);
    let parent_hash = parent_block.header.hash_slow();
    let child_block = block(2, parent_hash);
    let child_hash = child_block.header.hash_slow();
    cache_full_block(&mut cache, parent_block.clone());
    cache_full_block(&mut cache, child_block.clone());
    let req = GetBlocksByRangePacket {
        request_id: 1,
        start_block_height: 0,
        start_block_hash: child_hash,
        count: 2,
    };
    let resp = cached_response(&mut cache, &req);
    assert_eq!(resp.request_id, 1);
    assert_eq!(resp.blocks.len(), 2);
    assert_eq!(resp.blocks[0].header.hash_slow(), child_hash);
    assert_eq!(resp.blocks[1].header.hash_slow(), parent_hash);
}

#[test]
fn test_build_blocks_by_range_truncates_when_parent_missing() {
    let mut cache = BodyCache::default();
    clear_body_cache(&mut cache);
    let parent_block = BscBlock { header: Header::default(), body: BscBlockBody::default() };
    let parent_hash = parent_block.header.hash_slow();
    let child_block = BscBlock {
        header: Header { parent_hash, ..Default::default() },
        body: BscBlockBody::default(),
    };
    let child_hash = child_block.header.hash_slow();
    cache_full_block(&mut cache, child_block.clone());
    let req = GetBlocksByRangePacket {
        request_id: 2,
        start_block_height: 0,
        start_block_hash: child_hash,
        count: 2,
    };
    let resp = cached_response(&mut cache, &req);
    assert_eq!(resp.request_id, 2);
    assert_eq!(resp.blocks.len(), 1);
    assert_eq!(resp.blocks[0].header.hash_slow(), child_hash);
}

#[test]
fn request_has_the_expected_bytes() {
    let req = GetBlocksByRangePacket {
        request_id: 42,
        start_block_height: 0,
        start_block_hash: [1u8; 32],
        count: 300,
    };
    let mut bytes = vec![0xff];
    req.encode(&mut bytes);
    let mut expected = vec![0xff, 0x02, 0xe6, 0x2a, 0x80, 0xa0];
    expected.extend_from_slice(&[1u8; 32]);
    expected.extend_from_slice(&[0x82, 0x01, 0x2c]);
    assert_eq!(bytes, expected);
}

#[test]
fn request_agrees_with_the_fields_encoded_alone() {
    for (id, height, count) in [(0, 1, 127), (128, 255, 256), (u64::MAX, 1 << 40, 64)] {
        let hash = alloy_primitives::B256::from([0xab; 32]);
        let mut payload = Vec::new();
        Encodable::encode(&(id as u64), &mut payload);
        Encodable::encode(&(height as u64), &mut payload);
        Encodable::encode(&hash, &mut payload);
        Encodable::encode(&(count as u64), &mut payload);
        let mut expected = vec![2];
        alloy_rlp::Header { list: true, payload_length: payload.len() }.encode(&mut expected);
        expected.extend_from_slice(&payload);
        let req = GetBlocksByRangePacket {
            request_id: id,
            start_block_height: height,
            start_block_hash: hash.0,
            count,
        };
        let mut bytes = Vec::new();
        req.encode(&mut bytes);
        assert_eq!(bytes, expected);
        let mut rest = bytes.as_slice();
        assert_eq!(GetBlocksByRangePacket::decode(&mut rest), Ok(req));
        assert!(rest.is_empty());
    }
}

#[test]
fn response_agrees_with_the_header_encoded_alone() {
    let header = alloy_consensus::Header { number: 77, ..Default::default() };
    let mut block_payload = Vec::new();
    Encodable::encode(&header, &mut block_payload);
    block_payload.extend_from_slice(&[0xc0, 0xc0]);
    let mut blocks = Vec::new();
    alloy_rlp::Header { list: true, payload_length: block_payload.len() }.encode(&mut blocks);
    blocks.extend_from_slice(&block_payload);
    let mut payload = Vec::new();
    Encodable::encode(&7u64, &mut payload);
    alloy_rlp::Header { list: true, payload_length: blocks.len() }.encode(&mut payload);
    payload.extend_from_slice(&blocks);
    let mut expected = vec![3];
    alloy_rlp::Header { list: true, payload_length: payload.len() }.encode(&mut expected);
    expected.extend_from_slice(&payload);
    let packet = BlocksByRangePacket { request_id: 7, blocks: vec![block(77, [0; 32])] };
    let mut bytes = Vec::new();
    packet.encode(&mut bytes);
    assert_eq!(bytes, expected);
}

#[test]
fn packets_are_read_back_in_front_of_anything() {
    let req = request(5, [3; 32], 6);
    let mut bytes = Vec::new();
    req.encode(&mut bytes);
    let res = BlocksByRangePacket {
        request_id: 8,
        blocks: vec![block(3, [4; 32]), block(2, [5; 32]), block(1, [6; 32])],
    };
    res.encode(&mut bytes);
    bytes.push(0x99);
    let mut rest = bytes.as_slice();
    assert_eq!(GetBlocksByRangePacket::decode(&mut rest), Ok(req));
    assert_eq!(BlocksByRangePacket::decode(&mut rest), Ok(res.clone()));
    assert_eq!(rest, [0x99]);
    assert_eq!(res.clone(), res);
}

#[test]
fn packet_without_bytes_is_refused() {
    let mut rest: &[u8] = &[];
    assert_eq!(GetBlocksByRangePacket::decode(&mut rest), Err(RlpError::InputTooShort));
    assert_eq!(BlocksByRangePacket::decode(&mut rest), Err(RlpError::InputTooShort));
}

#[test]
fn packet_with_another_id_is_refused() {
    let bytes = [0x05, 0xc0];
    let mut rest = &bytes[..];
    assert_eq!(
        GetBlocksByRangePacket::decode(&mut rest),
        Err(RlpError::Custom("Invalid message ID for GetBlocksByRangePacket"))
    );
    assert_eq!(rest, [0xc0]);
    let mut rest = &bytes[..];
    assert_eq!(
        BlocksByRangePacket::decode(&mut rest),
        Err(RlpError::Custom("Invalid message ID for BlocksByRangePacket"))
    );
    assert_eq!(rest, [0xc0]);
}

#[test]
fn malformed_requests_are_refused_for_their_reason() {
    let refuse = |bytes: &[u8], left: &[u8]| {
        let mut rest = bytes;
        let e = GetBlocksByRangePacket::decode(&mut rest).unwrap_err();
        assert_eq!(rest, left);
        e
    };
    assert_eq!(refuse(&[0x02], &[]), RlpError::InputTooShort);
    assert_eq!(refuse(&[0x02, 0x83, 1, 2, 3], &[1, 2, 3]), RlpError::UnexpectedString);
    assert_eq!(refuse(&[0x02, 0x05, 0x06], &[0x05, 0x06]), RlpError::UnexpectedString);
    assert_eq!(refuse(&[0x02, 0xc1, 0xc0], &[]), RlpError::UnexpectedList);
    assert_eq!(refuse(&[0x02, 0xc1, 0x00], &[0x00]), RlpError::LeadingZero);
    assert_eq!(
        refuse(&[0x02, 0xc2, 0x81, 0x01], &[0x81, 0x01]),
        RlpError::NonCanonicalSingleByte
    );
    assert_eq!(refuse(&[0x02, 0xf8, 0x01, 0x01], &[0x01]), RlpError::NonCanonicalSize);
    assert_eq!(refuse(&[0x02, 0xf9, 0x01], &[0x01]), RlpError::InputTooShort);
    assert_eq!(
        refuse(&[0x02, 0xca, 0x89, 1, 2, 3, 4, 5, 6, 7, 8, 9, 10], &[10]),
        RlpError::Overflow
    );
    assert_eq!(refuse(&[0x02, 0xc4, 0x01, 0x01, 0x81, 0xff], &[]), RlpError::UnexpectedLength);
    let mut long = Vec::new();
    request(1, [1; 32], 1).encode(&mut long);
    let payload = (long[1] - 0xc0) as usize;
    long[1] += 1;
    long.push(0x05);
    assert_eq!(
        refuse(&long, &[0x05]),
        RlpError::ListLengthMismatch { expected: payload + 1, got: payload }
    );
}

/// The fields of a request, read one after the other behind the message id.
fn fields_of_request(buf: &mut &[u8]) -> alloy_rlp::Result<GetBlocksByRangePacket> {
    *buf = &buf[1..];
    let head = alloy_rlp::Header::decode(buf)?;
    if !head.list {
        return Err(alloy_rlp::Error::UnexpectedString);
    }
    let started = buf.len();
    let p = GetBlocksByRangePacket {
        request_id: u64::decode(buf)?,
        start_block_height: u64::decode(buf)?,
        start_block_hash: alloy_primitives::B256::decode(buf)?.0,
        count: u64::decode(buf)?,
    };
    let got = started - buf.len();
    if got != head.payload_length {
        return Err(alloy_rlp::Error::ListLengthMismatch { expected: head.payload_length, got });
    }
    Ok(p)
}

/// The bytes with each byte changed in turn, and each beginning of them.
fn changed(bytes: &[u8]) -> Vec<Vec<u8>> {
    let mut all = Vec::new();
    for i in 1..bytes.len() {
        for b in [
            0x00, 0x01, 0x7f, 0x80, 0x81, 0x82, 0x88, 0x89, 0xa0, 0xb7, 0xb8, 0xb9, 0xbf, 0xc0,
            0xc1, 0xf7, 0xf8, 0xf9, 0xff,
        ] {
            let mut other = bytes.to_vec();
            other[i] = b;
            all.push(other);
        }
        all.push(bytes[..i].to_vec());
    }
    all
}

#[test]
fn changed_requests_are_read_or_refused_as_usual() {
    for (height, count) in [(0u64, 1u64), (300, 64), (u64::MAX, u64::MAX)] {
        let mut bytes = Vec::new();
        request(height, [0x11; 32], count).encode(&mut bytes);
        bytes.extend_from_slice(&[0x80, 0x05]);
        for other in changed(&bytes) {
            let mut ours = other.as_slice();
            let mut theirs = other.as_slice();
            match (GetBlocksByRangePacket::decode(&mut ours), fields_of_request(&mut theirs)) {
                (Ok(p), Ok(expected)) => assert_eq!(p, expected),
                (Err(e), Err(expected)) => {
                    assert_eq!(format!("{e:?}"), format!("{expected:?}"))
                }
                (p, expected) => panic!("{p:?} but {expected:?}"),
            }
            assert_eq!(ours, theirs);
        }
    }
}

#[test]
fn malformed_responses_are_refused_for_their_reason() {
    let refuse = |bytes: &[u8], left: &[u8]| {
        let mut rest = bytes;
        let e = BlocksByRangePacket::decode(&mut rest).unwrap_err();
        assert_eq!(rest, left);
        e
    };
    assert_eq!(refuse(&[0x03], &[]), RlpError::InputTooShort);
    assert_eq!(refuse(&[0x03, 0x01], &[0x01]), RlpError::UnexpectedString);
    assert_eq!(refuse(&[0x03, 0xc2, 0x01, 0x02], &[0x02]), RlpError::UnexpectedString);
    assert_eq!(refuse(&[0x03, 0xc3, 0x01, 0xc1, 0x05], &[]), RlpError::UnexpectedString);
    assert_eq!(refuse(&[0x03, 0xc3, 0x01, 0xc1, 0xc0], &[]), RlpError::InputTooShort);
    assert_eq!(
        refuse(&[0x03, 0xc3, 0x01, 0xc0, 0x05], &[0x05]),
        RlpError::ListLengthMismatch { expected: 3, got: 2 }
    );
}

/// The request id of a response, read behind the message id, and then the list of its blocks.
fn fields_of_response(buf: &mut &[u8]) -> alloy_rlp::Result<u64> {
    *buf = &buf[1..];
    let head = alloy_rlp::Header::decode(buf)?;
    if !head.list {
        return Err(alloy_rlp::Error::UnexpectedString);
    }
    let id = u64::decode(buf)?;
    alloy_rlp::Header::decode_bytes(buf, true)?;
    Ok(id)
}

#[test]
fn changed_responses_are_read_as_far_as_usual() {
    let res = BlocksByRangePacket {
        request_id: 500,
        blocks: vec![block(3, [4; 32]), block(2, [5; 32])],
    };
    let mut bytes = Vec::new();
    res.encode(&mut bytes);
    bytes.extend_from_slice(&[0x80, 0x05]);
    for other in changed(&bytes) {
        let mut ours = other.as_slice();
        let mut theirs = other.as_slice();
        let read = BlocksByRangePacket::decode(&mut ours);
        match fields_of_response(&mut theirs) {
            Ok(id) => {
                if let Ok(p) = read {
                    assert_eq!(p.request_id, id);
                }
            }
            Err(expected) => {
                assert_eq!(format!("{:?}", read.unwrap_err()), format!("{expected:?}"))
            }
        }
        assert_eq!(ours, theirs);
    }
}

#[test]
fn answer_has_no_more_blocks_than_asked_for() {
    let (mut cache, hashes) = chain(10);
    let resp = cached_response(&mut cache, &request(0, hashes[9], 4));
    assert_eq!(resp.request_id, 9);
    let found: Vec<_> = resp.blocks.iter().map(|b| b.header.hash_slow()).collect();
    assert_eq!(found, vec![hashes[9], hashes[8], hashes[7], hashes[6]]);
    let resp = cached_response(&mut cache, &request(0, hashes[9], 0));
    assert!(resp.blocks.is_empty());
}

#[test]
fn answer_has_no_more_blocks_than_allowed() {
    let (mut cache, hashes) = chain(100);
    let resp = cached_response(&mut cache, &request(0, hashes[99], 100));
    assert_eq!(resp.blocks.len() as u64, MAX_REQUEST_RANGE_BLOCKS_COUNT);
    for (i, b) in resp.blocks.iter().enumerate() {
        assert_eq!(b.header.number, 99 - i as u64);
    }
    for pair in resp.blocks.windows(2) {
        assert_eq!(pair[0].header.parent_hash, pair[1].header.hash_slow());
    }
}

#[test]
fn answer_ends_at_the_block_without_a_parent() {
    let (mut cache, hashes) = chain(3);
    let resp = cached_response(&mut cache, &request(0, hashes[2], 50));
    assert_eq!(resp.blocks.len(), 3);
    assert_eq!(resp.blocks[2].header.parent_hash, [0; 32]);
}

#[test]
fn answer_starts_at_the_height_when_the_hash_is_zero() {
    let (mut cache, hashes) = chain(5);
    let resp = cached_response(&mut cache, &request(3, [0; 32], 2));
    let found: Vec<_> = resp.blocks.iter().map(|b| b.header.hash_slow()).collect();
    assert_eq!(found, vec![hashes[3], hashes[2]]);
    let resp = cached_response(&mut cache, &request(30, [0; 32], 2));
    assert!(resp.blocks.is_empty());
    let resp = cached_response(&mut cache, &request(3, [7; 32], 2));
    assert!(resp.blocks.is_empty());
}

#[test]
fn same_request_is_answered_alike_again() {
    let (mut cache, hashes) = chain(6);
    let req = request(0, hashes[5], 4);
    let first = cached_response(&mut cache, &req);
    assert_eq!(cached_response(&mut cache, &req), first);
}

#[test]
fn answer_takes_what_each_source_has() {
    let chain = full_chain(7);
    let hash = chain[6].header.hash_slow();
    let mut cache = BodyCache::default();
    assert!(cache_full_block(&mut cache, chain[6].clone()));
    assert!(cache_full_block(&mut cache, chain[3].clone()));
    let full = full_blocks(vec![bare(&chain[6]), chain[4].clone(), chain[2].clone()]);
    let (by_hash, by_number) = headers(chain[1..].to_vec());
    let resp =
        build_blocks_by_range_response(&mut cache, &full, &by_hash, &by_number, &request(0, hash, 50));
    assert_eq!(resp.request_id, 9);
    assert_eq!(
        resp.blocks,
        vec![
            chain[6].clone(),
            bare(&chain[5]),
            chain[4].clone(),
            chain[3].clone(),
            chain[2].clone(),
            bare(&chain[1]),
        ]
    );
    let resp =
        build_blocks_by_range_response(&mut cache, &full, &by_hash, &by_number, &request(0, hash, 2));
    assert_eq!(resp.blocks, vec![chain[6].clone(), bare(&chain[5])]);
}

#[test]
fn answer_can_be_of_headers_alone() {
    let chain = full_chain(100);
    let hash = chain[99].header.hash_slow();
    let mut cache = BodyCache::default();
    let full = full_blocks(vec![]);
    let (by_hash, by_number) = headers(chain.clone());
    let resp = build_blocks_by_range_response(
        &mut cache,
        &full,
        &by_hash,
        &by_number,
        &request(0, hash, 100),
    );
    assert_eq!(resp.blocks.len() as u64, MAX_REQUEST_RANGE_BLOCKS_COUNT);
    for (i, b) in resp.blocks.iter().enumerate() {
        assert_eq!(*b, bare(&chain[99 - i]));
    }
    let mut bytes = Vec::new();
    resp.encode(&mut bytes);
    let mut rest = bytes.as_slice();
    assert_eq!(BlocksByRangePacket::decode(&mut rest), Ok(resp));
    assert_eq!(get_cached_block_by_hash(&mut cache, &hash), None);
}

#[test]
fn answer_starts_at_a_height_that_only_others_know() {
    let chain = full_chain(5);
    let none: OnceSlot<Full> = OnceSlot::new();
    let full = full_blocks(vec![chain[3].clone()]);
    let (by_hash, by_number) = headers(chain.clone());
    let mut cache = BodyCache::default();
    let req = request(3, [0; 32], 2);
    let resp = build_blocks_by_range_response(&mut cache, &none, &by_hash, &by_number, &req);
    assert_eq!(resp.blocks, vec![bare(&chain[3]), bare(&chain[2])]);
    let resp = build_blocks_by_range_response(&mut cache, &full, &by_hash, &by_number, &req);
    assert_eq!(resp.blocks, vec![chain[3].clone(), bare(&chain[2])]);
    let unknown = request(50, [0; 32], 2);
    let resp = build_blocks_by_range_response(&mut cache, &full, &by_hash, &by_number, &unknown);
    assert!(resp.blocks.is_empty());
    let nothing = request(3, [0; 32], 0);
    let resp = build_blocks_by_range_response(&mut cache, &full, &by_hash, &by_number, &nothing);
    assert!(resp.blocks.is_empty());
}

#[test]
fn smaller_request_is_answered_with_the_beginning() {
    let (mut cache, hashes) = chain(100);
    let all = cached_response(&mut cache, &request(0, hashes[99], 64)).blocks;
    assert_eq!(all.len(), 64);
    for count in [0u64, 1, 5, 63] {
        let resp = cached_response(&mut cache, &request(0, hashes[99], count));
        assert_eq!(resp.blocks, all[..count as usize]);
    }
    for count in [65, 100, u64::MAX] {
        assert_eq!(cached_response(&mut cache, &request(0, hashes[99], count)).blocks, all);
    }
    let short = cached_response(&mut cache, &request(0, hashes[2], 64)).blocks;
    assert_eq!(cached_response(&mut cache, &request(0, hashes[2], 10)).blocks, short);
    let chain = full_chain(20);
    let (by_hash, by_number) = headers(chain.clone());
    let full = full_blocks(chain[5..9].to_vec());
    let mut cache = BodyCache::default();
    let mut answer = |count| {
        let req = request(15, [0; 32], count);
        build_blocks_by_range_response(&mut cache, &full, &by_hash, &by_number, &req).blocks
    };
    let all = answer(64);
    assert_eq!(all.len(), 16);
    assert_eq!(answer(9), all[..9]);
}
