# bsc_node

The rules of a BSC node, as a Verus library: what it answers peers and clients with is stated in
contracts and proved.

- `src/rlp.rs`, `src/num.rs`: RLP items and big-endian numbers.
- `src/node/block_codec.rs`, `src/node/network/blocks_by_range.rs`: headers, blocks and the packets of
  the block range protocol as bytes, and how a range request is answered.
- `src/node/network/range_walk.rs`: the walk that answers it, from the cache, the provider of full
  blocks and, with empty bodies, the lookups of headers.
- `src/lru.rs`, `src/body_cache.rs`: the cache of recently seen full blocks, on top of `schnellru`.
- `src/node/network/`: the registry of peers, range requests and the wait for their import, who votes are sent to, and the refresh
  of the validators' own network.
- `src/shared.rs`, `src/once_slot.rs`: what the node's parts share.
- `src/rpc/`: the simulation endpoints. The node is driven by steps: each step says what the node is
  asked next, and its `resume` takes the reply.
- `app/`: the process around the library, with its globals, channels, JSON-RPC servers and IPC client.
- `tests/`: the library on concrete values, with the outside crates linked.
