# commit_reveal

A verified core for a commit-reveal committee election on a Substrate-style
chain, and for the producer-select notification protocol that nodes use to
exchange their votes.

- `src/` is the library, verified with Verus:
  - `bytes`, `byte_map`, `storage_map`, `vote_map`: big-endian integers,
    byte strings and their order, and the maps the pallets and the handler
    keep (storage maps listed by their stored keys under the
    `Blake2_128Concat` or `Twox64Concat` hasher, votes in an ordered map,
    peers and the test map in arrival order);
  - `hashing`, `peer`: the calls into sp-core (BLAKE2b-256),
    sp-crypto-hashing (xxHash64, BLAKE2b-128) and libp2p (peer id parsing);
  - `tally`: checking commitments against reveals, the round's random
    number and the nearest committee;
  - `commit_reveal_pallet`, `signed_tx_pallet`: the storage and calls of the
    two pallets and the steps of their off-chain workers, which clear or
    tally storage themselves and hand the node its local-storage writes and
    transactions;
  - `wire`: the protocol's message format, with its decoding proved to
    invert its encoding; compact integers are decoded by parity-scale-codec;
  - `producer_select`: the handler's decisions on network events and
    controller requests.
- `app/` runs the handler's event loop and the workers over the node's
  storage, keys, randomness and network.
- `tests/` exercises the library on concrete values.
