# parachain_validation

The decisions of a relay chain validator, verified with Verus:

- `statement`: what is signed about a candidate, and checking it;
- `groups`: which authorities check which parachain, and how many votes are needed;
- `instances`, `sessions`: one attestation session for each relay chain parent;
- `collation_work`: the local validator's work on its own parachain;
- `proposer`, `timing`: when a block is proposed;
- `assembly`: what goes into the block.

Each module states its contracts over plain values. Where a decision waits for a client, a
network, a pool or a timer, it is a state that is told what came of the last step and says what
the next one is.

`ed25519`, `hashing` and `codec` hold the trusted wrappers: signatures and digests come from
`sp-core`, the encoding of what is signed from `parity-scale-codec`.

`app/` runs these decisions with futures, timers and locks, against traits for the client, the
network, the collators and the transaction pool.
