# chroma_p2p

The peer-to-peer layer of a Chroma node, written as a verified library: the wire
format, peer scoring and admission, header and block synchronisation, the memory
pool, the node's key file, peer discovery and the encrypted transport.

The library decides and computes; it never reads a clock, a socket or a file. Times
come in as arguments, bytes come in as slices, and what is to be sent or reported goes
out as values. Contracts are stated over mathematical models (`PeersView`, `SyncView`,
a sequence of pool entries), and laws that relate several functions stand as public
proof functions, in the `*_laws` modules or beside the functions they speak of.

| where | what |
| --- | --- |
| `src/wire.rs`, `frame.rs` | messages, and cutting a byte stream into them |
| `src/peer.rs`, `bans.rs`, `connect.rs` | peers, bans, rate limits; who is let in and dialled |
| `src/sync.rs`, `chain.rs` | synchronisation; checking a stored chain at startup |
| `src/mempool.rs`, `miner.rs` | the memory pool and what a miner takes out of it |
| `src/lifecycle.rs`, `handshake.rs`, `dispatch.rs`, `session.rs`, `relay.rs` | the life of a connection, and what each frame of a peer leads to |
| `src/noise_transport.rs`, `identity.rs` | the encrypted transport and the key it uses |
| `src/discovery.rs`, `nonce.rs` | finding peers; nonces |
| `src/addr.rs`, `bytes.rs`, `error.rs`, `hash.rs`, `table.rs`, `text.rs`, `time.rs` | shared types |
| `tests/` | tests that run the library |
| `app/` | the node around the library: sockets, files, clocks and tasks |

`app/chroma.rs` connects the node to the storage, consensus and cryptography crates of
the Chroma workspace and builds only there; the rest of `app/` needs none of them.
