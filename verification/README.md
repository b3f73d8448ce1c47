# crust

The verified core of crust, a peer-to-peer connection library.

* `src/` is the library, with machine-checked proofs: the prioritised, byte-bounded message queue
  behind a connection's send side; the choice and order of bootstrap contacts and the
  bootstrap handshake as a state machine; the decisions of connections, active connections
  (heartbeats, connection map entries, one connection per peer) and the service; readiness bookkeeping for evented
  handles; the mapped addresses of a socket and what a STUN peer's reply gives; and the plain data types (socket addresses, endpoints, contact info, config,
  wire messages).
* `app/` holds what does I/O, spawns threads or implements outside traits: the futures
  `Stream`/`Sink` ends of the priority channel, the periodic UDP sender thread, receiving with a
  deadline, the bootstrap thread, config file reading and writing, and the serialised form of
  socket addresses.
* `tests/` exercises the library on concrete values.
