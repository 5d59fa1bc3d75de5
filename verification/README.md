# meshcop

A verified core for a Thread MeshCoP commissioner.

- `src/dtls`: DTLS 1.2 records, AES-128-CCM-8 protection, the replay window,
  and the client and server handshake flows as state machines.
- `src/commissioner`: CoAP messages and TLVs, the session driver with its
  exchanges, keep-alives and duplicate detection, joiner sessions, and the
  configuration.
- `src/cli`: tokenizing and dispatching of command lines.
- `app`: sockets, timers, channels and the Tokio adapters around the library.
- `tests`: scenarios that run the library with its real cryptography.

The state machines never block: each takes an event (a datagram, a timer, a
command) and says what to do next, and the code in `app` does it. Time is a
number of nanoseconds that the caller supplies.

Keys, credentials and dataset values are wiped when they are dropped.

Proof functions named `law_..` state what holds across several operations, such
as that every request is answered once, or that a record is taken once.
