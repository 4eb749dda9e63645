# zht

A zero-hop distributed hash table: every client knows every node and sends a
request straight to the node that its key belongs to.

- `src/` is the library, written in Verus. It holds the storage engine and its
  file format, the message encoding, framing and chunking, the request
  processor, membership, replication and migration, the client's operations and
  the rules of the transports. Each function has a contract, and the laws that
  relate functions stand beside them as proof functions whose names begin with
  `law_`.
- `app/` is the program around it: sockets, files, clocks, tasks and the command
  line. The library tells it what to do next and is told how it went.
- `tests/` runs the library.

The library does no input or output. Where a call goes into `prost` or into a
part of the standard library that has no specification, a small trusted function
makes the call; its doc comment names the call and says what is taken for
granted of it. These are in `src/text.rs`, `src/wire.rs` and `src/hash_util.rs`.
