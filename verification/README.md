# aegis-edge-relay

A relay that carries TCP streams over WebSockets, through a TLS session to an
edge. `aegis-edge-relay bridge` takes streams from local clients;
`aegis-edge-relay destination` hands them to their target.

- `src/` is the library, verified with Verus: what the two programs decide and
  compute. `src/lib.rs` lists its modules.
- `app/` is the program around it: the command line, sockets, timers and tasks.
- `tests/` exercises the library from outside.

## What is proved

Every function of the library states what it returns in its `ensures` clauses.
Beyond that, the proof functions named `law_..` state what holds of the relay as
a whole. The main ones:

- The relay is transparent: what one node reads from a TCP stream, the other
  writes to its own, whatever pieces either cuts it into. The first bytes of a
  stream, and no others, go out in pieces. If sending breaks off, what was sent is
  a beginning of the stream, and pieces are counted off only once they were sent.
- Replacing a generation interrupts no stream. A generation that was replaced
  takes no new stream and goes with the last one it has.
- A destination lets a caller in exactly if it presents the secret. In the header
  of a request to upgrade, that holds of a secret of printable ASCII and tabs; no
  other can be read there, and its holder is turned away. In a line
  `AUTH <secret>`, it holds of a secret without a line feed that does not end in
  a carriage return and leaves the line within 512 bytes.
- A health request is answered by the method and the path in its first line,
  whatever follows. A response says the length of its body in bytes.

## What is trusted

HTTP requests and responses, URLs, server names, certificates and TLS settings
are those of the crates `tungstenite`, `http`, `rustls` and `webpki-roots`. They
are opaque to the proofs. What is claimed of a call stands in the contract of the
function that makes it, marked `external_body`, in `src/upgrade.rs`,
`src/tls.rs` and `src/health.rs`, or in an `assume_specification` of the function
that is called: `String::from_utf8` in `src/auth.rs`, and `RootCertStore::empty`
and `RootCertStore::is_empty` in `src/tls.rs`. The names without a body in these
files stand for what such a value holds or such a call returns.
