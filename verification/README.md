# nago-rustls

Drive [rustls](https://github.com/rustls/rustls) from any byte stream, with no
runtime attached, and with proofs in Verus.

No OpenSSL and no C API: rustls with the `ring` provider is the whole backend.

## How it works

rustls is already sans-io. `read_tls` takes ciphertext that arrived,
`process_new_packets` decrypts it, `write_tls` hands back ciphertext to send.
What is usually missing is the loop that drives those calls.

Here each operation of a `TlsSession` (`handshake`, `read`, `write_all`,
`close`) is a function from what the stream did last, an `Event`, to what it
has to do next, an `Action`. Whoever owns the stream goes round with it: an
async driver awaits, a blocking one calls `TlsSession::perform`.

## Layout

- `src/connection.rs`: what is known of a rustls connection. Nothing in it is
  proved; everything else is proved from it.
- `src/inbox.rs`: decrypted bytes that wait for a reader.
- `src/turn.rs`: events, actions, and what each turn of an operation does.
- `src/session.rs`: `TlsSession`, whose operations do exactly that.
- `src/laws.rs`: what follows for whole operations and whole sessions. Readers
  get exactly what rustls decrypted and the stream exactly what rustls queued,
  in order, and all that was taken in is processed. Nothing waits while it has
  something to send. A handshake that succeeds is complete, and what rustls
  refuses is told to the peer first. A write that succeeds has encrypted and
  sent all, also where it had to go through the handshake for that. Zero means
  a clean close, and a close is said once.
- `src/config.rs`: a client configuration that trusts the webpki roots.
- `app/`: the same sessions over a stream that is awaited.
- `extras/cargo_config.toml`: how to build rustls in a debug build.

## Building

Build rustls without debug assertions. A release build does. In a debug build,
put what is in `extras/cargo_config.toml` into the `.cargo/config.toml` of the
workspace, or its table into the `Cargo.toml` at the root. With debug
assertions rustls panics on a malformed record that comes after its own
`close_notify`, where it otherwise reports a protocol error. The contract of
`process_new_packets` in `src/connection.rs` rests on the latter.

## What it is not

Not a fork of rustls and not a TLS implementation. All the cryptography and
all the protocol is rustls'; this is the plumbing around it.
