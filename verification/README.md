# QuicFS

A remote filesystem over QUIC: a server exports one directory, a client mounts it through
FUSE. Peers are known by their keys, as with ssh: the client pins each server's key in
`known_hosts`, the server admits the keys in `authorized_keys`.

The library under `src/` holds what the two sides decide and compute, and Verus proves it:

- `common/`: the frames of the protocol and their length prefix, status codes, key
  fingerprints and the two key files, self-signed identities;
- `server/`: confinement of client paths below the export root, open handles, sessions,
  admission of clients, and the handlers' decisions under `ops/`;
- `client/`: the write buffer and the open files behind it, the metadata cache, inode
  numbers, first contact with a server, requests and what their answers mean;
- `image.rs`, `consistency.rs`: what writes leave in a file, and the laws that follow
  bytes from the client's buffer over the wire to the server's file and back;
- `path.rs`, `text.rs`, `time.rs`, `random.rs`: what the rest stands on.

Contracts speak about models: sequences of characters for paths, sequences of positioned
writes for files, maps for the tables. Public proof functions whose names start with `law_`
state what holds across functions: that no accepted path leaves the export root, that
re-sent writes change nothing, that bytes which did not reach the server are never passed
over, that saved pins and keys read back.

Sockets, files, the terminal and the FUSE session live in `app/`, which performs what the
library decides. `tests/` runs the library on concrete values.

What is believed rather than proved stands in functions marked `external_body`, each with
a doc comment that names the function it calls: `base64`, `sha2`, `x509-parser`, `rcgen`,
`rustls-pemfile`, `lru`, `uuid`, the clock, the hash of `std::path::Path` and `String::push`.
