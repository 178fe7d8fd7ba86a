# qsafe

Compression and encryption of files for several recipients at once (a
password, a FIDO2 key, a BIP39 paper backup, an X25519 + ML-KEM-768 public
key, Shamir shares of the key), with the tool's file formats, checks and
decisions written in Verus and proved against their contracts.

## Layout

- `src/` — the verified library.
  - `format`, `io`, `stream`, `envelope`, `compress`, `integrity`, `pack`:
    the file header and byte layout, chunked streams, the payload AEAD,
    compression with its bomb limits, and packing/unpacking in memory.
  - `password`, `hardware`, `paper`, `identity`, `shamir`: the recipients
    and the text form of Shamir shares.
  - `sfx`: self-extracting files (stub + qsafe file + footer).
  - `formats`: detection of other archive formats, safe entry paths,
    in-memory decoders, archive listings.
  - `cli`, `gui`, `launch`, `listing`, `jobs`, `disks`, `iso`, `md5sum`:
    the decisions of the command-line tool and of the desktop operations
    (arguments, default paths, disk and mount tool output, file browser
    order, MD5 side files).
  - `primitives` (and a few other functions marked `external_body`): the
    calls into the cryptography and compression crates, each with the
    contract it is trusted to meet.
- `tests/` — tests of the library on concrete values.
- `app/` — the program around the library: command-line parsing, files,
  terminals, child processes and platform tools, and the serialized forms of
  the library's types.

## Formats this build does not handle

- Brotli: neither created nor extracted (no Brotli crate is built here).
- 7z and RAR: recognised by their signatures, but not extracted; the tool
  reports the format as not available in this build.
- Streaming mode seals the last chunk under the base nonce with the top bit
  of its last byte flipped, so a stream cut short at a record boundary is
  refused.
