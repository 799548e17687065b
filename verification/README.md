# vpp_api_transport

Client side of the VPP binary API, verified with Verus.

- `src/` is the verified library: the big-endian wire format (`wire`), the
  framing of the AF_UNIX API socket (`framing`), the client-create handshake
  and the message table it fills (`afunix`, `msg_table`, `text`), request
  layout and reply matching (`reqrecv`), and the state of the shared-memory
  transport (`shmem`).
- `app/` holds what performs I/O: the socket and shared-memory transports,
  the read loops, and serde/bincode for user-defined messages.
- `tests/` runs the library on concrete values, and compares its encoding
  with bincode's.
