//! Client side of the VPP binary API: the wire format of the messages, the
//! framing used on the AF_UNIX API socket, the message table learned while
//! connecting, and the bookkeeping of request/reply exchanges.
pub mod wire;
pub mod framing;
pub mod msg_table;
pub mod text;
pub mod afunix;
pub mod reqrecv;
pub mod shmem;
