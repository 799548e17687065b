//! The shared-memory transport, which goes through VPP's C client library:
//! what it keeps between calls is whether it is connected.
use vstd::prelude::*;

verus! {

/// State of the shared-memory transport.
pub struct Transport {
    connected: bool,
}

impl Transport {
    pub closed spec fn spec_connected(&self) -> bool {
        self.connected
    }

    /// A transport that is not connected yet.
    pub fn new() -> (t: Transport)
        ensures
            !t.spec_connected(),
    {
        Transport { connected: false }
    }

    /// Whether the transport is connected.
    pub fn is_connected(&self) -> (b: bool)
        ensures
            b == self.spec_connected(),
    {
        self.connected
    }

    /// Takes in the status that the C library's connect call returned (0 on
    /// success) and hands it back; the transport is connected once a
    /// connect succeeded.
    pub fn connect_result(&mut self, err: i32) -> (r: i32)
        ensures
            r == err,
            final(self).spec_connected() == (old(self).spec_connected() || err == 0),
    {
        if err == 0 {
            self.connected = true;
        }
        err
    }

    /// Forgets the connection; tells whether there was one, in which case
    /// the caller asks the C library to disconnect.
    pub fn disconnect(&mut self) -> (was_connected: bool)
        ensures
            was_connected == old(self).spec_connected(),
            !final(self).spec_connected(),
    {
        if self.connected {
            self.connected = false;
            true
        } else {
            false
        }
    }

    /// This transport keeps no message table: every name gives 0.
    pub fn get_msg_index(&mut self, name: &str) -> (r: u16)
        ensures
            r == 0,
            *final(self) == *old(self),
    {
        0
    }

    /// This transport reports no table size: always 0.
    pub fn get_table_max_index(&mut self) -> (r: u16)
        ensures
            r == 0,
            *final(self) == *old(self),
    {
        0
    }
}

} // verus!
