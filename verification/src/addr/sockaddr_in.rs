use vstd::prelude::*;

use crate::api::addr::safamily::SAFamily;
use crate::api::addr::sockaddr_in::RawSockAddrIn;

verus! {

/// A bare IPv4 socket address: the system structure alone.
pub struct SockAddrIn {
    sockaddr_in: RawSockAddrIn,
}

impl View for SockAddrIn {
    type V = RawSockAddrIn;

    closed spec fn view(&self) -> RawSockAddrIn {
        self.sockaddr_in
    }
}

impl SockAddrIn {
    /// A structure whose bytes are all zero.
    pub fn new() -> (r: Self)
        ensures
            r@.sin_family is None,
            r@.sin_port@ == seq![0u8, 0u8],
            r@.sin_addr@ == seq![0u8, 0u8, 0u8, 0u8],
    {
        Self { sockaddr_in: RawSockAddrIn::zeroed() }
    }

    /// The structure, as plain values.
    pub fn raw(&self) -> (r: RawSockAddrIn)
        ensures
            r == self@,
    {
        self.sockaddr_in
    }

    /// Sets the family, and nothing else.
    pub fn set_af(&mut self, af: SAFamily)
        ensures
            final(self)@ == (RawSockAddrIn { sin_family: Some(af), ..old(self)@ }),
    {
        self.sockaddr_in.sin_family = Some(af);
    }
}

} // verus!
