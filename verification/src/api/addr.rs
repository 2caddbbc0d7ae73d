use vstd::prelude::*;

use self::safamily::SAFamily;

pub mod safamily;
pub mod sockaddr_in;

verus! {

/// What every socket address offers: its family, text and port are set
/// together, and read back one by one.
pub trait SockAddrBase {
    /// Sets the family, the address (`None` for any address) and the port. A text
    /// is read in the family `af`, which has to be an internet family (in any
    /// other, the system refuses the text and the program stops).
    fn set(&mut self, af: SAFamily, ip: Option<&str>, port: u16)
        requires
            ip is Some ==> (af == SAFamily::AfInet || af == SAFamily::AfInet6),
    ;

    fn port(&self) -> Option<u16>;

    fn ip(&self) -> Option<String>;

    /// The size in bytes of the system structure that holds the address.
    fn size(&self) -> u32;
}

/// A socket address that can also be shown as text.
pub trait SockAddr: SockAddrBase {
    fn to_string(&self) -> String;
}

} // verus!
