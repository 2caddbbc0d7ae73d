use vstd::prelude::*;
use vstd::string::*;

use super::safamily::SAFamily;
use super::{SockAddr, SockAddrBase};
use crate::posix_fns::{address_of_text, c_text, inet_pton, lemma_address_of_text};

verus! {

/// The system's IPv4 socket address (`struct sockaddr_in`) as plain values: the
/// family (`None` for the zero of a fresh structure), and the port and the
/// address as the bytes that stand in memory, in network order.
#[derive(Copy, Clone)]
pub struct RawSockAddrIn {
    pub sin_family: Option<SAFamily>,
    pub sin_port: [u8; 2],
    pub sin_addr: [u8; 4],
}

/// The bytes of `port` in network order: the high byte first.
pub open spec fn network_port(port: u16) -> Seq<u8> {
    seq![(port / 256) as u8, (port % 256) as u8]
}

/// The two bytes of `network_port(p)`, read high byte first, give back `p`:
/// the high byte is `p >> 8` and the low one `p & 0xff`.
pub proof fn lemma_network_port(p: u16)
    ensures
        network_port(p).len() == 2,
        network_port(p)[0] as int * 256 + network_port(p)[1] as int == p as int,
        network_port(p)[0] == (p >> 8) as u8,
        network_port(p)[1] == (p & 0xff) as u8,
{
    assert((p >> 8) == p / 256 && (p & 0xff) == p % 256) by (bit_vector);
    assert(p / 256 < 256);
    assert((p / 256) * 256 + p % 256 == p) by (nonlinear_arith);
}

impl RawSockAddrIn {
    /// A structure whose bytes are all zero.
    pub fn zeroed() -> (r: RawSockAddrIn)
        ensures
            r.sin_family is None,
            r.sin_port@ == seq![0u8, 0u8],
            r.sin_addr@ == seq![0u8, 0u8, 0u8, 0u8],
    {
        let r = RawSockAddrIn { sin_family: None, sin_port: [0u8; 2], sin_addr: [0u8; 4] };
        assert(r.sin_port@ =~= seq![0u8, 0u8]);
        assert(r.sin_addr@ =~= seq![0u8, 0u8, 0u8, 0u8]);
        r
    }
}

/// The value of an IPv4 socket address: the system structure, and the text and
/// port it was last set to.
pub struct SockAddrInView {
    pub raw: RawSockAddrIn,
    pub ip: Option<Seq<char>>,
    pub port: Option<u16>,
}

/// An IPv4 socket address, with the text and the port it was set from.
pub struct SockAddrIn {
    sockaddr_in: RawSockAddrIn,
    ip: Option<String>,
    port: Option<u16>,
}

/// A socket address whose structure is all zero and that has been given no
/// text and no port.
pub fn new() -> (r: SockAddrIn)
    ensures
        r@.raw.sin_family is None,
        r@.raw.sin_port@ == seq![0u8, 0u8],
        r@.raw.sin_addr@ == seq![0u8, 0u8, 0u8, 0u8],
        r@.ip is None,
        r@.port is None,
{
    SockAddrIn { sockaddr_in: RawSockAddrIn::zeroed(), ip: None, port: None }
}

impl View for SockAddrIn {
    type V = SockAddrInView;

    closed spec fn view(&self) -> SockAddrInView {
        SockAddrInView {
            raw: self.sockaddr_in,
            ip: match self.ip {
                Some(s) => Some(s@),
                None => None,
            },
            port: self.port,
        }
    }
}

impl SockAddrIn {
    /// The system structure, as plain values.
    pub fn raw(&self) -> (r: RawSockAddrIn)
        ensures
            r == self@.raw,
    {
        self.sockaddr_in
    }
}

impl SockAddrBase for SockAddrIn {
    /// The size of `struct sockaddr_in`: 16 bytes.
    fn size(&self) -> (r: u32)
        ensures
            r == 16,
    {
        16
    }

    fn ip(&self) -> (r: Option<String>)
        ensures
            r matches Some(s) ==> self@.ip == Some(s@),
            r is None <==> self@.ip is None,
    {
        match &self.ip {
            Some(s) => Some(s.clone()),
            None => None,
        }
    }

    fn port(&self) -> (r: Option<u16>)
        ensures
            r == self@.port,
    {
        self.port
    }

    /// Sets the family to `af` and the port to `port`, stored in network order.
    /// With a text, the text is kept, and in `AF_INET` the address becomes the one
    /// the text names when it names one (it is left as it was otherwise). In
    /// `AF_INET6`, a text without a colon names no IPv6 address and leaves the
    /// address as it was; what an IPv6 address does is left unsaid: the system
    /// would write it there, and it does not fit. Without a text, the address
    /// becomes any address (all zero), shown as `*`.
    fn set(&mut self, af: SAFamily, ip: Option<&str>, port: u16)
        ensures
            final(self)@.raw.sin_family == Some(af),
            final(self)@.raw.sin_port@ == network_port(port),
            final(self)@.port == Some(port),
            match ip {
                Some(text) => {
                    &&& final(self)@.ip == Some(text@)
                    &&& af == SAFamily::AfInet ==> final(self)@.raw.sin_addr@ == match address_of_text(
                        c_text(text@),
                    ) {
                        Some(b) => b,
                        None => old(self)@.raw.sin_addr@,
                    }
                    &&& (af == SAFamily::AfInet6 && !c_text(text@).contains(':'))
                        ==> final(self)@.raw.sin_addr@ == old(self)@.raw.sin_addr@
                },
                None => {
                    &&& final(self)@.ip == Some("*"@)
                    &&& final(self)@.raw.sin_addr@ == seq![0u8, 0u8, 0u8, 0u8]
                },
            },
    {
        self.sockaddr_in.sin_family = Some(af);
        self.port = Some(port);
        self.sockaddr_in.sin_port = [(port / 256) as u8, (port % 256) as u8];
        assert(self.sockaddr_in.sin_port@ =~= network_port(port));
        match ip {
            Some(text) => {
                if af == SAFamily::AfInet {
                    match inet_pton(text) {
                        Some(b) => {
                            proof {
                                lemma_address_of_text(b@);
                            }
                            self.sockaddr_in.sin_addr = b;
                        },
                        None => {},
                    }
                }
                self.ip = Some(String::from_str(text));
            },
            None => {
                self.sockaddr_in.sin_addr = [0u8; 4];
                assert(self.sockaddr_in.sin_addr@ =~= seq![0u8, 0u8, 0u8, 0u8]);
                self.ip = Some(String::from_str("*"));
            },
        }
    }
}

impl SockAddr for SockAddrIn {
    /// The text that the address shows: the words `self.ip:self.port`, whatever
    /// the address holds.
    fn to_string(&self) -> (r: String)
        ensures
            r@ == "self.ip:self.port"@,
    {
        String::from_str("self.ip:self.port")
    }
}

} // verus!
