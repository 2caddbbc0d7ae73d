//! The IPv4 address that the echo client connects to.
use vstd::endian::{endianness, Endian};
use vstd::prelude::*;

use crate::api::addr::safamily::SAFamily;
use crate::api::addr::sockaddr_in::RawSockAddrIn;
use crate::posix_fns::{
    address_of_text, c_text, dotted_quad, inet_ntop as format_dotted_quad, inet_pton as parse_dotted_quad,
    lemma_address_of_text, push_char,
};

pub mod sockaddr_in;

verus! {

/// The bytes of `x` as they stand in memory on the target, whose byte order
/// vstd's `endianness()` stands for.
pub open spec fn native_u32_bytes(x: u32) -> Seq<u8> {
    match endianness() {
        Endian::Little => seq![x as u8, (x >> 8) as u8, (x >> 16) as u8, (x >> 24) as u8],
        Endian::Big => seq![(x >> 24) as u8, (x >> 16) as u8, (x >> 8) as u8, x as u8],
    }
}

/// The bytes of `x` as they stand in memory on the target.
pub open spec fn native_u16_bytes(x: u16) -> Seq<u8> {
    match endianness() {
        Endian::Little => seq![x as u8, (x >> 8) as u8],
        Endian::Big => seq![(x >> 8) as u8, x as u8],
    }
}

/// `u32::to_ne_bytes`: the memory representation of `x` in the target's byte
/// order.
#[verifier::external_body]
fn u32_to_ne_bytes(x: u32) -> (r: [u8; 4])
    ensures
        r@ == native_u32_bytes(x),
{
    x.to_ne_bytes()
}

/// `u32::from_ne_bytes`: the number whose memory representation, in the
/// target's byte order, is `b`.
#[verifier::external_body]
fn u32_from_ne_bytes(b: [u8; 4]) -> (r: u32)
    ensures
        native_u32_bytes(r) == b@,
{
    u32::from_ne_bytes(b)
}

/// `u16::to_ne_bytes`: the memory representation of `x` in the target's byte
/// order.
#[verifier::external_body]
fn u16_to_ne_bytes(x: u16) -> (r: [u8; 2])
    ensures
        r@ == native_u16_bytes(x),
{
    x.to_ne_bytes()
}

/// An IPv4 socket address of family `AF_INET`, whose address and port are
/// stored as given (the caller converts them to network order).
pub struct IpV4Addr {
    addr_in: RawSockAddrIn,
}

impl View for IpV4Addr {
    type V = RawSockAddrIn;

    closed spec fn view(&self) -> RawSockAddrIn {
        self.addr_in
    }
}

/// The number of characters that `inet_ntop` is given room for: the text and its
/// closing NUL.
pub const NTOP_BUF_LEN: usize = 15;

/// The text that `IpV4Addr::inet_ntop` gives for `b`: the dotted-decimal text,
/// then NULs up to `NTOP_BUF_LEN` characters.
pub open spec fn padded_text(b: Seq<u8>) -> Seq<char> {
    dotted_quad(b) + Seq::new((NTOP_BUF_LEN - dotted_quad(b).len()) as nat, |i: int| '\0')
}

/// An IPv4 address of family `AF_INET`: made, given an address and a port, and
/// converted between its text and its number.
pub trait IpV4AddrSvc: Sized {
    fn new() -> Self;

    fn set(&mut self, addr: u32, port: u16);

    /// The size of `struct sockaddr_in`: 16 bytes.
    fn size() -> (r: u32)
        ensures
            r == 16,
    {
        16
    }

    /// The dotted-decimal text of the four bytes `b`, written as `inet_ntop` writes
    /// it into a buffer of `NTOP_BUF_LEN` zeroed characters: the text, then NULs.
    /// (A text of `NTOP_BUF_LEN` characters or more does not fit with its NUL;
    /// `inet_ntop` refuses it and the program stops.)
    fn inet_ntop(b: &[u8; 4]) -> (r: String)
        requires
            dotted_quad(b@).len() < NTOP_BUF_LEN,
        ensures
            r@ == padded_text(b@),
    {
        let text = format_dotted_quad(b, NTOP_BUF_LEN);
        let mut s = text.unwrap();
        let ghost t = s@;
        let mut i: usize = s.unicode_len();
        while i < NTOP_BUF_LEN
            invariant
                t == dotted_quad(b@),
                t.len() <= i <= NTOP_BUF_LEN,
                s@ == t + Seq::new((i - t.len()) as nat, |k: int| '\0'),
            decreases NTOP_BUF_LEN - i,
        {
            push_char(&mut s, '\0');
            i = i + 1;
            assert(s@ =~= t + Seq::new((i - t.len()) as nat, |k: int| '\0'));
        }
        s
    }

    /// The address, as a number whose bytes in the target's byte order are the
    /// network-order bytes of the address that `addr` names; 0 when `addr` names
    /// none (of `addr` only what stands before a NUL counts).
    fn inet_pton(addr: &str) -> (r: u32)
        ensures
            match address_of_text(c_text(addr@)) {
                Some(b) => native_u32_bytes(r) == b,
                None => r == 0,
            },
    {
        match parse_dotted_quad(addr) {
            Some(b) => {
                proof {
                    lemma_address_of_text(b@);
                }
                u32_from_ne_bytes(b)
            },
            None => 0,
        }
    }
}

impl IpV4AddrSvc for IpV4Addr {
    /// A zeroed structure of family `AF_INET`.
    fn new() -> (r: IpV4Addr)
        ensures
            r@.sin_family == Some(SAFamily::AfInet),
            r@.sin_port@ == seq![0u8, 0u8],
            r@.sin_addr@ == seq![0u8, 0u8, 0u8, 0u8],
    {
        let mut addr_in = RawSockAddrIn::zeroed();
        addr_in.sin_family = Some(SAFamily::AfInet);
        IpV4Addr { addr_in }
    }

    /// Stores `addr` and `port` as they are: their bytes in the target's byte
    /// order.
    fn set(&mut self, addr: u32, port: u16)
        ensures
            final(self)@.sin_family == old(self)@.sin_family,
            final(self)@.sin_addr@ == native_u32_bytes(addr),
            final(self)@.sin_port@ == native_u16_bytes(port),
    {
        self.addr_in.sin_addr = u32_to_ne_bytes(addr);
        self.addr_in.sin_port = u16_to_ne_bytes(port);
    }
}

impl IpV4Addr {
    /// The structure, as plain values.
    pub fn raw(&self) -> (r: RawSockAddrIn)
        ensures
            r == self@,
    {
        self.addr_in
    }
}

/// What `inet_pton` reads from a text that names an address, `set` stores as the
/// address, and `inet_ntop` writes back as the same text: for any number whose
/// bytes in the target's order are the bytes of the address that `t` names, the
/// text of those bytes is `t`.
pub proof fn lemma_pton_ntop_roundtrip(t: Seq<char>, addr: u32)
    requires
        address_of_text(t) is Some,
        native_u32_bytes(addr) == address_of_text(t)->0,
    ensures
        dotted_quad(native_u32_bytes(addr)) == t,
{
}

} // verus!
