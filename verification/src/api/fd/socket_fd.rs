use std::rc::Rc;

use vstd::prelude::*;
use vstd::string::*;

use super::Fd;
use crate::api::addr::safamily::SAFamily;
use crate::api::addr::sockaddr_in::{self, SockAddrIn};
use crate::api::addr::SockAddrBase;
use crate::posix_fns::{c_text, dotted_quad, inet_ntop, lemma_address_of_text, lemma_dotted_quad_c_text};

verus! {

/// Why a call on a socket failed.
pub struct SockErr {
    msg: String,
}

impl View for SockErr {
    type V = Seq<char>;

    closed spec fn view(&self) -> Seq<char> {
        self.msg@
    }
}

impl SockErr {
    fn from_str(msg: &str) -> (r: SockErr)
        ensures
            r@ == msg@,
    {
        SockErr { msg: String::from_str(msg) }
    }

    /// The message.
    pub fn to_string(&self) -> (r: String)
        ensures
            r@ == self@,
    {
        self.msg.clone()
    }
}

/// What `socket` returning `raw_fd` means: a new descriptor, or a failure when it
/// is negative.
pub fn new_socket_outcome(raw_fd: i32) -> (r: Result<Rc<Fd>, SockErr>)
    ensures
        match r {
            Ok(fd) => raw_fd >= 0 && fd@ == raw_fd,
            Err(e) => raw_fd < 0 && e@ == "Failed to create a new socket."@,
        },
{
    if raw_fd < 0 {
        Err(SockErr::from_str("Failed to create a new socket."))
    } else {
        Ok(Rc::new(Fd::from_raw(raw_fd)))
    }
}

/// What `bind` returning `ret` means: a failure when it is negative.
pub fn bind_outcome(ret: i32) -> (r: Result<(), SockErr>)
    ensures
        match r {
            Ok(()) => ret >= 0,
            Err(e) => ret < 0 && e@ == "Failed to bind the socket."@,
        },
{
    if ret < 0 {
        Err(SockErr::from_str("Failed to bind the socket."))
    } else {
        Ok(())
    }
}

/// What `listen` returning `ret` means: a failure when it is negative.
pub fn listen_outcome(ret: i32) -> (r: Result<(), SockErr>)
    ensures
        match r {
            Ok(()) => ret >= 0,
            Err(e) => ret < 0 && e@ == "Failed to make the socket listen."@,
        },
{
    if ret < 0 {
        Err(SockErr::from_str("Failed to make the socket listen."))
    } else {
        Ok(())
    }
}

/// What `accept` returning `raw_fd` means, where `head` are the first four bytes
/// of the address structure it filled in: a failure when `raw_fd` is negative;
/// otherwise the new descriptor and the peer's address, whose text is that of
/// `head` (the bytes that `inet_ntop` is pointed at), whose address is `head`,
/// and whose port is 0. (When that text has 15 characters, it and its NUL do not
/// fit in the 15 bytes written to.)
pub fn accept_outcome(raw_fd: i32, head: &[u8; 4]) -> (r: Result<(Rc<Fd>, SockAddrIn), SockErr>)
    requires
        raw_fd >= 0 ==> dotted_quad(head@).len() < 15,
    ensures
        match r {
            Ok((fd, cliaddr)) => {
                &&& raw_fd >= 0
                &&& fd@ == raw_fd
                &&& cliaddr@.raw.sin_family == Some(SAFamily::AfInet)
                &&& cliaddr@.raw.sin_port@ == seq![0u8, 0u8]
                &&& cliaddr@.raw.sin_addr@ == head@
                &&& cliaddr@.ip == Some(dotted_quad(head@))
                &&& cliaddr@.port == Some(0u16)
            },
            Err(e) => raw_fd < 0 && e@ == "Failed to accept."@,
        },
{
    if raw_fd < 0 {
        return Err(SockErr::from_str("Failed to accept."));
    }
    let mut cliaddr = sockaddr_in::new();
    let addrstr = inet_ntop(head, 16).unwrap();
    proof {
        lemma_address_of_text(head@);
        assert(c_text(addrstr@) == addrstr@) by {
            lemma_dotted_quad_c_text(head@);
        }
    }
    cliaddr.set(SAFamily::AfInet, Some(addrstr.as_str()), 0);
    assert(cliaddr@.raw.sin_port@ =~= seq![0u8, 0u8]);
    Ok((Rc::new(Fd::from_raw(raw_fd)), cliaddr))
}

} // verus!
