use std::rc::Rc;

use vstd::prelude::*;
use vstd::string::*;

use super::addr::sockaddr_in::SockAddrIn;
use super::fd::{Fd, FdWrapper};

verus! {

/// The kinds of socket.
#[derive(Copy, Clone, PartialEq, Eq, Structural, Debug)]
pub enum SockType {
    SockStream,
    SockDgram,
    SockRaw,
}

/// Why a step of a socket's life was refused.
#[derive(Debug)]
pub struct SockErr {
    msg: String,
}

impl View for SockErr {
    type V = Seq<char>;

    closed spec fn view(&self) -> Seq<char> {
        self.msg@
    }
}

impl SockErr {
    /// The message.
    pub fn to_string(&self) -> (r: String)
        ensures
            r@ == self@,
    {
        self.msg.clone()
    }
}

/// Where a socket stands in its life: just opened, bound to an address,
/// listening, or accepted from a peer at the address it holds.
pub enum State {
    New,
    Bound,
    Listen,
    Accept(Rc<SockAddrIn>),
}

/// The state after a bind: a new socket becomes bound; any other stays as it
/// is.
pub open spec fn bound_state(s: State) -> State {
    match s {
        State::New => State::Bound,
        _ => s,
    }
}

/// The state after a listen: a bound socket listens; a new one is refused; any
/// other stays as it is.
pub open spec fn listening_state(s: State) -> Option<State> {
    match s {
        State::New => None,
        State::Bound => Some(State::Listen),
        _ => Some(s),
    }
}

/// A socket: its descriptor, while it holds one, and its state.
pub struct Socket {
    fd: Option<Rc<Fd>>,
    state: State,
}

impl Socket {
    /// The socket of a connection accepted on `conn` from the peer at `cliaddr`.
    pub closed spec fn accepted(conn: Rc<Fd>, cliaddr: SockAddrIn) -> Socket {
        Socket { fd: Some(conn), state: State::Accept(Rc::new(cliaddr)) }
    }

    pub proof fn lemma_accepted(conn: Rc<Fd>, cliaddr: SockAddrIn)
        ensures
            Self::accepted(conn, cliaddr).wrapped_fd() == Some(conn@),
            Self::accepted(conn, cliaddr).state() == State::Accept(Rc::new(cliaddr)),
    {
    }

    /// The state.
    pub closed spec fn state(&self) -> State {
        self.state
    }

    /// The state.
    pub fn current_state(&self) -> (r: &State)
        ensures
            *r == self.state(),
    {
        &self.state
    }

    /// A new socket on the descriptor `fd`.
    pub fn new(fd: Rc<Fd>) -> (r: Box<Self>)
        ensures
            r.wrapped_fd() == Some(fd@),
            r.state() is New,
    {
        Box::new(Self { fd: Some(fd), state: State::New })
    }

    /// Whether binding has to ask the system: only a new socket is bound.
    pub fn needs_bind(&self) -> (r: bool)
        ensures
            r == self.state() is New,
    {
        match self.state {
            State::New => true,
            _ => false,
        }
    }

    /// The socket once bound (the system having bound a new one, which has to
    /// hold a descriptor for that): a new socket becomes bound; any other stays as
    /// it is.
    pub fn bind(self: Box<Self>) -> (r: Box<Self>)
        requires
            self.state() is New ==> self.wrapped_fd() is Some,
        ensures
            r.wrapped_fd() == self.wrapped_fd(),
            r.state() == bound_state(self.state()),
    {
        match self.state {
            State::New => Box::new(Self { fd: self.fd, state: State::Bound }),
            _ => self,
        }
    }

    /// Whether listening has to ask the system: only a bound socket starts to
    /// listen.
    pub fn needs_listen(&self) -> (r: bool)
        ensures
            r == self.state() is Bound,
    {
        match self.state {
            State::Bound => true,
            _ => false,
        }
    }

    /// The socket once listening (the system having made a bound one, which has
    /// to hold a descriptor for that, listen): a bound socket listens; a new one is
    /// refused, for it has to be bound first; any other stays as it is.
    pub fn listen(self: Box<Self>) -> (r: Result<Box<Self>, SockErr>)
        requires
            self.state() is Bound ==> self.wrapped_fd() is Some,
        ensures
            match listening_state(self.state()) {
                Some(s) => r matches Ok(sock) && sock.state() == s && sock.wrapped_fd()
                    == self.wrapped_fd(),
                None => r matches Err(e) && e@
                    == "Need to bind the socket before making it listening."@,
            },
    {
        match self.state {
            State::Bound => Ok(Box::new(Self { fd: self.fd, state: State::Listen })),
            State::New => Err(
                SockErr {
                    msg: String::from_str("Need to bind the socket before making it listening."),
                },
            ),
            _ => Ok(self),
        }
    }

    /// The socket of a connection that this listening socket accepted: on the
    /// descriptor `conn`, from the peer at `cliaddr`.
    pub fn accept(self: &Box<Self>, conn: Rc<Fd>, cliaddr: SockAddrIn) -> (r: Box<Self>)
        requires
            self.wrapped_fd() is Some,
        ensures
            *r == Self::accepted(conn, cliaddr),
            r.wrapped_fd() == Some(conn@),
            r.state() == State::Accept(Rc::new(cliaddr)),
    {
        Box::new(Socket { fd: Some(conn), state: State::Accept(Rc::new(cliaddr)) })
    }
}

impl FdWrapper for Socket {
    closed spec fn wrapped_fd(&self) -> Option<i32> {
        match self.fd {
            Some(f) => Some(f@),
            None => None,
        }
    }

    fn fd(&self) -> (r: Option<&Rc<Fd>>) {
        self.fd.as_ref()
    }

    fn take_fd(&mut self) -> (r: Option<Rc<Fd>>)
        ensures
            final(self).state() == old(self).state(),
    {
        self.fd.take()
    }

    fn set_fd(&mut self, fd: Rc<Fd>)
        ensures
            final(self).state() == old(self).state(),
    {
        self.fd = Some(fd);
    }
}

/// A socket's life goes one way: binding makes a new socket bound and leaves any
/// other as it is, so binding twice is binding once; a bound socket can then
/// listen, and listening again changes nothing; a new socket cannot listen.
pub proof fn lemma_socket_life(s: State)
    ensures
        bound_state(bound_state(s)) == bound_state(s),
        listening_state(bound_state(State::New)) == Some(State::Listen),
        listening_state(State::New) is None,
        listening_state(State::Listen) == Some(State::Listen),
        listening_state(s) matches Some(t) ==> listening_state(t) == Some(t),
{
}

/// Binding changes only a new socket, which becomes bound; a socket in any other
/// state (bound, listening, or accepted from a peer) keeps its state.
pub proof fn lemma_bind_changes_only_new(s: State)
    ensures
        bound_state(State::New) is Bound,
        !(s is New) ==> bound_state(s) == s,
        bound_state(State::Listen) is Listen,
{
}

/// Listening refuses a new socket and no other: a bound socket comes to listen,
/// and a socket in any other state (listening, or accepted from a peer) is
/// accepted as it is.
pub proof fn lemma_listen_refuses_only_new(s: State)
    ensures
        listening_state(s) is None <==> s is New,
        listening_state(State::Bound) == Some(State::Listen),
        !(s is New) && !(s is Bound) ==> listening_state(s) == Some(s),
{
}

} // verus!
