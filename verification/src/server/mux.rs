//! The echo server: one listening socket and its clients, served one `select`
//! round at a time. The server decides; whoever runs it performs each action it
//! asks for and hands back what came of it.
use std::collections::VecDeque;
use std::rc::Rc;

use vstd::prelude::*;

use crate::api::addr::safamily::SAFamily;
use crate::api::addr::sockaddr_in::{self, network_port, SockAddrIn};
use crate::api::addr::SockAddrBase;
use crate::api::fd::socket_fd::SockErr;
use crate::api::fd::{Fd, FdSet, FdWrapper, FD_SETSIZE};
use crate::api::sock::{bound_state, State, Socket};

verus! {

/// The port that the server listens on.
pub const PORT: u16 = 9877;

/// How many connections may wait to be accepted.
pub const BACKLOG: i32 = 1024;

/// Where the server stands: what it last asked for, or that it stopped.
pub enum Phase {
    /// Made, not launched yet.
    Idle,
    /// Waiting for the listening socket to be bound.
    Binding,
    /// Waiting for the listening socket to listen.
    Listening,
    /// Waiting for descriptors of the read set to become readable.
    Selecting,
    /// Waiting for a connection to be accepted.
    Accepting,
    /// Waiting for what the current client sent.
    Reading,
    /// Waiting for the echo to the current client to be written.
    Writing,
    /// Waiting for the current client's descriptor to be closed.
    Closing,
    /// Stopped for good.
    Stopped,
}

/// Why the server stopped.
pub enum StopReason {
    /// A call on a socket failed, with this message.
    Failed(String),
    /// `select` failed.
    SelectFailed,
    /// This descriptor cannot go into a descriptor set.
    FdOutOfRange(i32),
}

/// What came of the last action.
pub enum MuxEvent {
    /// Start serving.
    Launch,
    /// The outcome of binding the listening socket.
    Bound(Result<(), SockErr>),
    /// The outcome of making it listen.
    Listened(Result<(), SockErr>),
    /// What `select` returned, and the descriptors of the read set that it
    /// reported readable.
    Selected(i32, FdSet),
    /// The outcome of accepting a connection: its descriptor and the peer's
    /// address.
    Accepted(Result<(Rc<Fd>, SockAddrIn), SockErr>),
    /// What the current client sent: `None` when it closed the connection.
    Received(Option<String>),
    /// The write or the close is done.
    Done,
}

/// What the server asks for next.
pub enum MuxAction {
    /// Bind this descriptor to the server's address.
    Bind(i32),
    /// Make this descriptor listen, with this backlog.
    Listen(i32, i32),
    /// Wait until descriptors of the read set are readable; the number is the
    /// first argument of `select`.
    Select(i32),
    /// Accept a connection on this descriptor.
    Accept(i32),
    /// Read what this descriptor's peer sent.
    Read(i32),
    /// Write this text back to this descriptor.
    Write(i32, String),
    /// Close this descriptor.
    Close(i32),
    /// Stop.
    Stop(StopReason),
}

/// The number of the descriptor that `s` holds.
pub open spec fn fd_of(s: Box<Socket>) -> int {
    s.wrapped_fd()->0 as int
}

/// `s` holds a descriptor that can go into a descriptor set.
pub open spec fn fd_in_range(s: Box<Socket>) -> bool {
    s.wrapped_fd() matches Some(fd) && 0 <= fd < FD_SETSIZE
}

/// The descriptor of `s` is in `set`.
pub open spec fn is_ready(set: Set<int>, s: Box<Socket>) -> bool {
    set.contains(fd_of(s))
}

/// The place of the first client, from the `k`-th on and before the `n`-th, whose
/// descriptor is in `rfds`; `n` when there is none.
pub open spec fn first_ready(clis: Seq<Box<Socket>>, rfds: Set<int>, k: int, n: int) -> int
    decreases n - k,
{
    if k >= n {
        n
    } else if is_ready(rfds, clis[k]) {
        k
    } else {
        first_ready(clis, rfds, k + 1, n)
    }
}

/// The set holds `members` and has the bound `bound`.
pub open spec fn holds(a: FdSet, members: Set<int>, bound: int) -> bool {
    a.members() == members && a.bound() == bound
}

/// The two sets hold the same descriptors and have the same bound.
pub open spec fn same_set(a: FdSet, b: FdSet) -> bool {
    holds(a, b.members(), b.bound())
}

/// The listening socket and the watched descriptors are kept.
pub open spec fn keeps_listener(pre: IoMuxServer, post: IoMuxServer) -> bool {
    &&& post.listener().wrapped_fd() == pre.listener().wrapped_fd()
    &&& post.listener().state() == pre.listener().state()
    &&& post.server_addr() == pre.server_addr()
}

/// A new round begins: the read set becomes the set of all watched descriptors,
/// and `select` is asked to wait on it.
pub open spec fn round_started(members: Set<int>, bound: int, post: IoMuxServer, act: MuxAction) -> bool {
    &&& post.phase() is Selecting
    &&& holds(post.read_fds(), members, bound)
    &&& holds(post.fd_sets(), members, bound)
    &&& post.current() is None
    &&& post.remaining() == 0
    &&& act == MuxAction::Select(bound as i32)
}

/// The first `n` clients of `clis` are visited in turn: those whose descriptor is
/// not in the read set go to the back of the queue, until one is found whose
/// descriptor is, which is read from; when none is, a new round begins.
pub open spec fn visited(
    clis: Seq<Box<Socket>>,
    n: int,
    members: Set<int>,
    bound: int,
    ready: Set<int>,
    ready_bound: int,
    post: IoMuxServer,
    act: MuxAction,
) -> bool {
    let k = first_ready(clis, ready, 0, n);
    if k < n {
        &&& post.clients() == clis.subrange(k + 1, clis.len() as int) + clis.take(k)
        &&& post.current() == Some(clis[k])
        &&& post.remaining() == n - k - 1
        &&& post.phase() is Reading
        &&& holds(post.read_fds(), ready, ready_bound)
        &&& holds(post.fd_sets(), members, bound)
        &&& act == MuxAction::Read(fd_of(clis[k]) as i32)
    } else {
        &&& post.clients() == clis.skip(n) + clis.take(n)
        &&& round_started(members, bound, post, act)
    }
}

/// The bound of a set once `fd` is put in with `FdSet::set`.
pub open spec fn raised(bound: int, fd: int) -> int {
    if bound < fd + 1 {
        fd + 1
    } else {
        bound
    }
}

/// The server stops, and nothing else changes.
pub open spec fn stopped(pre: IoMuxServer, post: IoMuxServer) -> bool {
    &&& post.phase() is Stopped
    &&& post.clients() == pre.clients()
    &&& post.current() == pre.current()
    &&& post.remaining() == pre.remaining()
    &&& same_set(post.fd_sets(), pre.fd_sets())
    &&& same_set(post.read_fds(), pre.read_fds())
}

/// Only the phase changes, to `phase`, and `act` is asked for.
pub open spec fn asks(pre: IoMuxServer, post: IoMuxServer, act: MuxAction, phase: Phase, a: MuxAction) -> bool {
    &&& post.phase() == phase
    &&& act == a
    &&& keeps_listener(pre, post)
    &&& post.clients() == pre.clients()
    &&& post.current() == pre.current()
    &&& post.remaining() == pre.remaining()
    &&& same_set(post.fd_sets(), pre.fd_sets())
    &&& same_set(post.read_fds(), pre.read_fds())
}

/// The event fits what the server is waiting for.
pub open spec fn expects(phase: Phase, ev: MuxEvent) -> bool {
    match phase {
        Phase::Idle => ev is Launch,
        Phase::Binding => ev is Bound,
        Phase::Listening => ev is Listened,
        Phase::Selecting => ev matches MuxEvent::Selected(_, ready) && ready.wf(),
        Phase::Accepting => ev is Accepted,
        Phase::Reading => ev is Received,
        Phase::Writing => ev is Done,
        Phase::Closing => ev is Done,
        Phase::Stopped => false,
    }
}

/// What the server does on `ev`: from `pre` it comes to `post`, and asks for `act`.
pub open spec fn next(pre: IoMuxServer, ev: MuxEvent, post: IoMuxServer, act: MuxAction) -> bool {
    let l = pre.listener().wrapped_fd()->0;
    match ev {
        MuxEvent::Launch => asks(pre, post, act, Phase::Binding, MuxAction::Bind(l)),
        MuxEvent::Bound(Err(e)) => {
            &&& stopped(pre, post)
            &&& keeps_listener(pre, post)
            &&& act matches MuxAction::Stop(StopReason::Failed(m)) && m@ == e@
        },
        MuxEvent::Bound(Ok(())) => {
            &&& post.listener().wrapped_fd() == pre.listener().wrapped_fd()
            &&& post.listener().state() == bound_state(pre.listener().state())
            &&& post.server_addr() == pre.server_addr()
            &&& post.phase() is Listening
            &&& act == MuxAction::Listen(l, BACKLOG)
            &&& post.clients() == pre.clients()
            &&& post.current() == pre.current()
            &&& post.remaining() == pre.remaining()
            &&& same_set(post.fd_sets(), pre.fd_sets())
            &&& same_set(post.read_fds(), pre.read_fds())
        },
        MuxEvent::Listened(Err(e)) => {
            &&& stopped(pre, post)
            &&& keeps_listener(pre, post)
            &&& act matches MuxAction::Stop(StopReason::Failed(m)) && m@ == e@
        },
        MuxEvent::Listened(Ok(())) => {
            &&& post.listener().wrapped_fd() == pre.listener().wrapped_fd()
            &&& post.listener().state() is Listen
            &&& post.server_addr() == pre.server_addr()
            &&& post.clients() == pre.clients()
            &&& if 0 <= l < FD_SETSIZE {
                round_started(
                    pre.fd_sets().members().insert(l as int),
                    raised(pre.fd_sets().bound(), l as int),
                    post,
                    act,
                )
            } else {
                &&& stopped(pre, post)
                &&& act == MuxAction::Stop(StopReason::FdOutOfRange(l))
            }
        },
        MuxEvent::Selected(ret, ready) => if ret < 0 {
            &&& stopped(pre, post)
            &&& keeps_listener(pre, post)
            &&& act == MuxAction::Stop(StopReason::SelectFailed)
        } else {
            let readable = pre.read_fds().members().intersect(ready.members());
            &&& keeps_listener(pre, post)
            &&& if readable.contains(l as int) {
                &&& post.phase() is Accepting
                &&& act == MuxAction::Accept(l)
                &&& holds(post.read_fds(), readable, pre.read_fds().bound())
                &&& post.clients() == pre.clients()
                &&& post.current() == pre.current()
                &&& same_set(post.fd_sets(), pre.fd_sets())
            } else {
                visited(
                    pre.clients(),
                    pre.clients().len() as int,
                    pre.fd_sets().members(),
                    pre.fd_sets().bound(),
                    readable,
                    pre.read_fds().bound(),
                    post,
                    act,
                )
            }
        },
        MuxEvent::Accepted(Err(e)) => {
            &&& stopped(pre, post)
            &&& keeps_listener(pre, post)
            &&& act matches MuxAction::Stop(StopReason::Failed(m)) && m@ == e@
        },
        MuxEvent::Accepted(Ok((conn, cliaddr))) => {
            &&& keeps_listener(pre, post)
            &&& if 0 <= conn@ < FD_SETSIZE {
                let clis = pre.clients().push(Box::new(Socket::accepted(conn, cliaddr)));
                visited(
                    clis,
                    clis.len() as int,
                    pre.fd_sets().members().insert(conn@ as int),
                    raised(pre.fd_sets().bound(), conn@ as int),
                    pre.read_fds().members(),
                    pre.read_fds().bound(),
                    post,
                    act,
                )
            } else {
                &&& stopped(pre, post)
                &&& act == MuxAction::Stop(StopReason::FdOutOfRange(conn@))
            }
        },
        MuxEvent::Received(Some(msg)) => {
            &&& post.phase() is Writing
            &&& act matches MuxAction::Write(fd, text) && fd == fd_of(pre.current()->0) && text@ == msg@
            &&& keeps_listener(pre, post)
            &&& post.clients() == pre.clients()
            &&& post.current() == pre.current()
            &&& post.remaining() == pre.remaining()
            &&& same_set(post.fd_sets(), pre.fd_sets())
            &&& same_set(post.read_fds(), pre.read_fds())
        },
        MuxEvent::Received(None) => {
            &&& post.phase() is Closing
            &&& act == MuxAction::Close(fd_of(pre.current()->0) as i32)
            &&& keeps_listener(pre, post)
            &&& post.clients() == pre.clients()
            &&& post.current() is None
            &&& post.remaining() == pre.remaining()
            &&& same_set(post.fd_sets(), pre.fd_sets())
            &&& same_set(post.read_fds(), pre.read_fds())
        },
        MuxEvent::Done => {
            &&& keeps_listener(pre, post)
            &&& if pre.phase() is Writing {
                visited(
                    pre.clients().push(pre.current()->0),
                    pre.remaining(),
                    pre.fd_sets().members(),
                    pre.fd_sets().bound(),
                    pre.read_fds().members(),
                    pre.read_fds().bound(),
                    post,
                    act,
                )
            } else {
                visited(
                    pre.clients(),
                    pre.remaining(),
                    pre.fd_sets().members(),
                    pre.fd_sets().bound(),
                    pre.read_fds().members(),
                    pre.read_fds().bound(),
                    post,
                    act,
                )
            }
        },
    }
}

proof fn lemma_first_ready(clis: Seq<Box<Socket>>, rfds: Set<int>, k: int, n: int, j: int)
    requires
        0 <= k <= j <= n,
        forall|i: int| k <= i < j ==> !is_ready(rfds, #[trigger] clis[i]),
        j == n || is_ready(rfds, clis[j]),
    ensures
        first_ready(clis, rfds, k, n) == j,
    decreases j - k,
{
    if k < j {
        lemma_first_ready(clis, rfds, k + 1, n, j);
    }
}

/// Every client of `clis` holds a descriptor that can go in a set and is in
/// `members`.
pub open spec fn all_watched(clis: Seq<Box<Socket>>, members: Set<int>) -> bool {
    forall|i: int|
        0 <= i < clis.len() ==> fd_in_range(#[trigger] clis[i]) && members.contains(fd_of(clis[i]))
}

/// The echo server.
pub struct IoMuxServer {
    sock: Option<Box<Socket>>,
    addr: SockAddrIn,
    clis: VecDeque<Box<Socket>>,
    fdsets: FdSet,
    rfds: FdSet,
    current: Option<Box<Socket>>,
    remaining: usize,
    phase: Phase,
}

impl IoMuxServer {
    /// The listening socket.
    pub closed spec fn listener(self) -> Box<Socket> {
        self.sock->0
    }

    /// The server holds its listening socket.
    pub closed spec fn has_listener(self) -> bool {
        self.sock is Some
    }

    /// The address the server listens on.
    pub closed spec fn server_addr(self) -> SockAddrIn {
        self.addr
    }

    /// The clients waiting in the queue, front first.
    pub closed spec fn clients(self) -> Seq<Box<Socket>> {
        self.clis@
    }

    /// All watched descriptors.
    pub closed spec fn fd_sets(self) -> FdSet {
        self.fdsets
    }

    /// The read set of the round.
    pub closed spec fn read_fds(self) -> FdSet {
        self.rfds
    }

    /// The client being served, out of the queue.
    pub closed spec fn current(self) -> Option<Box<Socket>> {
        self.current
    }

    /// How many clients of the queue are still to be visited this round.
    pub closed spec fn remaining(self) -> int {
        self.remaining as int
    }

    pub closed spec fn phase(self) -> Phase {
        self.phase
    }

    /// What holds of the server whatever it went through: the listening socket is
    /// there, with a descriptor; once it listens, that descriptor is watched; every
    /// client holds a descriptor that is watched; a client is being served exactly
    /// while its message is read or echoed; and no more clients are left to visit
    /// than are in the queue.
    pub open spec fn inv(self) -> bool {
        let l = self.listener();
        &&& self.fd_sets().wf()
        &&& self.read_fds().wf()
        &&& self.has_listener()
        &&& l.wrapped_fd() is Some
        &&& self.phase() is Idle ==> l.state() is New
        &&& self.phase() is Binding ==> l.state() is New
        &&& self.phase() is Listening ==> l.state() is Bound
        &&& (self.phase() is Selecting || self.phase() is Accepting || self.phase() is Reading
            || self.phase() is Writing || self.phase() is Closing) ==> {
            &&& l.state() is Listen
            &&& fd_in_range(l)
            &&& self.fd_sets().members().contains(fd_of(l))
        }
        &&& all_watched(self.clients(), self.fd_sets().members())
        &&& (self.phase() is Reading || self.phase() is Writing) <==> self.current() is Some
        &&& self.current() matches Some(c) ==> fd_in_range(c) && self.fd_sets().members().contains(
            fd_of(c),
        )
        &&& 0 <= self.remaining() <= self.clients().len()
    }

    /// A server that will listen on the descriptor `listener`, at any address on
    /// port `PORT`, with no clients yet.
    pub fn new(listener: Rc<Fd>) -> (r: Self)
        ensures
            r.inv(),
            r.phase() is Idle,
            r.listener().wrapped_fd() == Some(listener@),
            r.listener().state() is New,
            r.server_addr()@.raw.sin_family == Some(SAFamily::AfInet),
            r.server_addr()@.raw.sin_port@ == network_port(PORT),
            r.server_addr()@.raw.sin_addr@ == seq![0u8, 0u8, 0u8, 0u8],
            r.server_addr()@.ip == Some("*"@),
            r.server_addr()@.port == Some(PORT),
            r.clients().len() == 0,
            r.fd_sets().members() == Set::<int>::empty(),
            r.fd_sets().bound() == 0,
    {
        let mut addr = sockaddr_in::new();
        addr.set(SAFamily::AfInet, None, PORT);
        IoMuxServer {
            sock: Some(Socket::new(listener)),
            addr,
            clis: VecDeque::new(),
            fdsets: FdSet::new(),
            rfds: FdSet::new(),
            current: None,
            remaining: 0,
            phase: Phase::Idle,
        }
    }

    /// The address the server listens on.
    pub fn addr(&self) -> (r: &SockAddrIn)
        ensures
            *r == self.server_addr(),
    {
        &self.addr
    }

    /// The read set that `select` is to wait on.
    pub fn read_set(&self) -> (r: &FdSet)
        ensures
            *r == self.read_fds(),
    {
        &self.rfds
    }

    /// Where the server stands.
    pub fn is_stopped(&self) -> (r: bool)
        ensures
            r == self.phase() is Stopped,
    {
        match self.phase {
            Phase::Stopped => true,
            _ => false,
        }
    }

    fn listener_fd(&self) -> (r: i32)
        requires
            self.sock is Some,
            self.listener().wrapped_fd() is Some,
        ensures
            Some(r) == self.listener().wrapped_fd(),
    {
        self.sock.as_ref().unwrap().fd().unwrap().raw_fd()
    }

    /// Begins a round.
    fn start_round(&mut self) -> (act: MuxAction)
        requires
            old(self).inv(),
            old(self).listener().state() is Listen,
            fd_in_range(old(self).listener()),
            old(self).fd_sets().members().contains(fd_of(old(self).listener())),
            old(self).current() is None,
            old(self).remaining() == 0,
        ensures
            final(self).inv(),
            keeps_listener(*old(self), *final(self)),
            final(self).clients() == old(self).clients(),
            round_started(old(self).fd_sets().members(), old(self).fd_sets().bound(), *final(self), act),
    {
        self.rfds = self.fdsets.clone();
        self.phase = Phase::Selecting;
        MuxAction::Select(FdSet::select_nfds(Some(&self.rfds), None, None))
    }
}

impl IoMuxServer {
    /// Visits the clients left for the round, in turn, until one is readable; when
    /// none is, begins a new round.
    fn visit(&mut self) -> (act: MuxAction)
        requires
            old(self).fd_sets().wf(),
            old(self).read_fds().wf(),
            old(self).sock is Some,
            old(self).listener().state() is Listen,
            fd_in_range(old(self).listener()),
            old(self).fd_sets().members().contains(fd_of(old(self).listener())),
            all_watched(old(self).clients(), old(self).fd_sets().members()),
            old(self).current() is None,
            0 <= old(self).remaining() <= old(self).clients().len(),
            !(old(self).phase() is Stopped),
        ensures
            final(self).inv(),
            keeps_listener(*old(self), *final(self)),
            visited(
                old(self).clients(),
                old(self).remaining(),
                old(self).fd_sets().members(),
                old(self).fd_sets().bound(),
                old(self).read_fds().members(),
                old(self).read_fds().bound(),
                *final(self),
                act,
            ),
    {
        let ghost clis0 = self.clis@;
        let ghost n = self.remaining as int;
        let ghost rfds = self.rfds.members();
        let ghost mut j: int = 0;
        while self.remaining > 0
            invariant
                self.fdsets == old(self).fdsets,
                self.rfds == old(self).rfds,
                self.sock == old(self).sock,
                self.addr == old(self).addr,
                old(self).sock is Some,
                old(self).listener().state() is Listen,
                fd_in_range(old(self).listener()),
                old(self).fd_sets().members().contains(fd_of(old(self).listener())),
                !(old(self).phase() is Stopped),
                self.current is None,
                self.phase == old(self).phase,
                self.fdsets.wf(),
                self.rfds.wf(),
                rfds == self.rfds.members(),
                clis0 == old(self).clis@,
                n == old(self).remaining,
                0 <= j <= n <= clis0.len(),
                self.remaining == n - j,
                self.clis@ == clis0.skip(j) + clis0.take(j),
                forall|i: int| 0 <= i < j ==> !is_ready(rfds, #[trigger] clis0[i]),
                all_watched(clis0, self.fdsets.members()),
            decreases self.remaining,
        {
            let c = self.clis.pop_front().unwrap();
            assert(c == clis0[j]);
            self.remaining = self.remaining - 1;
            if self.rfds.is_set(&*c) {
                let fd = c.fd().unwrap().raw_fd();
                self.current = Some(c);
                self.phase = Phase::Reading;
                proof {
                    lemma_first_ready(clis0, rfds, 0, n, j);
                    assert(self.clis@ =~= clis0.subrange(j + 1, clis0.len() as int) + clis0.take(j));
                    assert forall|i: int| 0 <= i < self.clis@.len() implies fd_in_range(
                        #[trigger] self.clis@[i],
                    ) && self.fdsets.members().contains(fd_of(self.clis@[i])) by {
                        if i < clis0.len() - j - 1 {
                            assert(self.clis@[i] == clis0[i + j + 1]);
                        } else {
                            assert(self.clis@[i] == clis0[i - (clis0.len() - j - 1)]);
                        }
                    }
                    assert(fd_in_range(clis0[j]));
                }
                return MuxAction::Read(fd);
            }
            self.clis.push_back(c);
            proof {
                j = j + 1;
                assert(self.clis@ =~= clis0.skip(j) + clis0.take(j));
            }
        }
        proof {
            lemma_first_ready(clis0, rfds, 0, n, n);
            assert forall|i: int| 0 <= i < self.clis@.len() implies fd_in_range(
                #[trigger] self.clis@[i],
            ) && self.fdsets.members().contains(fd_of(self.clis@[i])) by {
                if i < clis0.len() - n {
                    assert(self.clis@[i] == clis0[i + n]);
                } else {
                    assert(self.clis@[i] == clis0[i - (clis0.len() - n)]);
                }
            }
        }
        self.phase = Phase::Selecting;
        self.start_round()
    }
}

impl IoMuxServer {
    /// Takes in what came of the last action, and tells the next one: the
    /// listening socket is bound, then made to listen, and watched; then, round
    /// after round, the server waits until watched descriptors are readable,
    /// accepts a connection when the listening socket is readable (and watches
    /// it), and visits the clients in turn, echoing back what each readable one
    /// sent, or closing and dropping it when it closed the connection. Any failure
    /// stops the server.
    pub fn step(&mut self, ev: MuxEvent) -> (act: MuxAction)
        requires
            old(self).inv(),
            expects(old(self).phase(), ev),
        ensures
            final(self).inv(),
            next(*old(self), ev, *final(self), act),
    {
        match ev {
            MuxEvent::Launch => {
                let l = self.listener_fd();
                self.phase = Phase::Binding;
                MuxAction::Bind(l)
            },
            MuxEvent::Bound(res) => match res {
                Err(e) => {
                    self.phase = Phase::Stopped;
                    MuxAction::Stop(StopReason::Failed(e.to_string()))
                },
                Ok(()) => {
                    let sock = self.sock.take().unwrap();
                    self.sock = Some(sock.bind());
                    self.phase = Phase::Listening;
                    MuxAction::Listen(self.listener_fd(), BACKLOG)
                },
            },
            MuxEvent::Listened(res) => match res {
                Err(e) => {
                    self.phase = Phase::Stopped;
                    MuxAction::Stop(StopReason::Failed(e.to_string()))
                },
                Ok(()) => {
                    let sock = self.sock.take().unwrap();
                    self.sock = Some(sock.listen().expect("Something wrong from Bound to Listen."));
                    let l = self.listener_fd();
                    if l < 0 || l >= FD_SETSIZE {
                        self.phase = Phase::Stopped;
                        return MuxAction::Stop(StopReason::FdOutOfRange(l));
                    }
                    self.fdsets.set(&**self.sock.as_ref().unwrap());
                    self.phase = Phase::Selecting;
                    self.remaining = 0;
                    self.start_round()
                },
            },
            MuxEvent::Selected(ret, ready) => {
                if ret < 0 {
                    self.phase = Phase::Stopped;
                    return MuxAction::Stop(StopReason::SelectFailed);
                }
                self.rfds.keep_only(&ready);
                let l = self.listener_fd();
                if self.rfds.contains(l) {
                    self.phase = Phase::Accepting;
                    MuxAction::Accept(l)
                } else {
                    self.remaining = self.clis.len();
                    self.visit()
                }
            },
            MuxEvent::Accepted(res) => match res {
                Err(e) => {
                    self.phase = Phase::Stopped;
                    MuxAction::Stop(StopReason::Failed(e.to_string()))
                },
                Ok((conn, cliaddr)) => {
                    let fd = conn.raw_fd();
                    if fd < 0 || fd >= FD_SETSIZE {
                        self.phase = Phase::Stopped;
                        return MuxAction::Stop(StopReason::FdOutOfRange(fd));
                    }
                    let conn_sock = self.sock.as_ref().unwrap().accept(conn, cliaddr);
                    self.fdsets.set(&*conn_sock);
                    self.clis.push_back(conn_sock);
                    self.remaining = self.clis.len();
                    self.visit()
                },
            },
            MuxEvent::Received(msg) => {
                let fd = self.current.as_ref().unwrap().fd().unwrap().raw_fd();
                match msg {
                    Some(msg) => {
                        self.phase = Phase::Writing;
                        MuxAction::Write(fd, msg)
                    },
                    None => {
                        self.current = None;
                        self.phase = Phase::Closing;
                        MuxAction::Close(fd)
                    },
                }
            },
            MuxEvent::Done => {
                if let Some(c) = self.current.take() {
                    self.clis.push_back(c);
                }
                self.visit()
            },
        }
    }
}

/// A server, once launched, bound and made to listen, watches its listening
/// descriptor alone and waits for it to become readable.
pub proof fn lemma_startup(
    s0: IoMuxServer,
    s1: IoMuxServer,
    s2: IoMuxServer,
    s3: IoMuxServer,
    a1: MuxAction,
    a2: MuxAction,
    a3: MuxAction,
)
    requires
        s0.inv(),
        s0.phase() is Idle,
        s0.fd_sets().members() == Set::<int>::empty(),
        s0.fd_sets().bound() == 0,
        0 <= s0.listener().wrapped_fd()->0 < FD_SETSIZE,
        next(s0, MuxEvent::Launch, s1, a1),
        next(s1, MuxEvent::Bound(Ok(())), s2, a2),
        next(s2, MuxEvent::Listened(Ok(())), s3, a3),
    ensures
        ({
            let l = s0.listener().wrapped_fd()->0;
            &&& a1 == MuxAction::Bind(l)
            &&& a2 == MuxAction::Listen(l, BACKLOG)
            &&& a3 == MuxAction::Select((l + 1) as i32)
            &&& s3.phase() is Selecting
            &&& s3.listener().wrapped_fd() == Some(l)
            &&& s3.listener().state() is Listen
            &&& s3.fd_sets().members() == set![l as int]
            &&& s3.read_fds().members() == set![l as int]
        }),
{
    let l = s0.listener().wrapped_fd()->0;
    assert(s1.listener().state() is New);
    assert(s2.listener().state() is Bound);
    assert(Set::<int>::empty().insert(l as int) =~= set![l as int]);
}

/// A round in which no client is readable visits them all and leaves the queue
/// as it was, then begins the next round.
pub proof fn lemma_quiet_round(
    clis: Seq<Box<Socket>>,
    members: Set<int>,
    bound: int,
    ready: Set<int>,
    ready_bound: int,
    post: IoMuxServer,
    act: MuxAction,
)
    requires
        forall|i: int| 0 <= i < clis.len() ==> !is_ready(ready, #[trigger] clis[i]),
        visited(clis, clis.len() as int, members, bound, ready, ready_bound, post, act),
    ensures
        post.clients() == clis,
        post.phase() is Selecting,
        act == MuxAction::Select(bound as i32),
{
    lemma_first_ready(clis, ready, 0, clis.len() as int, clis.len() as int);
    assert(clis.skip(clis.len() as int) + clis.take(clis.len() as int) =~= clis);
}

/// A client that was echoed to stays served: once the echo is written, the client
/// is back in the queue, so it is read whenever its descriptor is later readable;
/// and every other client stays too, in the queue or as the one read next.
pub proof fn lemma_echoed_client_stays(pre: IoMuxServer, post: IoMuxServer, act: MuxAction)
    requires
        pre.inv(),
        pre.phase() is Writing,
        next(pre, MuxEvent::Done, post, act),
    ensures
        post.clients().contains(pre.current()->0),
        forall|i: int|
            0 <= i < pre.clients().len() ==> post.clients().contains(#[trigger] pre.clients()[i])
                || post.current() == Some(pre.clients()[i]),
{
    let c = pre.current()->0;
    let clis = pre.clients().push(c);
    let n = pre.remaining();
    let k = first_ready(clis, pre.read_fds().members(), 0, n);
    lemma_first_ready_bound(clis, pre.read_fds().members(), 0, n);
    let last = clis.len() - 1;
    assert(clis[last] == c);
    if k < n {
        let post_clis = clis.subrange(k + 1, clis.len() as int) + clis.take(k);
        assert(post_clis[last - k - 1] == c);
        assert forall|i: int| 0 <= i < pre.clients().len() implies post.clients().contains(
            #[trigger] pre.clients()[i],
        ) || post.current() == Some(pre.clients()[i]) by {
            assert(clis[i] == pre.clients()[i]);
            if i > k {
                assert(post_clis[i - k - 1] == clis[i]);
            } else if i < k {
                assert(post_clis[clis.len() - k - 1 + i] == clis[i]);
            }
        }
    } else {
        let post_clis = clis.skip(n) + clis.take(n);
        assert(post_clis[last - n] == c);
        assert forall|i: int| 0 <= i < pre.clients().len() implies post.clients().contains(
            #[trigger] pre.clients()[i],
        ) || post.current() == Some(pre.clients()[i]) by {
            assert(clis[i] == pre.clients()[i]);
            if i >= n {
                assert(post_clis[i - n] == clis[i]);
            } else {
                assert(post_clis[clis.len() - n + i] == clis[i]);
            }
        }
    }
}

proof fn lemma_first_ready_bound(clis: Seq<Box<Socket>>, rfds: Set<int>, k: int, n: int)
    requires
        k <= n,
    ensures
        k <= first_ready(clis, rfds, k, n) <= n,
    decreases n - k,
{
    if k < n {
        lemma_first_ready_bound(clis, rfds, k + 1, n);
    }
}

} // verus!
