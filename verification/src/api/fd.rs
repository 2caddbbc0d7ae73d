use std::rc::Rc;

use vstd::prelude::*;

pub mod io_fd;
pub mod socket_fd;

verus! {

/// An open file descriptor.
pub struct Fd {
    raw_fd: i32,
}

impl View for Fd {
    type V = i32;

    closed spec fn view(&self) -> i32 {
        self.raw_fd
    }
}

impl Fd {
    /// The descriptor's number.
    pub fn raw_fd(&self) -> (r: i32)
        ensures
            r == self@,
    {
        self.raw_fd
    }

    pub(crate) fn from_raw(raw_fd: i32) -> (r: Fd)
        ensures
            r@ == raw_fd,
    {
        Fd { raw_fd }
    }
}

/// A value that may hold a file descriptor.
pub trait FdWrapper {
    /// The number of the descriptor that `self` holds, if it holds one.
    spec fn wrapped_fd(&self) -> Option<i32>;

    fn fd(&self) -> (r: Option<&Rc<Fd>>)
        ensures
            r is Some <==> self.wrapped_fd() is Some,
            r matches Some(f) ==> self.wrapped_fd() == Some(f@),
    ;

    /// Takes the descriptor out, leaving none.
    fn take_fd(&mut self) -> (r: Option<Rc<Fd>>)
        ensures
            r is Some <==> old(self).wrapped_fd() is Some,
            r matches Some(f) ==> old(self).wrapped_fd() == Some(f@),
            final(self).wrapped_fd() is None,
    ;

    /// Puts `fd` in.
    fn set_fd(&mut self, fd: Rc<Fd>)
        ensures
            final(self).wrapped_fd() == Some(fd@),
    ;
}

/// The number of descriptors that a descriptor set can hold: those from 0 to
/// `FD_SETSIZE - 1`.
pub const FD_SETSIZE: i32 = 1024;

/// A set of file descriptors, as `select` takes it, and the number above the
/// highest descriptor ever put in.
pub struct FdSet {
    raw_fdset: Vec<bool>,
    max: i32,
}

impl FdSet {
    /// The set is well formed: one place per descriptor, and its bound within
    /// the range of descriptors.
    pub closed spec fn wf(&self) -> bool {
        &&& self.raw_fdset.len() == FD_SETSIZE
        &&& 0 <= self.max <= FD_SETSIZE
    }

    /// The descriptors in the set.
    pub closed spec fn members(&self) -> Set<int> {
        Set::new(|fd: int| 0 <= fd < FD_SETSIZE && self.raw_fdset@[fd])
    }

    /// One more than the highest descriptor put in with `set`, or 0.
    pub closed spec fn bound(&self) -> int {
        self.max as int
    }

    /// A well-formed set holds descriptors in range only, and its bound is in
    /// range.
    pub proof fn lemma_wf(&self)
        requires
            self.wf(),
        ensures
            0 <= self.bound() <= FD_SETSIZE,
            forall|fd: int| #[trigger] self.members().contains(fd) ==> 0 <= fd < FD_SETSIZE,
    {
    }

    /// An empty set.
    pub fn new() -> (r: Self)
        ensures
            r.wf(),
            r.members() == Set::<int>::empty(),
            r.bound() == 0,
    {
        let mut raw_fdset: Vec<bool> = Vec::new();
        let mut i: i32 = 0;
        while i < FD_SETSIZE
            invariant
                0 <= i <= FD_SETSIZE,
                raw_fdset.len() == i,
                forall|k: int| 0 <= k < i ==> !raw_fdset@[k],
            decreases FD_SETSIZE - i,
        {
            raw_fdset.push(false);
            i = i + 1;
        }
        let r = FdSet { raw_fdset, max: 0 };
        assert(r.members() =~= Set::<int>::empty());
        r
    }

    /// Puts the descriptor `fd` in, and nothing else (`FD_SET`).
    pub fn insert(&mut self, fd: i32)
        requires
            old(self).wf(),
            0 <= fd < FD_SETSIZE,
        ensures
            final(self).wf(),
            final(self).members() == old(self).members().insert(fd as int),
            final(self).bound() == old(self).bound(),
    {
        self.raw_fdset.set(fd as usize, true);
        assert(self.members() =~= old(self).members().insert(fd as int));
    }

    /// Whether the descriptor `fd` is in the set (`FD_ISSET`).
    pub fn contains(&self, fd: i32) -> (r: bool)
        requires
            self.wf(),
            0 <= fd < FD_SETSIZE,
        ensures
            r == self.members().contains(fd as int),
    {
        self.raw_fdset[fd as usize]
    }

    /// The bound: one more than the highest descriptor put in with `set`, or 0.
    pub fn max(&self) -> (r: i32)
        ensures
            r == self.bound(),
            self.wf() ==> 0 <= r <= FD_SETSIZE,
    {
        self.max
    }

    /// Puts in the descriptor that `fdwrapper` holds, and raises the bound above
    /// it.
    pub fn set<W: FdWrapper>(&mut self, fdwrapper: &W)
        requires
            old(self).wf(),
            fdwrapper.wrapped_fd() matches Some(fd) && 0 <= fd < FD_SETSIZE,
        ensures
            final(self).wf(),
            final(self).members() == old(self).members().insert(fdwrapper.wrapped_fd()->0 as int),
            final(self).bound() == if old(self).bound() < fdwrapper.wrapped_fd()->0 + 1 {
                fdwrapper.wrapped_fd()->0 + 1
            } else {
                old(self).bound()
            },
    {
        let fd = fdwrapper.fd().unwrap().raw_fd();
        self.insert(fd);
        if self.max < fd + 1 {
            self.max = fd + 1;
        }
    }

    /// Whether the descriptor that `fdwrapper` holds is in the set.
    pub fn is_set<W: FdWrapper>(&self, fdwrapper: &W) -> (r: bool)
        requires
            self.wf(),
            fdwrapper.wrapped_fd() matches Some(fd) && 0 <= fd < FD_SETSIZE,
        ensures
            r == self.members().contains(fdwrapper.wrapped_fd()->0 as int),
    {
        self.contains(fdwrapper.fd().unwrap().raw_fd())
    }

    /// Keeps only the descriptors that are also in `ready`: what `select` leaves
    /// in a set it was given. The bound stays.
    pub fn keep_only(&mut self, ready: &FdSet)
        requires
            old(self).wf(),
            ready.wf(),
        ensures
            final(self).wf(),
            final(self).members() == old(self).members().intersect(ready.members()),
            final(self).bound() == old(self).bound(),
    {
        let mut kept: Vec<bool> = Vec::new();
        let mut i: usize = 0;
        while i < FD_SETSIZE as usize
            invariant
                self.wf(),
                ready.wf(),
                0 <= i <= FD_SETSIZE,
                kept.len() == i,
                forall|k: int|
                    0 <= k < i ==> kept@[k] == (self.raw_fdset@[k] && ready.raw_fdset@[k]),
            decreases FD_SETSIZE - i,
        {
            kept.push(self.raw_fdset[i] && ready.raw_fdset[i]);
            i = i + 1;
        }
        self.raw_fdset = kept;
        assert(self.members() =~= old(self).members().intersect(ready.members()));
    }

    /// The first argument of `select` for these sets: the highest bound among
    /// those given, or 0.
    pub fn select_nfds(r_fds: Option<&Self>, w_fds: Option<&Self>, e_fds: Option<&Self>) -> (r: i32)
        ensures
            r == max_bound(
                max_bound(
                    match r_fds {
                        Some(s) => s.bound(),
                        None => 0,
                    },
                    w_fds,
                ),
                e_fds,
            ),
    {
        let mut nfds: i32 = 0;
        if let Some(r_fds) = r_fds {
            nfds = r_fds.max;
        }
        if let Some(w_fds) = w_fds {
            if w_fds.max > nfds {
                nfds = w_fds.max;
            }
        }
        if let Some(e_fds) = e_fds {
            if e_fds.max > nfds {
                nfds = e_fds.max;
            }
        }
        nfds
    }
}

/// `n`, raised to the bound of `s` when `s` is given and its bound is higher.
pub open spec fn max_bound(n: int, s: Option<&FdSet>) -> int {
    match s {
        Some(s) => if s.bound() > n {
            s.bound()
        } else {
            n
        },
        None => n,
    }
}

impl Clone for FdSet {
    fn clone(&self) -> (r: Self)
        ensures
            r.wf() == self.wf(),
            r.members() == self.members(),
            r.bound() == self.bound(),
    {
        let raw_fdset = self.raw_fdset.clone();
        assert(raw_fdset@ =~= self.raw_fdset@);
        let r = FdSet { raw_fdset, max: self.max };
        assert(r.members() =~= self.members());
        r
    }
}

/// One call that changes what a set holds: `set` of a descriptor (`Some`), or
/// `clone` (`None`).
pub type FdSetCall = Option<int>;

/// The descriptors put in by the calls `calls`.
pub open spec fn set_so_far(calls: Seq<FdSetCall>) -> Set<int> {
    Set::new(|fd: int| exists|i: int| 0 <= i < calls.len() && calls[i] == Some(fd))
}

/// The bound after the calls `calls`, from an empty set: one more than the
/// highest descriptor put in, or 0.
pub open spec fn bound_so_far(calls: Seq<FdSetCall>) -> int
    decreases calls.len(),
{
    if calls.len() == 0 {
        0
    } else {
        let b = bound_so_far(calls.drop_last());
        match calls.last() {
            Some(fd) => if b < fd + 1 {
                fd + 1
            } else {
                b
            },
            None => b,
        }
    }
}

/// `after` is what `set` (of the descriptor of `call`) or `clone` (for `None`)
/// makes of `before`, as their contracts say.
pub open spec fn fd_set_call(before: FdSet, call: FdSetCall, after: FdSet) -> bool {
    match call {
        Some(fd) => {
            &&& 0 <= fd < FD_SETSIZE
            &&& after.members() == before.members().insert(fd)
            &&& after.bound() == if before.bound() < fd + 1 {
                fd + 1
            } else {
                before.bound()
            }
        },
        None => after.members() == before.members() && after.bound() == before.bound(),
    }
}

/// A set made by `new` and then changed only by `set` and `clone` holds exactly
/// the descriptors put in so far, so that `is_set` tells whether the descriptor
/// was put in by some earlier `set`; and its bound is one more than the highest
/// of them, or 0.
pub proof fn lemma_fd_set_history(sets: Seq<FdSet>, calls: Seq<FdSetCall>)
    requires
        sets.len() == calls.len() + 1,
        sets[0].members() == Set::<int>::empty(),
        sets[0].bound() == 0,
        forall|i: int| 0 <= i < calls.len() ==> fd_set_call(sets[i], calls[i], #[trigger] sets[i + 1]),
    ensures
        sets.last().members() == set_so_far(calls),
        sets.last().bound() == bound_so_far(calls),
    decreases calls.len(),
{
    if calls.len() == 0 {
        assert(set_so_far(calls) =~= Set::<int>::empty());
    } else {
        let n = calls.len() - 1;
        let ps = sets.drop_last();
        let pc = calls.drop_last();
        assert forall|i: int| 0 <= i < pc.len() implies fd_set_call(ps[i], pc[i], #[trigger] ps[i + 1]) by {
            assert(fd_set_call(sets[i], calls[i], sets[i + 1]));
        }
        lemma_fd_set_history(ps, pc);
        assert(ps.last() == sets[n]);
        assert(fd_set_call(sets[n], calls[n], sets[n + 1]));
        assert(pc =~= calls.drop_last());
        match calls[n] {
            Some(fd) => {
                assert forall|x: int| set_so_far(calls).contains(x) == set_so_far(pc).insert(fd).contains(x) by {
                    if set_so_far(calls).contains(x) {
                        let i = choose|i: int| 0 <= i < calls.len() && calls[i] == Some(x);
                        if i < n {
                            assert(pc[i] == Some(x));
                        }
                    }
                    if set_so_far(pc).contains(x) {
                        let i = choose|i: int| 0 <= i < pc.len() && pc[i] == Some(x);
                        assert(calls[i] == Some(x));
                    }
                    if x == fd {
                        assert(calls[n] == Some(x));
                    }
                }
                assert(set_so_far(calls) =~= set_so_far(pc).insert(fd));
            },
            None => {
                assert forall|x: int| set_so_far(calls).contains(x) == set_so_far(pc).contains(x) by {
                    if set_so_far(calls).contains(x) {
                        let i = choose|i: int| 0 <= i < calls.len() && calls[i] == Some(x);
                        if i < n {
                            assert(pc[i] == Some(x));
                        }
                    }
                    if set_so_far(pc).contains(x) {
                        let i = choose|i: int| 0 <= i < pc.len() && pc[i] == Some(x);
                        assert(calls[i] == Some(x));
                    }
                }
                assert(set_so_far(calls) =~= set_so_far(pc));
            },
        }
    }
}

} // verus!
