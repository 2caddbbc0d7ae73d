use vstd::prelude::*;

verus! {

/// The address families that a socket can be opened in.
#[derive(Copy, Clone, PartialEq, Eq, Structural, Debug)]
pub enum SAFamily {
    AfInet,
    AfInet6,
    AfLocal,
    AfLink,
}

} // verus!
