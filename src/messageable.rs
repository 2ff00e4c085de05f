//! Stable keys of client connections.

use vstd::prelude::*;

verus! {

/// The key of one client connection; channels subscribe connections by it.
#[derive(Clone, Copy, Debug, PartialEq, Eq, Hash, Structural)]
pub struct Messageable(pub u64);

/// Hands out connection keys in increasing order, so no key is given twice.
#[derive(Debug)]
pub struct IdSource {
    next: u64,
}

impl IdSource {
    pub closed spec fn spec_next(&self) -> u64 {
        self.next
    }

    pub fn new() -> (r: Self)
        ensures
            r.spec_next() == 0,
    {
        IdSource { next: 0 }
    }

    /// Whether another key can be handed out.
    pub fn can_issue(&self) -> (r: bool)
        ensures
            r == (self.spec_next() < u64::MAX),
    {
        self.next < u64::MAX
    }
}

/// A key that no earlier call on `source` returned.
pub fn new_id(source: &mut IdSource) -> (r: Messageable)
    requires
        old(source).spec_next() < u64::MAX,
    ensures
        r.0 == old(source).spec_next(),
        final(source).spec_next() == old(source).spec_next() + 1,
{
    let r = Messageable(source.next);
    source.next = source.next + 1;
    r
}

} // verus!
