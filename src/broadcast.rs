//! Channels addressed by connection-style keys (`Messageable`), for events
//! that are not tied to one room's channel handle.

use vstd::prelude::*;

use crate::channel::{subscribe_step, Channel};
use crate::messageable::Messageable;

verus! {

/// Channels indexed by their `Messageable` key; keys are handed out densely.
#[derive(Debug)]
pub struct Broadcaster {
    slots: Vec<Option<Channel>>,
}

pub open spec fn slot_view(slot: Option<Channel>) -> Option<Seq<u64>> {
    match slot {
        Some(c) => Some(c.view()),
        None => None,
    }
}

impl Broadcaster {
    /// The subscribers of the channel at `addr`, if it is open.
    pub closed spec fn channel(&self, addr: Messageable) -> Option<Seq<u64>> {
        if (addr.0 as int) < self.slots@.len() {
            slot_view(self.slots@[addr.0 as int])
        } else {
            None
        }
    }

    pub closed spec fn wf(&self) -> bool {
        forall|i: int| 0 <= i < self.slots@.len() ==> (#[trigger] self.slots@[i] matches Some(c) ==> c.wf())
    }

    pub fn new() -> (r: Self)
        ensures
            r.wf(),
            forall|a: Messageable| #[trigger] r.channel(a) is None,
    {
        Broadcaster { slots: Vec::new() }
    }
}

/// Opens an empty channel at `addr`, replacing any channel there.
pub fn create_channel(reg: &mut Broadcaster, addr: Messageable)
    requires
        old(reg).wf(),
        addr.0 < usize::MAX,
    ensures
        final(reg).wf(),
        final(reg).channel(addr) == Some(Seq::<u64>::empty()),
        forall|a: Messageable| a != addr ==> #[trigger] final(reg).channel(a) == old(reg).channel(a),
{
    let at = addr.0 as usize;
    while reg.slots.len() <= at
        invariant
            reg.wf(),
            at < usize::MAX,
            forall|i: int| 0 <= i < old(reg).slots@.len() ==> #[trigger] reg.slots@[i] == old(reg).slots@[i],
            reg.slots@.len() >= old(reg).slots@.len(),
            forall|i: int| old(reg).slots@.len() <= i < reg.slots@.len() ==> #[trigger] reg.slots@[i] is None,
        decreases at + 1 - reg.slots@.len(),
    {
        reg.slots.push(None);
    }
    reg.slots.set(at, Some(Channel::new()));
    proof {
        assert forall|a: Messageable| a != addr implies #[trigger] reg.channel(a) == old(reg).channel(a) by {
            if (a.0 as int) < reg.slots@.len() && (a.0 as int) >= old(reg).slots@.len() {
                assert(reg.slots@[a.0 as int] is None);
            }
        }
    }
}

/// Closes the channel at `addr`; later sends reach no one.
pub fn remove_channel(reg: &mut Broadcaster, addr: Messageable)
    requires
        old(reg).wf(),
    ensures
        final(reg).wf(),
        final(reg).channel(addr) is None,
        forall|a: Messageable| a != addr ==> #[trigger] final(reg).channel(a) == old(reg).channel(a),
{
    if addr.0 < reg.slots.len() as u64 {
        reg.slots.set(addr.0 as usize, None);
    }
}

/// Subscribes `key` to the channel at `addr`, if it is open; subscribing
/// twice is the same as once.
pub fn subscribe(reg: &mut Broadcaster, addr: Messageable, key: u64)
    requires
        old(reg).wf(),
    ensures
        final(reg).wf(),
        old(reg).channel(addr) is None ==> final(reg).channel(addr) is None,
        old(reg).channel(addr) matches Some(s) ==> (final(reg).channel(addr) matches Some(t) && subscribe_step(s, t, key)),
        forall|a: Messageable| a != addr ==> #[trigger] final(reg).channel(a) == old(reg).channel(a),
{
    if addr.0 < reg.slots.len() as u64 {
        let at = addr.0 as usize;
        let taken = reg.slots.remove(at);
        match taken {
            Some(mut c) => {
                proof {
                    assert(old(reg).slots@[at as int] matches Some(x) ==> x.wf());
                }
                c.subscribe(key);
                reg.slots.insert(at, Some(c));
            },
            None => {
                reg.slots.insert(at, None);
            },
        }
        proof {
            assert forall|i: int| 0 <= i < reg.slots@.len() && i != at implies #[trigger] reg.slots@[i] == old(reg).slots@[i] by {}
        }
    }
}

/// The keys a message sent on the channel at `addr` reaches, each once;
/// none when the channel is closed.
pub fn send(reg: &Broadcaster, addr: Messageable) -> (r: Vec<u64>)
    requires
        reg.wf(),
    ensures
        reg.channel(addr) matches Some(s) ==> r@ == s && r@.no_duplicates(),
        reg.channel(addr) is None ==> r@.len() == 0,
{
    if addr.0 < reg.slots.len() as u64 {
        match &reg.slots[addr.0 as usize] {
            Some(c) => c.subscribers(),
            None => Vec::new(),
        }
    } else {
        Vec::new()
    }
}

} // verus!
