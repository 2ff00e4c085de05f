//! Subscription channels: named groups of client keys that receive broadcasts.
//!
//! A channel holds the keys of its subscribers only; the connection layer owns
//! the mailboxes and tells the channel which keys no longer lead to a live one.

use vstd::prelude::*;

use generational_arena::{Arena, Index};

verus! {

#[verifier::external_type_specification]
#[verifier::external_body]
#[verifier::reject_recursive_types(T)]
pub struct ExArena<T>(Arena<T>);

/// The channels that an arena holds: raw index parts to subscriber keys.
pub uninterp spec fn arena_channels(a: Arena<Vec<u64>>) -> Map<(usize, u64), Seq<u64>>;

/// Relies on `Arena::new`: an arena that holds nothing.
#[verifier::external_body]
fn arena_new() -> (r: Arena<Vec<u64>>)
    ensures
        arena_channels(r).dom().is_empty(),
{
    Arena::new()
}

/// Relies on `Arena::insert` and `Index::into_raw_parts`: the value is stored
/// under an index that was not live before.
#[verifier::external_body]
fn arena_insert(a: &mut Arena<Vec<u64>>, v: Vec<u64>) -> (r: (usize, u64))
    ensures
        !arena_channels(*old(a)).contains_key(r),
        arena_channels(*final(a)) == arena_channels(*old(a)).insert(r, v@),
{
    a.insert(v).into_raw_parts()
}

/// Relies on `Arena::get` and `Index::from_raw_parts`: the value stored under
/// a live index, `None` for any other.
#[verifier::external_body]
fn arena_get(a: &Arena<Vec<u64>>, at: (usize, u64)) -> (r: Option<Vec<u64>>)
    ensures
        r is Some <==> arena_channels(*a).contains_key(at),
        r matches Some(v) ==> v@ == arena_channels(*a)[at],
{
    a.get(Index::from_raw_parts(at.0, at.1)).cloned()
}

/// Relies on `Arena::get_mut`: overwrites the value under a live index.
#[verifier::external_body]
fn arena_replace(a: &mut Arena<Vec<u64>>, at: (usize, u64), v: Vec<u64>) -> (r: bool)
    ensures
        r == arena_channels(*old(a)).contains_key(at),
        r ==> arena_channels(*final(a)) == arena_channels(*old(a)).insert(at, v@),
        !r ==> arena_channels(*final(a)) == arena_channels(*old(a)),
{
    match a.get_mut(Index::from_raw_parts(at.0, at.1)) {
        Some(slot) => {
            *slot = v;
            true
        },
        None => false,
    }
}

/// Relies on `Arena::remove`: drops the value under a live index.
#[verifier::external_body]
fn arena_remove(a: &mut Arena<Vec<u64>>, at: (usize, u64)) -> (r: bool)
    ensures
        r == arena_channels(*old(a)).contains_key(at),
        arena_channels(*final(a)) == arena_channels(*old(a)).remove(at),
{
    a.remove(Index::from_raw_parts(at.0, at.1)).is_some()
}

/// Handle of a channel: slot and generation in the channel arena.
#[derive(Clone, Copy, Debug, PartialEq, Eq, Structural)]
pub struct ChannelAddress {
    pub index: usize,
    pub generation: u64,
}

impl ChannelAddress {
    pub open spec fn key(self) -> (usize, u64) {
        (self.index, self.generation)
    }

    fn raw(&self) -> (r: (usize, u64))
        ensures
            r == self.key(),
    {
        (self.index, self.generation)
    }
}

/// The subscribers of one channel, each key once, in order of subscription.
#[derive(Debug)]
pub struct Channel {
    subscribers: Vec<u64>,
}

impl Channel {
    pub closed spec fn view(&self) -> Seq<u64> {
        self.subscribers@
    }

    pub open spec fn wf(&self) -> bool {
        self.view().no_duplicates()
    }

    pub fn new() -> (r: Self)
        ensures
            r.view() == Seq::<u64>::empty(),
            r.wf(),
    {
        Channel { subscribers: Vec::new() }
    }

    fn from_keys(keys: Vec<u64>) -> (r: Self)
        ensures
            r.view() == keys@,
    {
        Channel { subscribers: keys }
    }

    fn into_keys(self) -> (r: Vec<u64>)
        ensures
            r@ == self.view(),
    {
        self.subscribers
    }

    fn position(&self, key: u64) -> (r: Option<usize>)
        ensures
            r is None <==> !self.view().contains(key),
            r matches Some(i) ==> i < self.view().len() && self.view()[i as int] == key,
    {
        let mut i: usize = 0;
        while i < self.subscribers.len()
            invariant
                i <= self.subscribers@.len(),
                forall|k: int| 0 <= k < i ==> self.subscribers@[k] != key,
            decreases self.subscribers@.len() - i,
        {
            if self.subscribers[i] == key {
                return Some(i);
            }
            i = i + 1;
        }
        None
    }

    /// Adds `key`; a key that is already subscribed stays subscribed once.
    pub fn subscribe(&mut self, key: u64)
        requires
            old(self).wf(),
        ensures
            final(self).wf(),
            subscribe_step(old(self).view(), final(self).view(), key),
            final(self).view().to_set() == old(self).view().to_set().insert(key),
    {
        if self.position(key).is_none() {
            self.subscribers.push(key);
            proof {
                assert(self.view().to_set() =~= old(self).view().to_set().insert(key)) by {
                    assert forall|x: u64| self.view().to_set().contains(x) <==> old(self).view().to_set().insert(key).contains(x) by {
                        if x != key && self.view().contains(x) {
                            let w = choose|w: int| 0 <= w < self.view().len() && self.view()[w] == x;
                            assert(old(self).view()[w] == x);
                        }
                        if old(self).view().contains(x) {
                            let w = choose|w: int| 0 <= w < old(self).view().len() && old(self).view()[w] == x;
                            assert(self.view()[w] == x);
                        }
                        if x == key {
                            assert(self.view()[self.view().len() - 1] == x);
                        }
                    }
                }
            }
        } else {
            proof {
                assert(self.view().to_set() =~= old(self).view().to_set().insert(key));
            }
        }
    }

    /// Removes `key` if it is subscribed.
    pub fn unsubscribe(&mut self, key: u64)
        requires
            old(self).wf(),
        ensures
            final(self).wf(),
            final(self).view().to_set() == old(self).view().to_set().remove(key),
    {
        match self.position(key) {
            Some(i) => {
                let ghost before = self.subscribers@;
                self.subscribers.remove(i);
                proof {
                    assert(self.view() =~= before.remove(i as int));
                    assert forall|x: u64| self.view().to_set().contains(x) <==> before.to_set().remove(key).contains(x) by {
                        if self.view().contains(x) {
                            let w = choose|w: int| 0 <= w < self.view().len() && self.view()[w] == x;
                            if w < i {
                                assert(before[w] == x);
                            } else {
                                assert(before[w + 1] == x);
                            }
                        }
                        if before.contains(x) && x != key {
                            let w = choose|w: int| 0 <= w < before.len() && before[w] == x;
                            if w < i {
                                assert(self.view()[w] == x);
                            } else {
                                assert(self.view()[w - 1] == x);
                            }
                        }
                    }
                    assert(self.view().to_set() =~= before.to_set().remove(key));
                }
            },
            None => {
                proof {
                    assert(self.view().to_set() =~= old(self).view().to_set().remove(key));
                }
            },
        }
    }

    /// Every subscriber, once each, in order of subscription.
    pub fn subscribers(&self) -> (r: Vec<u64>)
        ensures
            r@ == self.view(),
    {
        self.subscribers.clone()
    }

    /// A broadcast pass: the subscribers named in `dead`, whose mailboxes are
    /// gone, are dropped, and the keys the message reaches, every remaining
    /// subscriber once, are returned.
    pub fn broadcast(&mut self, dead: &Vec<u64>) -> (r: Vec<u64>)
        requires
            old(self).wf(),
        ensures
            final(self).wf(),
            final(self).view().to_set() == old(self).view().to_set().difference(dead@.to_set()),
            r@ == final(self).view(),
            r@.no_duplicates(),
    {
        self.cleanup(dead);
        self.subscribers.clone()
    }

    /// Drops the subscribers named in `dead`, whose mailboxes are gone.
    pub fn cleanup(&mut self, dead: &Vec<u64>)
        requires
            old(self).wf(),
        ensures
            final(self).wf(),
            final(self).view().to_set() == old(self).view().to_set().difference(dead@.to_set()),
    {
        let mut i: usize = 0;
        while i < dead.len()
            invariant
                i <= dead@.len(),
                self.wf(),
                self.view().to_set() == old(self).view().to_set().difference(dead@.subrange(0, i as int).to_set()),
            decreases dead@.len() - i,
        {
            self.unsubscribe(dead[i]);
            proof {
                let a = dead@.subrange(0, i as int);
                let b = dead@.subrange(0, i + 1);
                assert(b =~= a.push(dead@[i as int]));
                assert(b.to_set() =~= a.to_set().insert(dead@[i as int])) by {
                    assert forall|x: u64| b.to_set().contains(x) <==> a.to_set().insert(dead@[i as int]).contains(x) by {
                        if b.contains(x) {
                            let w = choose|w: int| 0 <= w < b.len() && b[w] == x;
                            if w < i {
                                assert(a[w] == x);
                            }
                        }
                        if a.contains(x) {
                            let w = choose|w: int| 0 <= w < a.len() && a[w] == x;
                            assert(b[w] == x);
                        }
                        if x == dead@[i as int] {
                            assert(b[i as int] == x);
                        }
                    }
                }
                assert(self.view().to_set() =~= old(self).view().to_set().difference(b.to_set()));
            }
            i = i + 1;
        }
        assert(dead@.subrange(0, dead@.len() as int) =~= dead@);
    }
}

/// An operation on one channel, as a client key sees it.
#[derive(Clone, Copy, Debug, PartialEq, Eq, Structural)]
pub enum ChannelOp {
    Subscribe(u64),
    Unsubscribe(u64),
    Broadcast,
}

/// The subscriber set after applying `op`, as `subscribe` and `unsubscribe` state it.
pub open spec fn apply_op(subs: Set<u64>, op: ChannelOp) -> Set<u64> {
    match op {
        ChannelOp::Subscribe(k) => subs.insert(k),
        ChannelOp::Unsubscribe(k) => subs.remove(k),
        ChannelOp::Broadcast => subs,
    }
}

/// The subscribers of a fresh channel after the first `n` operations of `ops`.
pub open spec fn subscribers_after(ops: Seq<ChannelOp>, n: int) -> Set<u64>
    decreases n,
{
    if n <= 0 {
        Set::empty()
    } else {
        apply_op(subscribers_after(ops, n - 1), ops[n - 1])
    }
}

/// A broadcast made after the first `b` operations on a fresh channel
/// reaches `k` exactly when some earlier operation subscribed `k` and no
/// later one before the broadcast unsubscribed it.
pub proof fn lemma_broadcast_receivers(ops: Seq<ChannelOp>, b: int, k: u64)
    requires
        0 <= b <= ops.len(),
    ensures
        subscribers_after(ops, b).contains(k) <==> exists|i: int| 0 <= i < b && ops[i] == ChannelOp::Subscribe(k)
            && forall|j: int| i < j < b ==> #[trigger] ops[j] != ChannelOp::Unsubscribe(k),
    decreases b,
{
    if b > 0 {
        lemma_broadcast_receivers(ops, b - 1, k);
        let op = ops[b - 1];
        if op == ChannelOp::Subscribe(k) {
            assert(forall|j: int| b - 1 < j < b ==> #[trigger] ops[j] != ChannelOp::Unsubscribe(k));
        } else if op == ChannelOp::Unsubscribe(k) {
            if exists|i: int| 0 <= i < b && ops[i] == ChannelOp::Subscribe(k)
                && forall|j: int| i < j < b ==> #[trigger] ops[j] != ChannelOp::Unsubscribe(k) {
                let i = choose|i: int| 0 <= i < b && ops[i] == ChannelOp::Subscribe(k)
                    && forall|j: int| i < j < b ==> #[trigger] ops[j] != ChannelOp::Unsubscribe(k);
                assert(ops[b - 1] != ChannelOp::Unsubscribe(k));
            }
        } else {
            assert(subscribers_after(ops, b).contains(k) == subscribers_after(ops, b - 1).contains(k));
            if exists|i: int| 0 <= i < b && ops[i] == ChannelOp::Subscribe(k)
                && forall|j: int| i < j < b ==> #[trigger] ops[j] != ChannelOp::Unsubscribe(k) {
                let i = choose|i: int| 0 <= i < b && ops[i] == ChannelOp::Subscribe(k)
                    && forall|j: int| i < j < b ==> #[trigger] ops[j] != ChannelOp::Unsubscribe(k);
                assert(i < b - 1);
                assert(forall|j: int| i < j < b - 1 ==> #[trigger] ops[j] != ChannelOp::Unsubscribe(k));
            }
            if exists|i: int| 0 <= i < b - 1 && ops[i] == ChannelOp::Subscribe(k)
                && forall|j: int| i < j < b - 1 ==> #[trigger] ops[j] != ChannelOp::Unsubscribe(k) {
                let i = choose|i: int| 0 <= i < b - 1 && ops[i] == ChannelOp::Subscribe(k)
                    && forall|j: int| i < j < b - 1 ==> #[trigger] ops[j] != ChannelOp::Unsubscribe(k);
                assert forall|j: int| i < j < b implies #[trigger] ops[j] != ChannelOp::Unsubscribe(k) by {
                    if j == b - 1 {
                        assert(ops[j] == op);
                    }
                }
            }
        }
    }
}

/// Subscribing a key that a channel already holds changes nothing, so a
/// key subscribed twice appears once among the subscribers, and a broadcast,
/// which reaches each subscriber once, delivers to it once.
pub proof fn lemma_subscribe_twice(subs: Seq<u64>, once: Seq<u64>, twice: Seq<u64>, k: u64)
    requires
        subs.no_duplicates(),
        subscribe_step(subs, once, k),
        subscribe_step(once, twice, k),
    ensures
        twice == once,
        twice.no_duplicates(),
        exists|i: int| 0 <= i < twice.len() && twice[i] == k,
        forall|i: int, j: int| 0 <= i < twice.len() && 0 <= j < twice.len() && twice[i] == k && twice[j] == k ==> i == j,
{
    if !subs.contains(k) {
        assert(once[subs.len() as int] == k);
        assert forall|i: int, j: int| 0 <= i < j < once.len() implies once[i] != once[j] by {
            if j == subs.len() {
                assert(once[i] == subs[i]);
            } else {
                assert(once[i] == subs[i] && once[j] == subs[j]);
            }
        }
    }
    assert(once.contains(k));
}

/// How `subscribe` relates the subscriber list before and after.
pub open spec fn subscribe_step(before: Seq<u64>, after: Seq<u64>, k: u64) -> bool {
    &&& before.contains(k) ==> after == before
    &&& !before.contains(k) ==> after == before.push(k)
}

/// Every channel of the server, each under its own address.
pub struct ChannelCollection {
    arena: Arena<Vec<u64>>,
}

impl ChannelCollection {
    /// The open channels and their subscribers.
    pub closed spec fn view(&self) -> Map<(usize, u64), Seq<u64>> {
        arena_channels(self.arena)
    }

    pub open spec fn wf(&self) -> bool {
        forall|k: (usize, u64)| #[trigger] self.view().contains_key(k) ==> self.view()[k].no_duplicates()
    }

    /// The subscribers of `addr`, as a set; empty for a closed channel.
    pub open spec fn subscribers(&self, addr: ChannelAddress) -> Set<u64> {
        if self.view().contains_key(addr.key()) {
            self.view()[addr.key()].to_set()
        } else {
            Set::empty()
        }
    }

    pub fn new() -> (r: Self)
        ensures
            r.view() == Map::<(usize, u64), Seq<u64>>::empty(),
            r.wf(),
    {
        let r = ChannelCollection { arena: arena_new() };
        assert(r.view() =~= Map::<(usize, u64), Seq<u64>>::empty());
        r
    }

    /// Opens a channel with no subscribers.
    pub fn create_one(&mut self) -> (r: ChannelAddress)
        requires
            old(self).wf(),
        ensures
            final(self).wf(),
            !old(self).view().contains_key(r.key()),
            final(self).view() == old(self).view().insert(r.key(), Seq::<u64>::empty()),
    {
        let (index, generation) = arena_insert(&mut self.arena, Vec::new());
        let r = ChannelAddress { index, generation };
        assert forall|k: (usize, u64)| #[trigger] self.view().contains_key(k) implies self.view()[k].no_duplicates() by {
            if k != r.key() {
                assert(old(self).view().contains_key(k));
            } else {
                assert(self.view()[k] =~= Seq::<u64>::empty());
            }
        }
        r
    }

    /// Subscribes `key` to `addr`; subscribing twice is the same as once.
    /// Returns whether the channel is open.
    pub fn subscribe(&mut self, addr: ChannelAddress, key: u64) -> (r: bool)
        requires
            old(self).wf(),
        ensures
            final(self).wf(),
            r == old(self).view().contains_key(addr.key()),
            final(self).view().dom() == old(self).view().dom(),
            forall|a: ChannelAddress| a != addr ==> #[trigger] final(self).subscribers(a) == old(self).subscribers(a),
            r ==> final(self).subscribers(addr) == old(self).subscribers(addr).insert(key),
            !r ==> final(self).view() == old(self).view(),
    {
        match arena_get(&self.arena, addr.raw()) {
            Some(keys) => {
                assert(self.view().contains_key(addr.key()));
                let mut channel = Channel::from_keys(keys);
                channel.subscribe(key);
                let _ = arena_replace(&mut self.arena, addr.raw(), channel.into_keys());
                proof {
                    assert(self.view().dom() =~= old(self).view().dom());
                    assert forall|a: ChannelAddress| a != addr implies #[trigger] self.subscribers(a) == old(self).subscribers(a) by {
                        assert(a.key() != addr.key());
                    }
                }
                true
            },
            None => false,
        }
    }

    /// Removes `key` from `addr`. Returns whether the channel is open.
    pub fn unsubscribe(&mut self, addr: ChannelAddress, key: u64) -> (r: bool)
        requires
            old(self).wf(),
        ensures
            final(self).wf(),
            r == old(self).view().contains_key(addr.key()),
            final(self).view().dom() == old(self).view().dom(),
            forall|a: ChannelAddress| a != addr ==> #[trigger] final(self).subscribers(a) == old(self).subscribers(a),
            r ==> final(self).subscribers(addr) == old(self).subscribers(addr).remove(key),
            !r ==> final(self).view() == old(self).view(),
    {
        match arena_get(&self.arena, addr.raw()) {
            Some(keys) => {
                assert(self.view().contains_key(addr.key()));
                let mut channel = Channel::from_keys(keys);
                channel.unsubscribe(key);
                let _ = arena_replace(&mut self.arena, addr.raw(), channel.into_keys());
                proof {
                    assert(self.view().dom() =~= old(self).view().dom());
                    assert forall|a: ChannelAddress| a != addr implies #[trigger] self.subscribers(a) == old(self).subscribers(a) by {
                        assert(a.key() != addr.key());
                    }
                }
                true
            },
            None => false,
        }
    }

    /// The keys a broadcast on `addr` reaches, each once; none for a closed channel.
    pub fn broadcast(&self, addr: ChannelAddress) -> (r: Vec<u64>)
        requires
            self.wf(),
        ensures
            r@.no_duplicates(),
            r@.to_set() == self.subscribers(addr),
    {
        match arena_get(&self.arena, addr.raw()) {
            Some(keys) => {
                assert(self.view().contains_key(addr.key()));
                keys
            },
            None => {
                let r: Vec<u64> = Vec::new();
                assert(r@.to_set() =~= Set::<u64>::empty());
                r
            },
        }
    }

    /// Drops the subscribers of `addr` named in `dead`.
    pub fn cleanup(&mut self, addr: ChannelAddress, dead: &Vec<u64>) -> (r: bool)
        requires
            old(self).wf(),
        ensures
            final(self).wf(),
            r == old(self).view().contains_key(addr.key()),
            final(self).view().dom() == old(self).view().dom(),
            forall|a: ChannelAddress| a != addr ==> #[trigger] final(self).subscribers(a) == old(self).subscribers(a),
            final(self).subscribers(addr) == old(self).subscribers(addr).difference(dead@.to_set()),
    {
        match arena_get(&self.arena, addr.raw()) {
            Some(keys) => {
                assert(self.view().contains_key(addr.key()));
                let mut channel = Channel::from_keys(keys);
                channel.cleanup(dead);
                let _ = arena_replace(&mut self.arena, addr.raw(), channel.into_keys());
                proof {
                    assert(self.view().dom() =~= old(self).view().dom());
                    assert forall|a: ChannelAddress| a != addr implies #[trigger] self.subscribers(a) == old(self).subscribers(a) by {
                        assert(a.key() != addr.key());
                    }
                }
                true
            },
            None => {
                assert(Set::<u64>::empty().difference(dead@.to_set()) =~= Set::<u64>::empty());
                false
            },
        }
    }

    /// Closes `addr`: its subscribers are dropped and later broadcasts reach no one.
    pub fn remove(&mut self, addr: ChannelAddress) -> (r: bool)
        requires
            old(self).wf(),
        ensures
            final(self).wf(),
            r == old(self).view().contains_key(addr.key()),
            final(self).view() == old(self).view().remove(addr.key()),
            final(self).subscribers(addr) == Set::<u64>::empty(),
    {
        let r = arena_remove(&mut self.arena, addr.raw());
        assert forall|k: (usize, u64)| #[trigger] self.view().contains_key(k) implies self.view()[k].no_duplicates() by {
            assert(old(self).view().contains_key(k));
        }
        r
    }
}

} // verus!
