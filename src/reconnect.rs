//! Slots kept for players whose connection dropped, for a bounded time.

use vstd::prelude::*;

use crate::config::LINGER_WINDOW_MS;

verus! {

/// A disconnected player's way back: the room they were in and until when.
#[derive(Debug)]
pub struct ReconnectRecord {
    pub account_id: String,
    pub join_code: String,
    /// Milliseconds on the server's clock; the record is good up to and including it.
    pub expires_at: u64,
}

impl Clone for ReconnectRecord {
    fn clone(&self) -> (r: Self)
        ensures
            r == *self,
    {
        ReconnectRecord { account_id: self.account_id.clone(), join_code: self.join_code.clone(), expires_at: self.expires_at }
    }
}

pub open spec fn record_of(records: Seq<ReconnectRecord>, account: Seq<char>) -> Option<ReconnectRecord> {
    if exists|i: int| 0 <= i < records.len() && (#[trigger] records[i]).account_id@ == account {
        Some(records[choose|i: int| 0 <= i < records.len() && (#[trigger] records[i]).account_id@ == account])
    } else {
        None
    }
}

pub open spec fn unique_records(records: Seq<ReconnectRecord>) -> bool {
    forall|i: int, j: int| 0 <= i < j < records.len() ==> (#[trigger] records[i]).account_id@ != (#[trigger] records[j]).account_id@
}

/// The deadline of a record stashed at `now`.
pub open spec fn expiry(now: u64) -> u64 {
    if now as int + LINGER_WINDOW_MS as int > u64::MAX as int { u64::MAX } else { (now + LINGER_WINDOW_MS) as u64 }
}

/// Records keyed by account id, at most one per account.
#[derive(Debug)]
pub struct ReconnectRegistry {
    records: Vec<ReconnectRecord>,
}

impl ReconnectRegistry {
    pub closed spec fn view(&self) -> Seq<ReconnectRecord> {
        self.records@
    }

    pub open spec fn wf(&self) -> bool {
        unique_records(self.view())
    }

    /// The record of `account`, if any.
    pub open spec fn record(&self, account: Seq<char>) -> Option<ReconnectRecord> {
        record_of(self.view(), account)
    }

    pub fn new() -> (r: Self)
        ensures
            r.wf(),
            r.view().len() == 0,
    {
        ReconnectRegistry { records: Vec::new() }
    }

    fn position(&self, account: &String) -> (r: Option<usize>)
        requires
            self.wf(),
        ensures
            r is None <==> self.record(account@) is None,
            r matches Some(i) ==> i < self.view().len() && self.view()[i as int].account_id@ == account@
                && self.record(account@) == Some(self.view()[i as int]),
    {
        let mut i: usize = 0;
        while i < self.records.len()
            invariant
                i <= self.records@.len(),
                unique_records(self.records@),
                forall|k: int| 0 <= k < i ==> (#[trigger] self.records@[k]).account_id@ != account@,
            decreases self.records@.len() - i,
        {
            if self.records[i].account_id == *account {
                proof {
                    let c = choose|c: int| 0 <= c < self.records@.len() && (#[trigger] self.records@[c]).account_id@ == account@;
                    if c < i {
                        assert(false);
                    } else if c > i {
                        assert(self.records@[i as int].account_id@ != self.records@[c].account_id@);
                    }
                }
                return Some(i);
            }
            i = i + 1;
        }
        None
    }

    /// Whether `account` has a record still good at `now`.
    pub fn can_reconnect(&self, account: &String, now: u64) -> (r: bool)
        requires
            self.wf(),
        ensures
            r == (self.record(account@) matches Some(rec) && now <= rec.expires_at),
    {
        match self.position(account) {
            Some(i) => now <= self.records[i].expires_at,
            None => false,
        }
    }

    /// Keeps `account`'s way back into `join_code` until the linger window
    /// after `now` ends, replacing an older record of the same account.
    pub fn stash(&mut self, account: String, join_code: String, now: u64)
        requires
            old(self).wf(),
        ensures
            final(self).wf(),
            final(self).record(account@) == Some(ReconnectRecord { account_id: account, join_code, expires_at: expiry(now) }),
            forall|a: Seq<char>| a != account@ ==> #[trigger] final(self).record(a) == old(self).record(a),
    {
        let ghost acc = account@;
        self.forget(&account);
        let ghost mid = *self;
        let expires_at = if now > u64::MAX - LINGER_WINDOW_MS { u64::MAX } else { now + LINGER_WINDOW_MS };
        let rec = ReconnectRecord { account_id: account, join_code, expires_at };
        let ghost before = self.records@;
        self.records.push(rec);
        proof {
            assert forall|i: int, j: int| 0 <= i < j < self.records@.len() implies
                (#[trigger] self.records@[i]).account_id@ != (#[trigger] self.records@[j]).account_id@ by {
                if j == before.len() {
                    assert(self.records@[i] == before[i]);
                    if before[i].account_id@ == acc {
                        assert(record_of(before, acc) is Some);
                    }
                }
            }
            let n = before.len() as int;
            assert(self.records@[n].account_id@ == acc);
            let c = choose|c: int| 0 <= c < self.records@.len() && (#[trigger] self.records@[c]).account_id@ == acc;
            if c < n {
                assert(self.records@[c] == before[c]);
                assert(record_of(before, acc) is Some);
            }
            assert forall|a: Seq<char>| a != acc implies #[trigger] record_of(self.records@, a) == old(self).record(a) by {
                assert(mid.record(a) == old(self).record(a));
                assert(mid.view() == before);
                if exists|i: int| 0 <= i < self.records@.len() && (#[trigger] self.records@[i]).account_id@ == a {
                    let k = choose|i: int| 0 <= i < self.records@.len() && (#[trigger] self.records@[i]).account_id@ == a;
                    assert(k < n);
                    assert(before[k].account_id@ == a);
                    let k2 = choose|i: int| 0 <= i < before.len() && (#[trigger] before[i]).account_id@ == a;
                    assert(self.records@[k2] == before[k2]);
                    if k != k2 {
                        if k < k2 {
                            assert(self.records@[k].account_id@ != self.records@[k2].account_id@);
                        } else {
                            assert(self.records@[k2].account_id@ != self.records@[k].account_id@);
                        }
                    }
                } else {
                    if exists|i: int| 0 <= i < before.len() && (#[trigger] before[i]).account_id@ == a {
                        let k2 = choose|i: int| 0 <= i < before.len() && (#[trigger] before[i]).account_id@ == a;
                        assert(self.records@[k2] == before[k2]);
                    }
                }
            }
        }
    }

    /// Drops `account`'s record, if any.
    pub fn forget(&mut self, account: &String)
        requires
            old(self).wf(),
        ensures
            final(self).wf(),
            final(self).record(account@) is None,
            forall|a: Seq<char>| a != account@ ==> #[trigger] final(self).record(a) == old(self).record(a),
    {
        match self.position(account) {
            Some(i) => {
                let ghost before = self.records@;
                self.records.remove(i);
                proof {
                    let after = self.records@;
                    assert(after =~= before.remove(i as int));
                    assert forall|a: int, b: int| 0 <= a < b < after.len() implies
                        (#[trigger] after[a]).account_id@ != (#[trigger] after[b]).account_id@ by {
                        let a0 = if a < i { a } else { a + 1 };
                        let b0 = if b < i { b } else { b + 1 };
                        assert(after[a] == before[a0]);
                        assert(after[b] == before[b0]);
                    }
                    if exists|k: int| 0 <= k < after.len() && (#[trigger] after[k]).account_id@ == account@ {
                        let k = choose|k: int| 0 <= k < after.len() && (#[trigger] after[k]).account_id@ == account@;
                        let k0 = if k < i { k } else { k + 1 };
                        assert(after[k] == before[k0]);
                        if k0 < i {
                            assert(before[k0].account_id@ != before[i as int].account_id@);
                        } else {
                            assert(before[i as int].account_id@ != before[k0].account_id@);
                        }
                    }
                    assert forall|a: Seq<char>| a != account@ implies #[trigger] record_of(after, a) == record_of(before, a) by {
                        if exists|k: int| 0 <= k < before.len() && (#[trigger] before[k]).account_id@ == a {
                            let k = choose|k: int| 0 <= k < before.len() && (#[trigger] before[k]).account_id@ == a;
                            assert(k != i);
                            let k1 = if k < i { k } else { k - 1 };
                            assert(after[k1] == before[k]);
                            let c = choose|c: int| 0 <= c < after.len() && (#[trigger] after[c]).account_id@ == a;
                            let c0 = if c < i { c } else { c + 1 };
                            assert(after[c] == before[c0]);
                            if c0 != k {
                                if c0 < k {
                                    assert(before[c0].account_id@ != before[k].account_id@);
                                } else {
                                    assert(before[k].account_id@ != before[c0].account_id@);
                                }
                            }
                        } else {
                            if exists|c: int| 0 <= c < after.len() && (#[trigger] after[c]).account_id@ == a {
                                let c = choose|c: int| 0 <= c < after.len() && (#[trigger] after[c]).account_id@ == a;
                                let c0 = if c < i { c } else { c + 1 };
                                assert(after[c] == before[c0]);
                            }
                        }
                    }
                }
            },
            None => {},
        }
    }

    /// Moves `account`'s record out if it is still good at `now`; a record
    /// past its window is dropped. Returns the room to go back to.
    pub fn recover(&mut self, account: &String, now: u64) -> (r: Option<String>)
        requires
            old(self).wf(),
        ensures
            final(self).wf(),
            final(self).record(account@) is None,
            forall|a: Seq<char>| a != account@ ==> #[trigger] final(self).record(a) == old(self).record(a),
            r is Some <==> (old(self).record(account@) matches Some(rec) && now <= rec.expires_at),
            r matches Some(code) ==> code@ == old(self).record(account@)->Some_0.join_code@,
    {
        let found = match self.position(account) {
            Some(i) => {
                if now <= self.records[i].expires_at {
                    Some(self.records[i].join_code.clone())
                } else {
                    None
                }
            },
            None => None,
        };
        self.forget(account);
        found
    }

    /// Removes and returns every record whose window ended before `now`.
    pub fn sweep(&mut self, now: u64) -> (expired: Vec<ReconnectRecord>)
        requires
            old(self).wf(),
        ensures
            final(self).wf(),
            forall|i: int| 0 <= i < final(self).view().len() ==> now <= (#[trigger] final(self).view()[i]).expires_at,
            forall|i: int| 0 <= i < expired@.len() ==> (#[trigger] expired@[i]).expires_at < now,
            forall|i: int| 0 <= i < old(self).view().len() ==> {
                let rec = #[trigger] old(self).view()[i];
                if rec.expires_at < now { expired@.contains(rec) } else { final(self).view().contains(rec) }
            },
            expired@.len() + final(self).view().len() == old(self).view().len(),
    {
        let mut kept: Vec<ReconnectRecord> = Vec::new();
        let mut expired: Vec<ReconnectRecord> = Vec::new();
        let mut i: usize = 0;
        while i < self.records.len()
            invariant
                self.records@ == old(self).records@,
                unique_records(self.records@),
                i <= self.records@.len(),
                kept@.len() + expired@.len() == i,
                forall|k: int| 0 <= k < kept@.len() ==> now <= (#[trigger] kept@[k]).expires_at,
                forall|k: int| 0 <= k < expired@.len() ==> (#[trigger] expired@[k]).expires_at < now,
                forall|k: int| 0 <= k < i ==> {
                    let rec = #[trigger] self.records@[k];
                    if rec.expires_at < now { expired@.contains(rec) } else { kept@.contains(rec) }
                },
                forall|a: int, b: int| 0 <= a < b < kept@.len() ==> (#[trigger] kept@[a]).account_id@ != (#[trigger] kept@[b]).account_id@,
                forall|a: int| 0 <= a < kept@.len() ==> exists|k: int| 0 <= k < i && #[trigger] kept@[a] == self.records@[k],
            decreases self.records@.len() - i,
        {
            let rec = self.records[i].clone();
            let ghost kb = kept@;
            let ghost eb = expired@;
            if rec.expires_at < now {
                expired.push(rec);
            } else {
                kept.push(rec);
                proof {
                    assert forall|a: int, b: int| 0 <= a < b < kept@.len() implies
                        (#[trigger] kept@[a]).account_id@ != (#[trigger] kept@[b]).account_id@ by {
                        if b == kb.len() {
                            assert(kept@[a] == kb[a]);
                            let k = choose|k: int| 0 <= k < i && #[trigger] kb[a] == self.records@[k];
                            assert(self.records@[k].account_id@ != self.records@[i as int].account_id@);
                        }
                    }
                }
            }
            proof {
                assert forall|k: int| 0 <= k < i + 1 implies {
                    let rec = #[trigger] self.records@[k];
                    if rec.expires_at < now { expired@.contains(rec) } else { kept@.contains(rec) }
                } by {
                    if k < i {
                        let r = self.records@[k];
                        if r.expires_at < now {
                            let w = choose|w: int| 0 <= w < eb.len() && eb[w] == r;
                            assert(expired@[w] == r);
                        } else {
                            let w = choose|w: int| 0 <= w < kb.len() && kb[w] == r;
                            assert(kept@[w] == r);
                        }
                    } else {
                        if self.records@[k].expires_at < now {
                            assert(expired@[eb.len() as int] == self.records@[k]);
                        } else {
                            assert(kept@[kb.len() as int] == self.records@[k]);
                        }
                    }
                }
                assert forall|a: int| 0 <= a < kept@.len() implies exists|k: int| 0 <= k < i + 1 && #[trigger] kept@[a] == self.records@[k] by {
                    if a < kb.len() {
                        assert(kept@[a] == kb[a]);
                        let k = choose|k: int| 0 <= k < i && #[trigger] kb[a] == self.records@[k];
                    } else {
                        assert(kept@[a] == self.records@[i as int]);
                    }
                }
            }
            i = i + 1;
        }
        self.records = kept;
        expired
    }
}


/// A record stashed at `stashed` is still good at any `now` within the
/// linger window after it.
pub proof fn lemma_within_window(stashed: u64, now: u64)
    requires
        stashed <= now,
        now as int <= stashed as int + LINGER_WINDOW_MS as int,
    ensures
        now <= expiry(stashed),
{
}
} // verus!
