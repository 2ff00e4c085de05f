//! What happens to a client's room membership when its connection drops,
//! comes back, or stays away past the linger window.

use vstd::prelude::*;

use crate::events::Dispatch;
use crate::reconnect::{expiry, ReconnectRecord, ReconnectRegistry};
use crate::requests::ClientContext;
use crate::room::{has_account, PlayerData, PlayerIdentity};
use crate::server::{member_of, room_at, GameServer};

verus! {

/// A key no connection is given (`new_id` hands out keys below it), used
/// for evictions made after the connection is gone.
pub const NO_CONNECTION: u64 = 0xffff_ffff_ffff_ffff;

/// A dropped connection: its slot stays, marked disconnected, and the player
/// gets a record to come back within the linger window after `now`.
pub fn client_disconnected(server: &mut GameServer, registry: &mut ReconnectRegistry, ctx: &mut ClientContext, now: u64)
    requires
        old(server).wf(),
        old(registry).wf(),
    ensures
        final(server).wf(),
        final(registry).wf(),
        final(ctx).room is None,
        final(ctx).identity == old(ctx).identity,
        final(ctx).key == old(ctx).key,
        old(ctx).room is None ==> final(server).spec_rooms() == old(server).spec_rooms()
            && final(registry).view() == old(registry).view(),
        old(ctx).room matches Some(code) ==> {
            let member = exists|i: int| room_at(old(server).spec_rooms(), code@, i)
                && has_account((#[trigger] old(server).spec_rooms()[i]).spec_members(), old(ctx).identity.account_id@);
            &&& member ==> final(registry).record(old(ctx).identity.account_id@) == Some(ReconnectRecord {
                account_id: old(ctx).identity.account_id,
                join_code: code,
                expires_at: expiry(now),
            })
            &&& !member ==> final(registry).view() == old(registry).view()
                && final(server).spec_rooms() == old(server).spec_rooms()
            &&& forall|i: int| #[trigger] room_at(old(server).spec_rooms(), code@, i) && member ==> {
                let room = old(server).spec_rooms()[i];
                let after = final(server).spec_rooms()[i];
                &&& final(server).spec_rooms() == old(server).spec_rooms().update(i, after)
                &&& forall|m: int| 0 <= m < room.spec_members().len()
                    && (#[trigger] room.spec_members()[m]).identity.account_id@ == old(ctx).identity.account_id@ ==>
                    after.spec_members() == room.spec_members().update(m, PlayerData { disconnected: true, ..room.spec_members()[m] })
                &&& after.spec_config() == room.spec_config()
                &&& after.spec_teams() == room.spec_teams()
                &&& after.spec_maps() == room.spec_maps()
                &&& after.spec_active() == room.spec_active()
                &&& final(server).subscribers(room.spec_channel()) == old(server).subscribers(room.spec_channel()).remove(old(ctx).key)
            }
        },
{
    let room = ctx.room.take();
    match room {
        Some(code) => {
            if server.disconnect(&ctx.identity, ctx.key, &code) {
                registry.stash(ctx.identity.account_id.clone(), code, now);
            }
        },
        None => {},
    }
}

/// A player who authenticated again: when its record is still good at `now`
/// and the room still holds its slot, the slot is marked back and the new
/// connection joins the room's channel. Returns whether that happened.
pub fn client_reconnected(server: &mut GameServer, registry: &mut ReconnectRegistry, ctx: &mut ClientContext, now: u64) -> (r: bool)
    requires
        old(server).wf(),
        old(registry).wf(),
    ensures
        final(server).wf(),
        final(registry).wf(),
        final(registry).record(old(ctx).identity.account_id@) is None,
        final(ctx).identity == old(ctx).identity,
        final(ctx).key == old(ctx).key,
        !r ==> final(ctx).room == old(ctx).room && final(server).spec_rooms() == old(server).spec_rooms(),
        r == (old(registry).record(old(ctx).identity.account_id@) matches Some(rec)
            && now <= rec.expires_at
            && member_of(old(server).spec_rooms(), rec.join_code@, old(ctx).identity.account_id@)),
        r ==> ({
            let rec = old(registry).record(old(ctx).identity.account_id@)->Some_0;
            &&& (final(ctx).room matches Some(c) && c@ == rec.join_code@)
            &&& forall|i: int| #[trigger] room_at(old(server).spec_rooms(), rec.join_code@, i) ==> {
                let room = old(server).spec_rooms()[i];
                let after = final(server).spec_rooms()[i];
                &&& final(server).spec_rooms() == old(server).spec_rooms().update(i, after)
                &&& forall|m: int| 0 <= m < room.spec_members().len()
                    && (#[trigger] room.spec_members()[m]).identity.account_id@ == old(ctx).identity.account_id@ ==>
                    after.spec_members() == room.spec_members().update(m, PlayerData { disconnected: false, ..room.spec_members()[m] })
                &&& after.spec_config() == room.spec_config()
                &&& after.spec_teams() == room.spec_teams()
                &&& after.spec_maps() == room.spec_maps()
                &&& after.spec_active() == room.spec_active()
                &&& old(server).spec_channels().view().contains_key(room.spec_channel().key()) ==>
                    final(server).subscribers(room.spec_channel()) == old(server).subscribers(room.spec_channel()).insert(old(ctx).key)
            }
        }),
{
    match registry.recover(&ctx.identity.account_id, now) {
        Some(code) => {
            if server.reconnect(&ctx.identity, ctx.key, &code) {
                ctx.room = Some(code);
                true
            } else {
                false
            }
        },
        None => false,
    }
}

/// Evicts every player whose record ran out before `now`, as if they had
/// left their room; returns the events for the rooms that remain.
pub fn sweep_expired(server: &mut GameServer, registry: &mut ReconnectRegistry, now: u64) -> (r: Vec<Dispatch>)
    requires
        old(server).wf(),
        old(registry).wf(),
    ensures
        final(server).wf(),
        final(registry).wf(),
        forall|i: int| 0 <= i < final(registry).view().len() ==> now <= (#[trigger] final(registry).view()[i]).expires_at,
        forall|j: int| 0 <= j < old(registry).view().len() && (#[trigger] old(registry).view()[j]).expires_at < now ==>
            !member_of(final(server).spec_rooms(), old(registry).view()[j].join_code@, old(registry).view()[j].account_id@),
        forall|c: Seq<char>, a: Seq<char>| #[trigger] member_of(final(server).spec_rooms(), c, a) ==> member_of(old(server).spec_rooms(), c, a),
        forall|k: int| 0 <= k < r@.len() ==> (#[trigger] r@[k]).event is RoomUpdate,
{
    let expired = registry.sweep(now);
    let mut out: Vec<Dispatch> = Vec::new();
    let mut i: usize = 0;
    while i < expired.len()
        invariant
            server.wf(),
            i <= expired@.len(),
            forall|k: int| 0 <= k < i ==> !member_of(server.spec_rooms(), (#[trigger] expired@[k]).join_code@, expired@[k].account_id@),
            forall|c: Seq<char>, a: Seq<char>| #[trigger] member_of(server.spec_rooms(), c, a) ==> member_of(old(server).spec_rooms(), c, a),
            forall|k: int| 0 <= k < out@.len() ==> (#[trigger] out@[k]).event is RoomUpdate,
        decreases expired@.len() - i,
    {
        let gone = PlayerIdentity { account_id: expired[i].account_id.clone(), display_name: String::new() };
        let ghost prev = server.spec_rooms();
        match server.leave_room(&gone, NO_CONNECTION, &expired[i].join_code) {
            Some(d) => out.push(d),
            None => {},
        }
        proof {
            assert forall|k: int| 0 <= k < i + 1 implies !member_of(server.spec_rooms(), (#[trigger] expired@[k]).join_code@, expired@[k].account_id@) by {
                if k < i {
                    if member_of(server.spec_rooms(), expired@[k].join_code@, expired@[k].account_id@) {
                        assert(member_of(prev, expired@[k].join_code@, expired@[k].account_id@));
                    }
                }
            }
        }
        i = i + 1;
    }
    proof {
        assert forall|j: int| 0 <= j < old(registry).view().len() && (#[trigger] old(registry).view()[j]).expires_at < now implies
            !member_of(server.spec_rooms(), old(registry).view()[j].join_code@, old(registry).view()[j].account_id@) by {
            let rec = old(registry).view()[j];
            assert(expired@.contains(rec));
            let k = choose|k: int| 0 <= k < expired@.len() && expired@[k] == rec;
            assert(!member_of(server.spec_rooms(), expired@[k].join_code@, expired@[k].account_id@));
        }
    }
    out
}

} // verus!
