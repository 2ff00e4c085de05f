//! Race maps and the bounded queues of prefetched maps.

use vstd::prelude::*;

use rand::seq::SliceRandom;

use crate::config::MAP_FETCH_TIMEOUT_MS;
use crate::room::MapMode;

verus! {

/// A race map of the external catalogue.
#[derive(Debug)]
pub struct GameMap {
    pub track_id: i64,
    pub uid: String,
    pub name: String,
    pub author_name: String,
}

impl Clone for GameMap {
    fn clone(&self) -> (r: Self)
        ensures
            r == *self,
    {
        GameMap {
            track_id: self.track_id,
            uid: self.uid.clone(),
            name: self.name.clone(),
            author_name: self.author_name.clone(),
        }
    }
}

/// A copy of `maps`, element by element.
pub fn clone_maps(maps: &Vec<GameMap>) -> (r: Vec<GameMap>)
    ensures
        r@ == maps@,
{
    let mut r: Vec<GameMap> = Vec::new();
    let mut i: usize = 0;
    while i < maps.len()
        invariant
            i <= maps@.len(),
            r@ == maps@.subrange(0, i as int),
        decreases maps@.len() - i,
    {
        r.push(maps[i].clone());
        i = i + 1;
    }
    assert(r@ =~= maps@);
    r
}

/// What a room asks the prefetcher for.
#[derive(Debug, Clone, Copy)]
pub struct MapQuery {
    pub mode: MapMode,
    pub count: usize,
    pub mappack_id: Option<u32>,
}

impl MapQuery {
    pub fn new(mode: MapMode, count: usize, mappack_id: Option<u32>) -> (r: Self)
        ensures
            r.mode == mode,
            r.count == count,
            r.mappack_id == mappack_id,
    {
        MapQuery { mode, count, mappack_id }
    }
}

impl MapQuery {
    /// The mappack to fetch for this query; a query without one names no
    /// pack that could be found.
    pub fn pack_id(&self) -> (r: Result<u32, MapError>)
        ensures
            self.mappack_id matches Some(id) ==> r == Ok::<u32, MapError>(id),
            self.mappack_id is None ==> r == Err::<u32, MapError>(MapError::NotFound),
    {
        match self.mappack_id {
            Some(id) => Ok(id),
            None => Err(MapError::NotFound),
        }
    }
}

/// Whether some map of `s` has track id `id`.
pub open spec fn has_track(s: Seq<GameMap>, id: i64) -> bool {
    exists|i: int| 0 <= i < s.len() && (#[trigger] s[i]).track_id == id
}

/// No two maps of `s` share a track id.
pub open spec fn unique_tracks(s: Seq<GameMap>) -> bool {
    forall|i: int, j: int| 0 <= i < j < s.len() ==> (#[trigger] s[i]).track_id != (#[trigger] s[j]).track_id
}

/// The maps of `maps`, in order, whose track id `stock` does not hold.
pub open spec fn new_maps(stock: Seq<GameMap>, maps: Seq<GameMap>) -> Seq<GameMap>
    decreases maps.len(),
{
    if maps.len() == 0 {
        Seq::empty()
    } else {
        let prev = new_maps(stock, maps.drop_last());
        if has_track(stock, maps.last().track_id) {
            prev
        } else {
            prev.push(maps.last())
        }
    }
}

/// Every map `new_maps` keeps comes from `maps`.
proof fn lemma_new_maps_from(stock: Seq<GameMap>, maps: Seq<GameMap>, k: int)
    requires
        0 <= k < new_maps(stock, maps).len(),
    ensures
        exists|j: int| 0 <= j < maps.len() && maps[j] == #[trigger] new_maps(stock, maps)[k],
    decreases maps.len(),
{
    let prev = new_maps(stock, maps.drop_last());
    if k < prev.len() {
        lemma_new_maps_from(stock, maps.drop_last(), k);
        let j = choose|j: int| 0 <= j < maps.drop_last().len() && maps.drop_last()[j] == #[trigger] new_maps(stock, maps.drop_last())[k];
        assert(maps[j] == new_maps(stock, maps)[k]);
    } else {
        assert(maps[maps.len() - 1] == new_maps(stock, maps)[k]);
    }
}

/// Appending the new maps of a batch without repeated track ids to a queue
/// without repeated track ids leaves none repeated.
pub proof fn lemma_new_maps_unique(stock: Seq<GameMap>, maps: Seq<GameMap>)
    requires
        unique_tracks(stock),
        unique_tracks(maps),
    ensures
        unique_tracks(stock + new_maps(stock, maps)),
    decreases maps.len(),
{
    if maps.len() > 0 {
        let d = maps.drop_last();
        assert forall|i: int, j: int| 0 <= i < j < d.len() implies (#[trigger] d[i]).track_id != (#[trigger] d[j]).track_id by {
            assert(d[i] == maps[i] && d[j] == maps[j]);
        }
        lemma_new_maps_unique(stock, d);
        let prev = new_maps(stock, d);
        let m = maps.last();
        if !has_track(stock, m.track_id) {
            let all = stock + prev.push(m);
            assert forall|i: int, j: int| 0 <= i < j < all.len() implies (#[trigger] all[i]).track_id != (#[trigger] all[j]).track_id by {
                if j == all.len() - 1 {
                    if i < stock.len() {
                        assert(all[i] == stock[i]);
                    } else {
                        let k = i - stock.len();
                        assert(all[i] == prev[k]);
                        lemma_new_maps_from(stock, d, k);
                        let w = choose|w: int| 0 <= w < d.len() && d[w] == #[trigger] new_maps(stock, d)[k];
                        assert(d[w] == maps[w]);
                        assert(maps[w].track_id != maps[maps.len() - 1].track_id);
                    }
                } else {
                    assert(all[i] == (stock + prev)[i]);
                    assert(all[j] == (stock + prev)[j]);
                }
            }
            assert(stock + new_maps(stock, maps) =~= all);
        }
    }
}

/// A queue of prefetched maps; maps leave from the tail.
#[derive(Debug)]
pub struct MapQueue {
    stock: Vec<GameMap>,
}

impl MapQueue {
    /// The maps held, oldest first.
    pub closed spec fn view(&self) -> Seq<GameMap> {
        self.stock@
    }

    /// An empty queue with room for `size` maps.
    pub fn new(size: usize) -> (r: Self)
        ensures
            r.view() == Seq::<GameMap>::empty(),
    {
        MapQueue { stock: Vec::with_capacity(size) }
    }

    /// Takes the last `count` maps, or nothing when fewer are held.
    pub fn get(&mut self, count: usize) -> (r: Option<Vec<GameMap>>)
        ensures
            r is None <==> old(self).view().len() < count,
            r is None ==> final(self).view() == old(self).view(),
            r matches Some(m) ==> {
                let n = old(self).view().len() - count;
                &&& m@ == old(self).view().subrange(n, old(self).view().len() as int)
                &&& final(self).view() == old(self).view().subrange(0, n)
            },
    {
        let length = self.stock.len();
        if length < count {
            return None;
        }
        let r = self.stock.split_off(length - count);
        Some(r)
    }

    /// Appends the maps whose track id the queue did not hold before the
    /// call; returns how many were added.
    pub fn extend(&mut self, maps: Vec<GameMap>) -> (added: usize)
        ensures
            final(self).view() == old(self).view() + new_maps(old(self).view(), maps@),
            added == new_maps(old(self).view(), maps@).len(),
            unique_tracks(old(self).view()) && unique_tracks(maps@) ==> unique_tracks(final(self).view()),
    {
        let ghost start = self.stock@;
        let held = self.stock.len();
        let mut added: usize = 0;
        let mut i: usize = 0;
        while i < maps.len()
            invariant
                i <= maps@.len(),
                held == start.len(),
                self.stock@ == start + new_maps(start, maps@.subrange(0, i as int)),
                added == new_maps(start, maps@.subrange(0, i as int)).len(),
                added <= i,
            decreases maps@.len() - i,
        {
            let m = maps[i].clone();
            proof {
                assert(self.stock@.subrange(0, held as int) =~= start);
            }
            let present = self.holds_track_before(m.track_id, held);
            assert(maps@.subrange(0, i + 1).drop_last() =~= maps@.subrange(0, i as int));
            if !present {
                self.stock.push(m);
                added = added + 1;
                assert(self.stock@ =~= start + new_maps(start, maps@.subrange(0, i + 1)));
            }
            i = i + 1;
        }
        assert(maps@.subrange(0, maps@.len() as int) =~= maps@);
        proof {
            if unique_tracks(start) && unique_tracks(maps@) {
                lemma_new_maps_unique(start, maps@);
            }
        }
        added
    }

    /// Appends `maps` as they are.
    pub fn append(&mut self, maps: Vec<GameMap>)
        ensures
            final(self).view() == old(self).view() + maps@,
    {
        let mut maps = maps;
        self.stock.append(&mut maps);
    }

    /// Whether one of the first `n` maps has track id `id`.
    fn holds_track_before(&self, id: i64, n: usize) -> (r: bool)
        requires
            n <= self.stock@.len(),
        ensures
            r == has_track(self.stock@.subrange(0, n as int), id),
    {
        let mut i: usize = 0;
        while i < n
            invariant
                i <= n <= self.stock@.len(),
                forall|k: int| 0 <= k < i ==> (#[trigger] self.stock@[k]).track_id != id,
            decreases n - i,
        {
            if self.stock[i].track_id == id {
                assert(self.stock@.subrange(0, n as int)[i as int].track_id == id);
                return true;
            }
            i = i + 1;
        }
        proof {
            let s = self.stock@.subrange(0, n as int);
            assert forall|k: int| 0 <= k < s.len() implies (#[trigger] s[k]).track_id != id by {
                assert(s[k] == self.stock@[k]);
            }
        }
        false
    }

    pub fn size(&self) -> (r: usize)
        ensures
            r == self.view().len(),
    {
        self.stock.len()
    }
}


/// Relies on `rand::seq::SliceRandom::shuffle` with the thread-local
/// generator: the maps are reordered, none added or lost.
#[verifier::external_body]
fn shuffle_maps(maps: &mut Vec<GameMap>)
    ensures
        final(maps)@.to_multiset() == old(maps)@.to_multiset(),
        final(maps)@.len() == old(maps)@.len(),
{
    maps.shuffle(&mut rand::thread_rng())
}

/// Why maps could not be had.
#[derive(Debug, PartialEq, Eq)]
pub enum MapError {
    /// The queue did not fill within the deadline, in milliseconds.
    TimedOut { after_ms: u64 },
    /// The mappack has fewer maps than the grid needs.
    InsufficientMaps { needed: usize, available: usize },
    /// The catalogue's reply could not be read: the mappack does not exist or is hidden.
    NotFound,
    /// Any other failure of the catalogue, as it reported it.
    Service(String),
}

/// One look at a queue on behalf of a waiting request.
#[derive(Debug)]
pub enum MapPoll {
    Ready(Vec<GameMap>),
    Pending,
    TimedOut,
}

/// Picks `count` maps of a mappack in random order: the first `count` of a
/// shuffle of `maps`. Fails when the pack has fewer maps than that.
pub fn select_mappack(maps: Vec<GameMap>, count: usize) -> (r: Result<Vec<GameMap>, MapError>)
    ensures
        maps@.len() < count <==> r is Err,
        r matches Err(e) ==> e == (MapError::InsufficientMaps { needed: count, available: maps@.len() as usize }),
        r matches Ok(v) ==> v@.len() == count && exists|s: Seq<GameMap>|
            s.to_multiset() == maps@.to_multiset() && s.len() == maps@.len() && v@ == #[trigger] s.subrange(0, count as int),
{
    if maps.len() < count {
        return Err(MapError::InsufficientMaps { needed: count, available: maps.len() });
    }
    let mut maps = maps;
    shuffle_maps(&mut maps);
    let ghost s = maps@;
    maps.truncate(count);
    assert(maps@ == s.subrange(0, count as int));
    Ok(maps)
}

/// The error a failed mappack fetch stands for: an unreadable reply means
/// the pack does not exist or is hidden; anything else is passed on.
pub fn mappack_fetch_error(decode_failed: bool, message: String) -> (r: MapError)
    ensures
        decode_failed ==> r == MapError::NotFound,
        !decode_failed ==> r == MapError::Service(message),
{
    if decode_failed {
        MapError::NotFound
    } else {
        MapError::Service(message)
    }
}

/// The prefetched maps of both automatic modes.
#[derive(Debug)]
pub struct MapStock {
    totd: MapQueue,
    random_tmx: MapQueue,
    capacity: usize,
    totd_in_flight: bool,
    random_tmx_in_flight: bool,
}

impl MapStock {
    pub closed spec fn spec_capacity(&self) -> usize {
        self.capacity
    }

    /// The queue of an automatic mode; empty for mappacks, which have none.
    pub closed spec fn queue(&self, mode: MapMode) -> Seq<GameMap> {
        match mode {
            MapMode::TOTD => self.totd.view(),
            MapMode::RandomTMX => self.random_tmx.view(),
            MapMode::Mappack => Seq::empty(),
        }
    }

    /// Whether a fetch for `mode` is under way.
    pub closed spec fn in_flight(&self, mode: MapMode) -> bool {
        match mode {
            MapMode::TOTD => self.totd_in_flight,
            MapMode::RandomTMX => self.random_tmx_in_flight,
            MapMode::Mappack => false,
        }
    }

    /// Empty queues reserving `size` maps each, bounded by `capacity`.
    pub fn new(size: usize, capacity: usize) -> (r: Self)
        ensures
            r.spec_capacity() == capacity,
            forall|m: MapMode| #[trigger] r.queue(m).len() == 0,
            forall|m: MapMode| !#[trigger] r.in_flight(m),
    {
        MapStock {
            totd: MapQueue::new(size),
            random_tmx: MapQueue::new(size),
            capacity,
            totd_in_flight: false,
            random_tmx_in_flight: false,
        }
    }

    /// Claims the fetch for `mode` if one is worth making and none is under
    /// way; returns whether the caller should fetch.
    pub fn begin_fetch(&mut self, mode: MapMode) -> (r: bool)
        ensures
            r == (mode != MapMode::Mappack && old(self).queue(mode).len() < old(self).spec_capacity() && !old(self).in_flight(mode)),
            r ==> final(self).in_flight(mode),
            !r ==> final(self).in_flight(mode) == old(self).in_flight(mode),
            forall|m: MapMode| m != mode ==> #[trigger] final(self).in_flight(m) == old(self).in_flight(m),
            forall|m: MapMode| #[trigger] final(self).queue(m) == old(self).queue(m),
            final(self).spec_capacity() == old(self).spec_capacity(),
    {
        if !self.should_fetch(mode) {
            return false;
        }
        match mode {
            MapMode::TOTD => {
                if self.totd_in_flight {
                    return false;
                }
                self.totd_in_flight = true;
            },
            _ => {
                if self.random_tmx_in_flight {
                    return false;
                }
                self.random_tmx_in_flight = true;
            },
        }
        true
    }

    /// Ends the fetch for `mode`, storing what it brought (nothing when it
    /// failed); returns how many maps were added.
    pub fn end_fetch(&mut self, mode: MapMode, maps: Vec<GameMap>) -> (added: usize)
        ensures
            !final(self).in_flight(mode),
            forall|m: MapMode| m != mode ==> #[trigger] final(self).in_flight(m) == old(self).in_flight(m),
            mode != MapMode::Mappack ==> final(self).queue(mode) == old(self).queue(mode) + new_maps(old(self).queue(mode), maps@),
            added == final(self).queue(mode).len() - old(self).queue(mode).len(),
            forall|m: MapMode| m != mode ==> #[trigger] final(self).queue(m) == old(self).queue(m),
            final(self).spec_capacity() == old(self).spec_capacity(),
    {
        match mode {
            MapMode::TOTD => self.totd_in_flight = false,
            MapMode::RandomTMX => self.random_tmx_in_flight = false,
            MapMode::Mappack => {},
        }
        self.extend_maps(mode, maps)
    }

    pub fn size(&self, mode: MapMode) -> (r: usize)
        ensures
            r == self.queue(mode).len(),
    {
        match mode {
            MapMode::TOTD => self.totd.size(),
            MapMode::RandomTMX => self.random_tmx.size(),
            MapMode::Mappack => 0,
        }
    }

    /// Whether a restock request for `mode` is worth a fetch: only automatic
    /// modes have queues, and a queue at capacity takes no more.
    pub fn should_fetch(&self, mode: MapMode) -> (r: bool)
        ensures
            r == (mode != MapMode::Mappack && self.queue(mode).len() < self.spec_capacity()),
    {
        mode != MapMode::Mappack && self.size(mode) < self.capacity
    }

    /// Adds maps to the queue of `mode`, skipping track ids it already holds;
    /// returns how many were added. Mappack maps have no queue and are dropped.
    pub fn extend_maps(&mut self, mode: MapMode, maps: Vec<GameMap>) -> (added: usize)
        ensures
            final(self).spec_capacity() == old(self).spec_capacity(),
            mode != MapMode::Mappack ==> final(self).queue(mode) == old(self).queue(mode) + new_maps(old(self).queue(mode), maps@),
            added == final(self).queue(mode).len() - old(self).queue(mode).len(),
            forall|m: MapMode| m != mode ==> #[trigger] final(self).queue(m) == old(self).queue(m),
            forall|m: MapMode| #[trigger] final(self).in_flight(m) == old(self).in_flight(m),
    {
        match mode {
            MapMode::TOTD => self.totd.extend(maps),
            MapMode::RandomTMX => self.random_tmx.extend(maps),
            MapMode::Mappack => 0,
        }
    }

    /// Takes `count` maps from the tail of the queue of `mode`, or reports how
    /// many it holds when that is fewer.
    pub fn take(&mut self, mode: MapMode, count: usize) -> (r: Result<Vec<GameMap>, usize>)
        requires
            mode != MapMode::Mappack,
        ensures
            final(self).spec_capacity() == old(self).spec_capacity(),
            r matches Err(n) ==> n == old(self).queue(mode).len() && n < count && final(self).queue(mode) == old(self).queue(mode),
            r is Ok <==> old(self).queue(mode).len() >= count,
            r matches Ok(v) ==> {
                let n = old(self).queue(mode).len() - count;
                &&& v@ == old(self).queue(mode).subrange(n, old(self).queue(mode).len() as int)
                &&& final(self).queue(mode) == old(self).queue(mode).subrange(0, n)
            },
            forall|m: MapMode| m != mode ==> #[trigger] final(self).queue(m) == old(self).queue(m),
    {
        let held = self.size(mode);
        let got = match mode {
            MapMode::TOTD => self.totd.get(count),
            _ => self.random_tmx.get(count),
        };
        match got {
            Some(v) => Ok(v),
            None => Err(held),
        }
    }

    /// One look at the queue of `mode` for a request of `count` maps that
    /// gives up after `deadline`: the maps when enough are held, else
    /// `TimedOut` once `now` is past the deadline, else `Pending`.
    pub fn poll(&mut self, mode: MapMode, count: usize, now: u64, deadline: u64) -> (r: MapPoll)
        requires
            mode != MapMode::Mappack,
        ensures
            final(self).spec_capacity() == old(self).spec_capacity(),
            old(self).queue(mode).len() >= count ==> {
                let n = old(self).queue(mode).len() - count;
                &&& (r matches MapPoll::Ready(v) && v@ == old(self).queue(mode).subrange(n, old(self).queue(mode).len() as int))
                &&& final(self).queue(mode) == old(self).queue(mode).subrange(0, n)
            },
            old(self).queue(mode).len() < count ==> final(self).queue(mode) == old(self).queue(mode),
            old(self).queue(mode).len() < count && now > deadline ==> r is TimedOut,
            old(self).queue(mode).len() < count && now <= deadline ==> r is Pending,
            forall|m: MapMode| m != mode ==> #[trigger] final(self).queue(m) == old(self).queue(m),
    {
        match self.take(mode, count) {
            Ok(v) => MapPoll::Ready(v),
            Err(_) => if now > deadline {
                MapPoll::TimedOut
            } else {
                MapPoll::Pending
            },
        }
    }
}

/// The error a request that waited past its deadline gets.
pub fn timeout_error() -> (r: MapError)
    ensures
        r == (MapError::TimedOut { after_ms: MAP_FETCH_TIMEOUT_MS }),
{
    MapError::TimedOut { after_ms: MAP_FETCH_TIMEOUT_MS }
}

/// Takes `count` maps of `mode` from `stock`; `Err` holds how many it has
/// when that is fewer.
pub fn get_tracks(stock: &mut MapStock, mode: MapMode, count: usize) -> (r: Result<Vec<GameMap>, usize>)
    requires
        mode != MapMode::Mappack,
    ensures
        r matches Err(n) ==> n == old(stock).queue(mode).len() && final(stock).queue(mode) == old(stock).queue(mode),
        r is Ok <==> old(stock).queue(mode).len() >= count,
        r matches Ok(v) ==> {
            let n = old(stock).queue(mode).len() - count;
            &&& v@ == old(stock).queue(mode).subrange(n, old(stock).queue(mode).len() as int)
            &&& final(stock).queue(mode) == old(stock).queue(mode).subrange(0, n)
        },
{
    stock.take(mode, count)
}

/// Hands maps back to the queue of `mode`, appended as they are.
pub fn pushback_tracks(stock: &mut MapStock, mode: MapMode, maps: Vec<GameMap>)
    requires
        mode != MapMode::Mappack,
    ensures
        final(stock).queue(mode) == old(stock).queue(mode) + maps@,
        forall|m: MapMode| m != mode ==> #[trigger] final(stock).queue(m) == old(stock).queue(m),
{
    match mode {
        MapMode::TOTD => stock.totd.append(maps),
        _ => stock.random_tmx.append(maps),
    }
}

} // verus!
