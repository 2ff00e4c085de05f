use tmbingo::gamemap::{get_tracks, mappack_fetch_error, pushback_tracks, select_mappack, timeout_error, GameMap, MapError, MapPoll, MapQuery, MapQueue, MapStock};
use tmbingo::room::MapMode;

fn maps(ids: std::ops::Range<i64>) -> Vec<GameMap> {
    ids.map(|i| GameMap { track_id: i, uid: format!("uid{}", i), name: format!("map {}", i), author_name: "a".to_owned() }).collect()
}

#[test]
fn queue_takes_from_the_tail() {
    let mut q = MapQueue::new(10);
    assert_eq!(q.extend(maps(0..5)), 5);
    let got = q.get(2).unwrap();
    assert_eq!(got.iter().map(|m| m.track_id).collect::<Vec<_>>(), vec![3, 4]);
    assert_eq!(q.size(), 3);
    assert!(q.get(4).is_none());
    assert_eq!(q.size(), 3);
    assert_eq!(q.get(0).unwrap().len(), 0);
}

#[test]
fn queue_skips_known_track_ids() {
    let mut q = MapQueue::new(10);
    q.extend(maps(0..3));
    let mut batch = maps(2..5);
    batch.push(maps(4..5).remove(0));
    // filtered against the queue as it was: the repeated 4 of the batch is kept twice
    assert_eq!(q.extend(batch), 3);
    assert_eq!(q.size(), 6);
}

#[test]
fn prefetcher_fill() {
    let mut stock = MapStock::new(10, 30);
    assert!(stock.should_fetch(MapMode::TOTD));
    assert!(!stock.should_fetch(MapMode::Mappack));
    assert!(matches!(stock.poll(MapMode::TOTD, 9, 100, 20_000), MapPoll::Pending));
    assert_eq!(stock.extend_maps(MapMode::TOTD, maps(0..10)), 10);
    match stock.poll(MapMode::TOTD, 9, 200, 20_000) {
        MapPoll::Ready(v) => assert_eq!(v.len(), 9),
        _ => panic!("expected maps"),
    }
    assert_eq!(stock.size(MapMode::TOTD), 1);
    assert_eq!(stock.size(MapMode::RandomTMX), 0);
}

#[test]
fn prefetcher_times_out() {
    let mut stock = MapStock::new(10, 30);
    stock.extend_maps(MapMode::RandomTMX, maps(0..3));
    assert!(matches!(stock.poll(MapMode::RandomTMX, 9, 20_001, 20_000), MapPoll::TimedOut));
    assert_eq!(stock.size(MapMode::RandomTMX), 3);
    assert_eq!(timeout_error(), MapError::TimedOut { after_ms: 20_000 });
}

#[test]
fn full_queue_is_not_restocked() {
    let mut stock = MapStock::new(2, 3);
    stock.extend_maps(MapMode::TOTD, maps(0..3));
    assert!(!stock.should_fetch(MapMode::TOTD));
    assert!(stock.should_fetch(MapMode::RandomTMX));
}

#[test]
fn tracks_out_and_back() {
    let mut stock = MapStock::new(10, 30);
    assert_eq!(get_tracks(&mut stock, MapMode::TOTD, 2).err(), Some(0));
    pushback_tracks(&mut stock, MapMode::TOTD, maps(0..4));
    let got = get_tracks(&mut stock, MapMode::TOTD, 3).unwrap();
    assert_eq!(got.iter().map(|m| m.track_id).collect::<Vec<_>>(), vec![1, 2, 3]);
    pushback_tracks(&mut stock, MapMode::TOTD, got);
    assert_eq!(stock.size(MapMode::TOTD), 4);
    pushback_tracks(&mut stock, MapMode::TOTD, maps(0..2));
    assert_eq!(stock.size(MapMode::TOTD), 6);
}

#[test]
fn mappack_selection() {
    match select_mappack(maps(0..3), 4) {
        Err(MapError::InsufficientMaps { needed, available }) => assert_eq!((needed, available), (4, 3)),
        _ => panic!("expected an error"),
    }
    let picked = select_mappack(maps(0..25), 9).unwrap();
    assert_eq!(picked.len(), 9);
    let mut ids: Vec<i64> = picked.iter().map(|m| m.track_id).collect();
    ids.sort();
    ids.dedup();
    assert_eq!(ids.len(), 9);
    assert!(ids.iter().all(|i| (0..25).contains(i)));
    let mut all: Vec<i64> = select_mappack(maps(0..5), 5).unwrap().iter().map(|m| m.track_id).collect();
    all.sort();
    assert_eq!(all, vec![0, 1, 2, 3, 4]);
}

#[test]
fn mappack_errors() {
    assert_eq!(mappack_fetch_error(true, "x".to_owned()), MapError::NotFound);
    assert_eq!(mappack_fetch_error(false, "503".to_owned()), MapError::Service("503".to_owned()));
}

#[test]
fn query_fields() {
    let q = MapQuery::new(MapMode::Mappack, 16, Some(42));
    assert_eq!((q.mode, q.count, q.mappack_id), (MapMode::Mappack, 16, Some(42)));
}

#[test]
fn one_fetch_at_a_time() {
    let mut stock = MapStock::new(10, 30);
    assert!(stock.begin_fetch(MapMode::TOTD));
    assert!(!stock.begin_fetch(MapMode::TOTD));
    assert!(stock.begin_fetch(MapMode::RandomTMX));
    assert!(!stock.begin_fetch(MapMode::Mappack));
    assert_eq!(stock.end_fetch(MapMode::TOTD, maps(0..4)), 4);
    assert!(stock.begin_fetch(MapMode::TOTD));
    assert_eq!(stock.end_fetch(MapMode::TOTD, Vec::new()), 0);
    assert_eq!(stock.size(MapMode::TOTD), 4);
}

#[test]
fn mappack_query_needs_an_id() {
    assert_eq!(MapQuery::new(MapMode::Mappack, 9, Some(7)).pack_id(), Ok(7));
    assert_eq!(MapQuery::new(MapMode::Mappack, 9, None).pack_id(), Err(MapError::NotFound));
}
