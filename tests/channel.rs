use tmbingo::channel::{Channel, ChannelCollection};
use tmbingo::broadcast::{create_channel, remove_channel, send, subscribe, Broadcaster};
use tmbingo::messageable::{new_id, IdSource, Messageable};

#[test]
fn subscribing_twice_delivers_once() {
    let mut c = Channel::new();
    c.subscribe(7);
    c.subscribe(7);
    c.subscribe(8);
    assert_eq!(c.broadcast(&vec![]), vec![7, 8]);
}

#[test]
fn broadcasts_reach_current_subscribers() {
    let mut fabric = ChannelCollection::new();
    let room = fabric.create_one();
    let other = fabric.create_one();
    assert_ne!(room, other);
    assert!(fabric.subscribe(room, 1));
    assert!(fabric.subscribe(room, 2));
    assert_eq!(fabric.broadcast(room), vec![1, 2]);
    assert!(fabric.unsubscribe(room, 1));
    assert!(fabric.subscribe(room, 3));
    assert_eq!(fabric.broadcast(room), vec![2, 3]);
    assert!(fabric.broadcast(other).is_empty());
}

#[test]
fn dead_subscribers_are_collected() {
    let mut fabric = ChannelCollection::new();
    let room = fabric.create_one();
    for k in 1..=4 {
        fabric.subscribe(room, k);
    }
    assert!(fabric.cleanup(room, &vec![2, 4, 9]));
    assert_eq!(fabric.broadcast(room), vec![1, 3]);
}

#[test]
fn closed_channel_broadcasts_to_no_one() {
    let mut fabric = ChannelCollection::new();
    let room = fabric.create_one();
    fabric.subscribe(room, 1);
    assert!(fabric.remove(room));
    assert!(!fabric.remove(room));
    assert!(fabric.broadcast(room).is_empty());
    assert!(!fabric.subscribe(room, 1));
    let next = fabric.create_one();
    assert_ne!(next, room);
    assert!(fabric.broadcast(next).is_empty());
}

#[test]
fn connection_keys_are_fresh() {
    let mut ids = IdSource::new();
    let a = new_id(&mut ids);
    let b = new_id(&mut ids);
    assert_eq!((a.0, b.0), (0, 1));
}

#[test]
fn keyed_channels() {
    let mut reg = Broadcaster::new();
    let a = Messageable(3);
    assert!(send(&reg, a).is_empty());
    subscribe(&mut reg, a, 1);
    assert!(send(&reg, a).is_empty());
    create_channel(&mut reg, a);
    subscribe(&mut reg, a, 1);
    subscribe(&mut reg, a, 1);
    subscribe(&mut reg, a, 2);
    assert_eq!(send(&reg, a), vec![1, 2]);
    assert!(send(&reg, Messageable(0)).is_empty());
    remove_channel(&mut reg, a);
    assert!(send(&reg, a).is_empty());
    create_channel(&mut reg, a);
    assert!(send(&reg, a).is_empty());
}

#[test]
fn channel_unsubscribe_and_cleanup() {
    let mut c = Channel::new();
    for k in [5, 6, 7, 8] {
        c.subscribe(k);
    }
    c.unsubscribe(6);
    c.unsubscribe(42);
    assert_eq!(c.subscribers(), vec![5, 7, 8]);
    c.cleanup(&vec![8, 5]);
    assert_eq!(c.subscribers(), vec![7]);
    c.subscribe(9);
    assert_eq!(c.broadcast(&vec![7]), vec![9]);
    assert_eq!(c.subscribers(), vec![9]);
}
