use relay_hub::coordinator::Coordinator;
use relay_hub::messages::{Delivery, HubMsg, PeerEvent, VideoChunk};

fn connect(c: &mut Coordinator, id: u32, handle: u64) -> Vec<Delivery> {
    c.handle(HubMsg::Connect { id, handle }).deliveries
}

fn is_joined(d: &Delivery, id: u32) -> bool {
    matches!(d.event, PeerEvent::PeerJoined { id: j } if j == id)
}

fn is_left(d: &Delivery, id: u32) -> bool {
    matches!(d.event, PeerEvent::PeerLeft { id: j } if j == id)
}

#[test]
fn membership_follows_connects_and_disconnects() {
    let mut c = Coordinator::new();
    connect(&mut c, 1, 10);
    connect(&mut c, 2, 20);
    c.handle(HubMsg::Disconnect { id: 1 });
    connect(&mut c, 3, 30);
    c.handle(HubMsg::Disconnect { id: 2 });
    c.handle(HubMsg::Disconnect { id: 2 });
    assert!(!c.contains(1));
    assert!(!c.contains(2));
    assert!(c.contains(3));
    assert_eq!(c.member_count(), 1);
    assert_eq!(c.member_ids(), vec![3]);
    // a fresh connect after a disconnect registers again
    connect(&mut c, 1, 11);
    assert!(c.contains(1));
    assert_eq!(c.member_ids(), vec![3, 1]);
}

#[test]
fn relay_never_delivered_to_sender() {
    let mut c = Coordinator::new();
    connect(&mut c, 1, 10);
    connect(&mut c, 2, 20);
    connect(&mut c, 3, 30);
    let chunk = VideoChunk { key_frame: false, payload: vec![9] };
    let out = c.handle(HubMsg::Relay { id: 1, chunk });
    assert!(out.deliveries.iter().all(|d| d.to_id != 1));
}

#[test]
fn relay_reaches_each_other_member_exactly_once_in_order() {
    let mut c = Coordinator::new();
    connect(&mut c, 1, 10);
    connect(&mut c, 2, 20);
    connect(&mut c, 3, 30);
    let chunk = VideoChunk { key_frame: true, payload: vec![7, 8] };
    let out = c.handle(HubMsg::Relay { id: 1, chunk }).deliveries;
    assert_eq!(out.len(), 2);
    assert_eq!(out[0].to_id, 2);
    assert_eq!(out[0].to_handle, 20);
    assert_eq!(out[1].to_id, 3);
    assert_eq!(out[1].to_handle, 30);
    for d in &out {
        match &d.event {
            PeerEvent::Relay { from, chunk } => {
                assert_eq!(*from, 1);
                assert!(chunk.key_frame);
                assert_eq!(chunk.payload, vec![7, 8]);
            },
            _ => panic!("expected a relay event"),
        }
    }
    // the registry itself is untouched
    assert_eq!(c.member_ids(), vec![1, 2, 3]);
}

#[test]
fn join_backfill_and_broadcast() {
    let mut c = Coordinator::new();
    connect(&mut c, 1, 10);
    connect(&mut c, 2, 20);
    let out = connect(&mut c, 4, 40);
    // 1 and 2 each learn of 4 exactly once
    let to_1: Vec<&Delivery> = out.iter().filter(|d| d.to_id == 1).collect();
    let to_2: Vec<&Delivery> = out.iter().filter(|d| d.to_id == 2).collect();
    assert_eq!(to_1.len(), 1);
    assert!(is_joined(to_1[0], 4));
    assert_eq!(to_2.len(), 1);
    assert!(is_joined(to_2[0], 4));
    // 4 learns of exactly the set {1, 2}
    let mut seen: Vec<u32> = out
        .iter()
        .filter(|d| d.to_id == 4)
        .map(|d| {
            assert_eq!(d.to_handle, 40);
            match d.event {
                PeerEvent::PeerJoined { id } => id,
                _ => panic!("expected a join notice"),
            }
        })
        .collect();
    seen.sort();
    assert_eq!(seen, vec![1, 2]);
    assert_eq!(out.len(), 4);
}

#[test]
fn connect_to_empty_room_emits_nothing() {
    let mut c = Coordinator::new();
    let out = c.handle(HubMsg::Connect { id: 1, handle: 10 });
    assert!(out.deliveries.is_empty());
    assert!(out.released.is_none());
}

#[test]
fn disconnect_twice_broadcasts_peer_left_once() {
    let mut c = Coordinator::new();
    connect(&mut c, 1, 10);
    connect(&mut c, 2, 20);
    let first = c.handle(HubMsg::Disconnect { id: 1 });
    assert_eq!(first.deliveries.len(), 1);
    assert_eq!(first.deliveries[0].to_id, 2);
    assert!(is_left(&first.deliveries[0], 1));
    assert_eq!(first.released, Some(10));
    let second = c.handle(HubMsg::Disconnect { id: 1 });
    assert!(second.deliveries.is_empty());
    assert_eq!(second.released, None);
    assert!(!c.contains(1));
}

#[test]
fn disconnect_of_unknown_id_is_a_no_op() {
    let mut c = Coordinator::new();
    connect(&mut c, 2, 20);
    let out = c.handle(HubMsg::Disconnect { id: 9 });
    assert!(out.deliveries.is_empty());
    assert!(out.released.is_none());
    assert!(c.contains(2));
}

#[test]
fn duplicate_connect_replaces_handle_and_orphans_old() {
    let mut c = Coordinator::new();
    connect(&mut c, 1, 10);
    connect(&mut c, 2, 20);
    let out = c.handle(HubMsg::Connect { id: 1, handle: 99 });
    // the old registration is released; the id stays registered once
    assert_eq!(out.released, Some(10));
    assert_eq!(c.member_count(), 2);
    assert_eq!(c.member_ids(), vec![1, 2]);
    // the other member is told of the (re)join; the backfill walks the
    // registry as it stood before the insertion
    let to_2: Vec<&Delivery> = out.deliveries.iter().filter(|d| d.to_id == 2).collect();
    assert_eq!(to_2.len(), 1);
    assert!(is_joined(to_2[0], 1));
    assert!(out.deliveries.iter().filter(|d| d.to_id == 1).all(|d| d.to_handle == 99));
}

#[test]
fn relay_from_unknown_sender_reaches_all_members() {
    let mut c = Coordinator::new();
    connect(&mut c, 1, 10);
    connect(&mut c, 2, 20);
    let chunk = VideoChunk { key_frame: false, payload: Vec::new() };
    let out = c.handle(HubMsg::Relay { id: 9, chunk }).deliveries;
    assert_eq!(out.len(), 2);
    assert_eq!(out[0].to_id, 1);
    assert_eq!(out[1].to_id, 2);
}
