use relay_hub::messages::{HubMsg, VideoChunk};
use relay_hub::rooms::RoomTable;

#[test]
fn rooms_start_empty() {
    let t = RoomTable::new(5);
    assert_eq!(t.room_count(), 5);
    for room in 0..5 {
        assert!(!t.contains_in(room, 1));
    }
}

#[test]
fn rooms_are_isolated() {
    let mut t = RoomTable::new(3);
    t.handle_in_room(0, HubMsg::Connect { id: 1, handle: 10 });
    t.handle_in_room(1, HubMsg::Connect { id: 2, handle: 20 });
    assert!(t.contains_in(0, 1));
    assert!(!t.contains_in(0, 2));
    assert!(t.contains_in(1, 2));
    assert!(!t.contains_in(1, 1));
    assert!(!t.contains_in(2, 1));
    // a relay in one room produces deliveries only from that room
    t.handle_in_room(0, HubMsg::Connect { id: 3, handle: 30 });
    let chunk = VideoChunk { key_frame: true, payload: vec![1] };
    let out = t.handle_in_room(0, HubMsg::Relay { id: 1, chunk });
    assert_eq!(out.deliveries.len(), 1);
    assert_eq!(out.deliveries[0].to_id, 3);
    // the other rooms saw nothing change
    assert!(t.contains_in(1, 2));
    assert!(!t.contains_in(1, 1));
}

#[test]
fn same_id_may_exist_in_two_rooms() {
    let mut t = RoomTable::new(2);
    t.handle_in_room(0, HubMsg::Connect { id: 7, handle: 70 });
    t.handle_in_room(1, HubMsg::Connect { id: 7, handle: 71 });
    assert!(t.contains_in(0, 7));
    assert!(t.contains_in(1, 7));
    let out = t.handle_in_room(0, HubMsg::Disconnect { id: 7 });
    assert_eq!(out.released, Some(70));
    assert!(!t.contains_in(0, 7));
    assert!(t.contains_in(1, 7));
}
