use relay_hub::messages::{HubMsg, PeerEvent, VideoChunk};
use relay_hub::session::{
    InboundFrame, OutboundFrame, Session, SessionAction, SessionState,
};

#[test]
fn start_registers_with_the_room() {
    let mut s = Session::new(5, 50);
    assert_eq!(s.id(), 5);
    assert_eq!(s.state(), SessionState::Connecting);
    let msg = s.on_start();
    assert!(matches!(msg, HubMsg::Connect { id: 5, handle: 50 }));
    assert_eq!(s.state(), SessionState::Active);
}

#[test]
fn frames_before_start_are_ignored() {
    let s = Session::new(5, 50);
    let actions = s.handle_frame(InboundFrame::Binary(vec![1, 2, 3]));
    assert!(actions.is_empty());
}

#[test]
fn ping_is_answered_with_pong() {
    let mut s = Session::new(5, 50);
    s.on_start();
    let actions = s.handle_frame(InboundFrame::Ping(vec![3]));
    assert_eq!(actions.len(), 1);
    assert!(matches!(&actions[0], SessionAction::SendPong(p) if *p == vec![3]));
}

#[test]
fn pong_triggers_a_fresh_ping() {
    let mut s = Session::new(5, 50);
    s.on_start();
    let actions = s.handle_frame(InboundFrame::Pong(Vec::new()));
    assert_eq!(actions.len(), 1);
    assert!(matches!(&actions[0], SessionAction::SendPing(p) if p.is_empty()));
}

#[test]
fn inbound_text_is_ignored() {
    let mut s = Session::new(5, 50);
    s.on_start();
    assert!(s.handle_frame(InboundFrame::Text(b"hi".to_vec())).is_empty());
}

#[test]
fn binary_frame_is_relayed_decoded() {
    let mut s = Session::new(5, 50);
    s.on_start();
    let actions = s.handle_frame(InboundFrame::Binary(vec![1, 9, 8]));
    assert_eq!(actions.len(), 1);
    match &actions[0] {
        SessionAction::ToHub(HubMsg::Relay { id, chunk }) => {
            assert_eq!(*id, 5);
            assert!(chunk.key_frame);
            assert_eq!(chunk.payload, vec![9, 8]);
        },
        _ => panic!("expected a relay to the hub"),
    }
}

#[test]
fn zero_flag_binary_frame_is_delta() {
    let mut s = Session::new(5, 50);
    s.on_start();
    let actions = s.handle_frame(InboundFrame::Binary(vec![0]));
    match &actions[0] {
        SessionAction::ToHub(HubMsg::Relay { chunk, .. }) => {
            assert!(!chunk.key_frame);
            assert!(chunk.payload.is_empty());
        },
        _ => panic!("expected a relay to the hub"),
    }
}

#[test]
fn empty_binary_frame_closes_without_reaching_the_hub() {
    let mut s = Session::new(5, 50);
    s.on_start();
    let actions = s.handle_frame(InboundFrame::Binary(Vec::new()));
    assert_eq!(actions.len(), 1);
    assert!(matches!(actions[0], SessionAction::CloseConnection));
    assert!(!actions.iter().any(|a| matches!(a, SessionAction::ToHub(_))));
}

#[test]
fn continuation_frame_closes_the_connection() {
    let mut s = Session::new(5, 50);
    s.on_start();
    let actions = s.handle_frame(InboundFrame::Continuation);
    assert_eq!(actions.len(), 1);
    assert!(matches!(actions[0], SessionAction::CloseConnection));
}

#[test]
fn close_frame_closes_the_connection() {
    let mut s = Session::new(5, 50);
    s.on_start();
    let actions = s.handle_frame(InboundFrame::Close);
    assert_eq!(actions.len(), 1);
    assert!(matches!(actions[0], SessionAction::CloseConnection));
}

#[test]
fn stop_deregisters_exactly_once() {
    let mut s = Session::new(5, 50);
    s.on_start();
    let first = s.on_stop();
    assert!(matches!(first, Some(HubMsg::Disconnect { id: 5 })));
    assert_eq!(s.state(), SessionState::Closed);
    let second = s.on_stop();
    assert!(second.is_none());
    assert_eq!(s.state(), SessionState::Closed);
}

#[test]
fn frames_after_close_are_ignored() {
    let mut s = Session::new(5, 50);
    s.on_start();
    s.on_stop();
    assert!(s.handle_frame(InboundFrame::Binary(vec![1, 2])).is_empty());
}

#[test]
fn relay_event_becomes_binary_frame() {
    let mut s = Session::new(5, 50);
    s.on_start();
    let ev = PeerEvent::Relay {
        from: 7,
        chunk: VideoChunk { key_frame: true, payload: vec![0x01, 0x02] },
    };
    match s.handle_peer_event(ev) {
        OutboundFrame::Binary(bytes) => assert_eq!(bytes, vec![7, 0, 0, 0, 1, 0x01, 0x02]),
        OutboundFrame::Text(_) => panic!("expected a binary frame"),
    }
}

#[test]
fn join_and_leave_events_become_control_text() {
    let s = Session::new(5, 50);
    match s.handle_peer_event(PeerEvent::PeerJoined { id: 3 }) {
        OutboundFrame::Text(bytes) => {
            assert_eq!(bytes, b"{\"action\":\"connect\",\"id\":3}".to_vec())
        },
        OutboundFrame::Binary(_) => panic!("expected a text frame"),
    }
    match s.handle_peer_event(PeerEvent::PeerLeft { id: 12 }) {
        OutboundFrame::Text(bytes) => {
            assert_eq!(bytes, b"{\"action\":\"disconnect\",\"id\":12}".to_vec())
        },
        OutboundFrame::Binary(_) => panic!("expected a text frame"),
    }
}
