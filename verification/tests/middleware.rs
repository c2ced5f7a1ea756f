use twist::message::WebSocketMessage;
use twist::pingpong::{PingPong, Polled, SendOutcome};

#[test]
fn pings_queue_pongs_in_order() {
    let mut layer = PingPong::new();
    // Two pings arrive through the producing side.
    match layer.on_upstream(WebSocketMessage::Ping(Some(b"P1".to_vec()))) {
        Polled::Consumed => {}
        _ => panic!("a ping must be absorbed"),
    }
    match layer.on_upstream(WebSocketMessage::Ping(Some(b"P2".to_vec()))) {
        Polled::Consumed => {}
        _ => panic!("a ping must be absorbed"),
    }
    assert_eq!(layer.pending_count(), 2);

    // An application send before the queue drains is refused.
    let outbound = WebSocketMessage::Text(b"app".to_vec());
    match layer.start_send(outbound.clone()) {
        SendOutcome::NotReady(m) => assert_eq!(m, outbound),
        SendOutcome::Forward(_) => panic!("the send must wait for the pongs"),
    }

    // The next two successful flush attempts emit Pong(P1), then
    // Pong(P2).
    match layer.front_pong() {
        Some(WebSocketMessage::Pong(Some(d))) => assert_eq!(d, b"P1".to_vec()),
        _ => panic!("expected Pong(P1) first"),
    }
    layer.pop_pending();
    match layer.front_pong() {
        Some(WebSocketMessage::Pong(Some(d))) => assert_eq!(d, b"P2".to_vec()),
        _ => panic!("expected Pong(P2) second"),
    }
    layer.pop_pending();
    assert!(layer.front_pong().is_none());

    // With the queue drained the send goes through.
    match layer.start_send(outbound.clone()) {
        SendOutcome::Forward(m) => assert_eq!(m, outbound),
        SendOutcome::NotReady(_) => panic!("the queue is drained"),
    }
}

#[test]
fn pongs_are_absorbed_and_queue_nothing() {
    let mut layer = PingPong::new();
    match layer.on_upstream(WebSocketMessage::Pong(Some(b"stale".to_vec()))) {
        Polled::Consumed => {}
        _ => panic!("a pong must be absorbed"),
    }
    assert_eq!(layer.pending_count(), 0);
}

#[test]
fn other_messages_surface_unchanged() {
    let mut layer = PingPong::new();
    let msg = WebSocketMessage::Text(b"hello".to_vec());
    match layer.on_upstream(msg.clone()) {
        Polled::Surfaced(m) => assert_eq!(m, msg),
        Polled::Consumed => panic!("a text message must surface"),
    }
    let close = WebSocketMessage::Close(None);
    match layer.on_upstream(close.clone()) {
        Polled::Surfaced(m) => assert_eq!(m, close),
        Polled::Consumed => panic!("a close message must surface"),
    }
}

#[test]
fn ping_without_data_owes_empty_pong() {
    let mut layer = PingPong::new();
    match layer.on_upstream(WebSocketMessage::Ping(None)) {
        Polled::Consumed => {}
        _ => panic!("a ping must be absorbed"),
    }
    match layer.front_pong() {
        Some(WebSocketMessage::Pong(None)) => {}
        _ => panic!("expected an empty Pong"),
    }
    layer.pop_pending();
    assert_eq!(layer.pending_count(), 0);
    // Popping an empty queue is harmless.
    layer.pop_pending();
    assert_eq!(layer.pending_count(), 0);
}

#[test]
fn refused_flush_loses_nothing() {
    let mut layer = PingPong::new();
    match layer.on_upstream(WebSocketMessage::Ping(Some(b"keep".to_vec()))) {
        Polled::Consumed => {}
        _ => panic!("a ping must be absorbed"),
    }
    // Downstream refuses: the caller peeks but does not pop.
    match layer.front_pong() {
        Some(WebSocketMessage::Pong(Some(d))) => assert_eq!(d, b"keep".to_vec()),
        _ => panic!("expected the pong"),
    }
    // Still owed on the next attempt.
    match layer.front_pong() {
        Some(WebSocketMessage::Pong(Some(d))) => assert_eq!(d, b"keep".to_vec()),
        _ => panic!("the pong must still be owed"),
    }
    assert_eq!(layer.pending_count(), 1);
}
