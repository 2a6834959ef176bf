use broadcast_hub::{Hub, Number, WsMessage, QUEUE_CAPACITY};

fn numbered(i: usize) -> WsMessage {
    WsMessage::Calculation {
        operation: "seq".to_string(),
        result: Number::parse(&i.to_string()).unwrap(),
        timestamp: "t".to_string(),
    }
}

fn drain(hub: &mut Hub, id: usize) -> Vec<WsMessage> {
    let mut out = Vec::new();
    while let Some(m) = hub.try_recv(id) {
        out.push(m);
    }
    out
}

#[test]
fn publish_without_subscribers_is_discarded() {
    let mut hub = Hub::new();
    hub.publish(WsMessage::Ping);
    let id = hub.subscribe();
    assert_eq!(hub.try_recv(id), None);
}

#[test]
fn every_subscriber_sees_publish_order() {
    let mut hub = Hub::new();
    let a = hub.subscribe();
    let b = hub.subscribe();
    assert_ne!(a, b);
    for i in 1..=3 {
        hub.publish(numbered(i));
    }
    let expected: Vec<WsMessage> = (1..=3).map(numbered).collect();
    assert_eq!(drain(&mut hub, a), expected);
    assert_eq!(drain(&mut hub, b), expected);
}

#[test]
fn late_subscriber_gets_no_backlog() {
    let mut hub = Hub::new();
    let a = hub.subscribe();
    hub.publish(numbered(1));
    let b = hub.subscribe();
    hub.publish(numbered(2));
    assert_eq!(drain(&mut hub, a), vec![numbered(1), numbered(2)]);
    assert_eq!(drain(&mut hub, b), vec![numbered(2)]);
}

#[test]
fn slow_subscriber_skips_oldest_and_continues() {
    let mut hub = Hub::new();
    let id = hub.subscribe();
    for i in 1..=101 {
        hub.publish(numbered(i));
    }
    assert_eq!(hub.pending_len(id), QUEUE_CAPACITY);
    let got = drain(&mut hub, id);
    assert_eq!(got.len(), 100);
    assert_eq!(got[0], numbered(2));
    assert_eq!(got[99], numbered(101));
    hub.publish(numbered(102));
    assert_eq!(hub.try_recv(id), Some(numbered(102)));
}

#[test]
fn unsubscribe_is_idempotent_and_frees_the_id() {
    let mut hub = Hub::new();
    let a = hub.subscribe();
    let b = hub.subscribe();
    hub.publish(WsMessage::Ping);
    hub.unsubscribe(a);
    hub.unsubscribe(a);
    hub.unsubscribe(42);
    assert_eq!(hub.try_recv(a), None);
    assert_eq!(hub.pending_len(a), 0);
    assert_eq!(hub.try_recv(b), Some(WsMessage::Ping));
    let c = hub.subscribe();
    assert_eq!(c, a);
    assert_eq!(hub.try_recv(c), None);
}
