use chat_relay::registry::Registry;
use tokio::sync::mpsc::{unbounded_channel, UnboundedReceiver};

fn drain(rx: &mut UnboundedReceiver<String>) -> Vec<String> {
    let mut out = Vec::new();
    while let Ok(text) = rx.try_recv() {
        out.push(text);
    }
    out
}

#[test]
fn n_registrations_settle_to_n_entries() {
    let mut reg = Registry::new();
    let n = 5;
    let mut receivers = Vec::new();
    for k in 0..n {
        assert_eq!(reg.client_count(), k);
        let (tx, rx) = unbounded_channel();
        assert!(reg.register(tx).is_some());
        receivers.push(rx);
    }
    assert_eq!(reg.client_count(), n);
    // One broadcast reaches each registered handle exactly once: no
    // registration was lost and none was duplicated.
    reg.broadcast("ping");
    for rx in receivers.iter_mut() {
        assert_eq!(drain(rx), vec!["ping".to_string()]);
    }
}

#[test]
fn identifiers_are_distinct() {
    let mut reg = Registry::new();
    let mut ids = Vec::new();
    for _ in 0..4 {
        let (tx, _rx) = unbounded_channel();
        ids.push(reg.register(tx).unwrap());
    }
    for i in 0..ids.len() {
        for j in 0..i {
            assert_ne!(ids[i], ids[j]);
        }
    }
}

#[test]
fn deregister_removes_only_that_handle() {
    let mut reg = Registry::new();
    let (tx_a, mut rx_a) = unbounded_channel();
    let (tx_b, mut rx_b) = unbounded_channel();
    let a = reg.register(tx_a).unwrap();
    let _b = reg.register(tx_b).unwrap();
    reg.deregister(a);
    reg.broadcast("to the rest");
    assert_eq!(drain(&mut rx_a), Vec::<String>::new());
    assert_eq!(drain(&mut rx_b), vec!["to the rest".to_string()]);
}

#[test]
fn deregister_twice_is_harmless() {
    // The race between the read-error cleanup and the end-of-stream
    // cleanup of one session: removing an already removed handle is a
    // no-op and the registry stays sound for later operations.
    let mut reg = Registry::new();
    let (tx_a, mut rx_a) = unbounded_channel();
    let (tx_b, mut rx_b) = unbounded_channel();
    let a = reg.register(tx_a).unwrap();
    let _b = reg.register(tx_b).unwrap();
    assert_eq!(reg.client_count(), 2);
    reg.deregister(a);
    assert!(!reg.contains_handle(a));
    assert_eq!(reg.client_count(), 1);
    reg.deregister(a);
    assert_eq!(reg.client_count(), 1);
    let (tx_c, mut rx_c) = unbounded_channel();
    let c = reg.register(tx_c).unwrap();
    assert_ne!(c, a);
    reg.broadcast("still alive");
    assert_eq!(drain(&mut rx_a), Vec::<String>::new());
    assert_eq!(drain(&mut rx_b), vec!["still alive".to_string()]);
    assert_eq!(drain(&mut rx_c), vec!["still alive".to_string()]);
}

#[test]
fn deregister_absent_handle_is_a_no_op() {
    let mut reg = Registry::new();
    let (tx, mut rx) = unbounded_channel();
    let _id = reg.register(tx).unwrap();
    reg.deregister(12345);
    reg.broadcast("hello");
    assert_eq!(drain(&mut rx), vec!["hello".to_string()]);
}

#[test]
fn broadcast_survives_a_closed_recipient() {
    // One recipient's receiving half is already gone; delivery to the
    // others must still succeed — no partial-failure abort.
    let mut reg = Registry::new();
    let (tx_a, mut rx_a) = unbounded_channel();
    let (tx_b, rx_b) = unbounded_channel();
    let (tx_c, mut rx_c) = unbounded_channel();
    reg.register(tx_a).unwrap();
    reg.register(tx_b).unwrap();
    reg.register(tx_c).unwrap();
    drop(rx_b);
    reg.broadcast("best effort");
    assert_eq!(drain(&mut rx_a), vec!["best effort".to_string()]);
    assert_eq!(drain(&mut rx_c), vec!["best effort".to_string()]);
}

#[test]
fn broadcasts_arrive_in_order() {
    let mut reg = Registry::new();
    let (tx, mut rx) = unbounded_channel();
    reg.register(tx).unwrap();
    reg.broadcast("first");
    reg.broadcast("second");
    reg.broadcast("third");
    assert_eq!(
        drain(&mut rx),
        vec!["first".to_string(), "second".to_string(), "third".to_string()]
    );
}

#[test]
fn broadcast_to_empty_registry_is_fine() {
    let mut reg = Registry::new();
    reg.broadcast("nobody listens");
}
