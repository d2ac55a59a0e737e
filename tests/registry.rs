use chat_relay::outbox::Outbox;
use chat_relay::registry::ConnectionRegistry;
use std::sync::{Arc, Mutex};
use tokio::sync::mpsc::{unbounded_channel, UnboundedReceiver};

fn connect(reg: &mut ConnectionRegistry) -> (u64, UnboundedReceiver<String>) {
    let (tx, rx) = unbounded_channel::<String>();
    let id = reg.register(tx);
    (id, rx)
}

#[test]
fn broadcast_reaches_all_three_with_echo() {
    let mut reg = ConnectionRegistry::new();
    let (_c1, mut r1) = connect(&mut reg);
    let (_c2, mut r2) = connect(&mut reg);
    let (_c3, mut r3) = connect(&mut reg);
    let count = reg.broadcast(&"hello".to_string());
    assert_eq!(count, 3);
    assert_eq!(r1.try_recv().unwrap(), "hello");
    assert_eq!(r2.try_recv().unwrap(), "hello");
    assert_eq!(r3.try_recv().unwrap(), "hello");
    assert_eq!(reg.len(), 3);
}

#[test]
fn dead_receiver_is_pruned_on_broadcast() {
    let mut reg = ConnectionRegistry::new();
    let (_c1, mut r1) = connect(&mut reg);
    let (_c2, r2) = connect(&mut reg);
    drop(r2);
    let count = reg.broadcast(&"ping".to_string());
    assert_eq!(count, 1);
    assert_eq!(reg.len(), 1);
    assert_eq!(r1.try_recv().unwrap(), "ping");
    assert!(r1.try_recv().is_err());
}

#[test]
fn unregister_twice_is_harmless() {
    let mut reg = ConnectionRegistry::new();
    let (c1, _r1) = connect(&mut reg);
    reg.unregister(c1);
    assert_eq!(reg.len(), 0);
    reg.unregister(c1);
    assert_eq!(reg.len(), 0);
}

#[test]
fn unregister_unknown_id_changes_nothing() {
    let mut reg = ConnectionRegistry::new();
    let (c1, mut r1) = connect(&mut reg);
    reg.unregister(c1 + 41);
    assert_eq!(reg.len(), 1);
    assert!(reg.contains(c1));
    assert_eq!(reg.broadcast(&"still here".to_string()), 1);
    assert_eq!(r1.try_recv().unwrap(), "still here");
}

#[test]
fn hundred_concurrent_registrations() {
    let reg = Arc::new(Mutex::new(ConnectionRegistry::new()));
    let rt = tokio::runtime::Builder::new_multi_thread()
        .worker_threads(4)
        .build()
        .unwrap();
    let ids: Vec<u64> = rt.block_on(async {
        let mut tasks = Vec::new();
        for _ in 0..100 {
            let reg = reg.clone();
            tasks.push(tokio::spawn(async move {
                let (tx, rx) = unbounded_channel::<String>();
                let id = reg.lock().unwrap().register(tx);
                std::mem::forget(rx);
                id
            }));
        }
        let mut ids = Vec::new();
        for t in tasks {
            ids.push(t.await.unwrap());
        }
        ids
    });
    assert_eq!(reg.lock().unwrap().len(), 100);
    let mut sorted = ids.clone();
    sorted.sort();
    sorted.dedup();
    assert_eq!(sorted.len(), 100);
    assert_eq!(sorted, (0..100).collect::<Vec<u64>>());
}

#[test]
fn receiver_sees_frames_in_broadcast_order() {
    let mut reg = ConnectionRegistry::new();
    let (_c1, mut r1) = connect(&mut reg);
    let (_c2, mut r2) = connect(&mut reg);
    reg.broadcast(&"A".to_string());
    reg.broadcast(&"B".to_string());
    assert_eq!(r1.try_recv().unwrap(), "A");
    assert_eq!(r1.try_recv().unwrap(), "B");
    assert_eq!(r2.try_recv().unwrap(), "A");
    assert_eq!(r2.try_recv().unwrap(), "B");
}

#[test]
fn failing_receiver_does_not_block_the_others() {
    let mut reg = ConnectionRegistry::new();
    let mut live = Vec::new();
    let mut failing = None;
    for i in 0..5 {
        let (id, rx) = connect(&mut reg);
        if i == 2 {
            failing = Some(id);
            drop(rx);
        } else {
            live.push(rx);
        }
    }
    let count = reg.broadcast(&"frame".to_string());
    assert_eq!(count, 4);
    assert_eq!(reg.len(), 4);
    assert!(!reg.contains(failing.unwrap()));
    for rx in live.iter_mut() {
        assert_eq!(rx.try_recv().unwrap(), "frame");
    }
}

#[test]
fn unregistered_handle_gets_no_broadcast() {
    let mut reg = ConnectionRegistry::new();
    let (c1, mut r1) = connect(&mut reg);
    let (_c2, mut r2) = connect(&mut reg);
    reg.unregister(c1);
    assert_eq!(reg.broadcast(&"after".to_string()), 1);
    assert!(r1.try_recv().is_err());
    assert_eq!(r2.try_recv().unwrap(), "after");
}

#[test]
fn identifiers_are_never_reused() {
    let mut reg = ConnectionRegistry::new();
    let (c1, _r1) = connect(&mut reg);
    reg.unregister(c1);
    let (c2, _r2) = connect(&mut reg);
    assert_eq!(c1, 0);
    assert_eq!(c2, 1);
    assert!(reg.can_register());
}

#[test]
fn broadcast_on_empty_registry_delivers_nothing() {
    let mut reg = ConnectionRegistry::new();
    assert_eq!(reg.broadcast(&"nobody".to_string()), 0);
    assert_eq!(reg.len(), 0);
}

#[test]
fn deliver_reports_each_handle_and_retain_prunes() {
    let mut reg = ConnectionRegistry::new();
    let (_c1, mut r1) = connect(&mut reg);
    let (c2, r2) = connect(&mut reg);
    let (_c3, mut r3) = connect(&mut reg);
    drop(r2);
    let accepted = reg.deliver(&"x".to_string());
    assert_eq!(accepted, vec![true, false, true]);
    assert_eq!(reg.len(), 3);
    reg.retain_accepted(&accepted);
    assert_eq!(reg.len(), 2);
    assert!(!reg.contains(c2));
    assert_eq!(r1.try_recv().unwrap(), "x");
    assert_eq!(r3.try_recv().unwrap(), "x");
}

#[test]
fn outbox_send_reports_whether_the_queue_accepted() {
    let (tx, mut rx) = unbounded_channel::<String>();
    let mut out = Outbox::new(tx);
    assert!(out.send("one".to_string()));
    assert_eq!(rx.try_recv().unwrap(), "one");
    drop(rx);
    assert!(!out.send("two".to_string()));
}
