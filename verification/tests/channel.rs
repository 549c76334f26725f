use std::sync::mpsc::channel;

use sangfroid::channel::Outbox;

#[test]
fn outbox_delivers_in_order() {
    let (tx, rx) = channel::<u32>();
    let mut out = Outbox::new(tx);
    assert!(out.send(1).is_ok());
    assert!(out.send(2).is_ok());
    assert_eq!(rx.recv().unwrap(), 1);
    assert_eq!(rx.recv().unwrap(), 2);
}

#[test]
fn outbox_hands_back_undelivered_value() {
    let (tx, rx) = channel::<u32>();
    drop(rx);
    let mut out = Outbox::new(tx);
    assert_eq!(out.send(7).unwrap_err().0, 7);
}
