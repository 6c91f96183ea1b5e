use impulse::{Channel, Sender};

#[test]
fn new_channel_is_empty() {
    let c: Channel<f32> = Channel::new(7);
    assert_eq!(c.id(), 7);
    assert_eq!(c.pending_len(), 0);
    assert!(c.accumulated_view().is_empty());
}

#[test]
fn assign_sender_names_the_channel() {
    let c: Channel<i16> = Channel::new(3);
    let a = c.assign_sender();
    let b = c.assign_sender();
    assert_eq!(a, Sender { id: 3 });
    assert_eq!(a, b);
}

#[test]
fn enqueue_then_drain_keeps_order() {
    let mut c: Channel<i16> = Channel::new(0);
    for s in [5i16, -3, 5, 0, 12] {
        c.enqueue(s);
    }
    assert_eq!(c.pending_len(), 5);
    assert!(c.accumulated_view().is_empty());
    assert_eq!(c.drain_pending(), 5);
    assert_eq!(c.pending_len(), 0);
    assert_eq!(c.accumulated_view(), &[5, -3, 5, 0, 12]);
}

#[test]
fn drain_with_nothing_pending_returns_zero() {
    let mut c: Channel<f32> = Channel::new(0);
    assert_eq!(c.drain_pending(), 0);
    assert!(c.accumulated_view().is_empty());
}

#[test]
fn later_drain_appends_after_earlier_one() {
    let mut c: Channel<f32> = Channel::new(1);
    c.enqueue(0.25);
    c.enqueue(-0.5);
    assert_eq!(c.drain_pending(), 2);
    c.enqueue(0.75);
    assert_eq!(c.drain_pending(), 1);
    assert_eq!(c.drain_pending(), 0);
    assert_eq!(c.accumulated_view(), &[0.25, -0.5, 0.75]);
}
