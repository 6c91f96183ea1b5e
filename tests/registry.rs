use impulse::{select, BufferSize, ChannelClosed, Registry, Sender};

#[test]
fn new_registry_is_empty() {
    let r: Registry<f32> = Registry::new(BufferSize::All);
    assert_eq!(r.len(), 0);
    assert_eq!(r.policy(), BufferSize::All);
    assert!(r.can_add_track());
}

#[test]
fn add_track_appends_with_fresh_sender() {
    let mut r: Registry<f32> = Registry::new(BufferSize::All);
    let (i0, s0) = r.add_track();
    let (i1, s1) = r.add_track();
    assert_eq!((i0, i1), (0, 1));
    assert_ne!(s0, s1);
    assert_eq!(r.sender_handle(0), s0);
    assert_eq!(r.sender_handle(1), s1);
    assert_eq!(r.len(), 2);
}

#[test]
fn enqueue_waits_for_refresh() {
    let mut r: Registry<i16> = Registry::new(BufferSize::All);
    let (i, s) = r.add_track();
    assert_eq!(r.enqueue(&s, 4), Ok(()));
    assert!(r.accumulated_view(i).is_empty());
    assert!(r.representation(i).is_empty());
    r.refresh_all();
    assert_eq!(r.accumulated_view(i), &[4]);
    assert_eq!(r.representation(i), &[4]);
}

#[test]
fn enqueue_after_remove_is_closed() {
    let mut r: Registry<i16> = Registry::new(BufferSize::All);
    let (_, a) = r.add_track();
    let (_, b) = r.add_track();
    let (_, c) = r.add_track();
    assert_eq!(r.enqueue(&b, 1), Ok(()));
    r.remove_track(1);
    assert_eq!(r.enqueue(&b, 2), Err(ChannelClosed));
    assert_eq!(r.enqueue(&a, 3), Ok(()));
    assert_eq!(r.enqueue(&c, 4), Ok(()));
    r.add_track();
    assert_eq!(r.enqueue(&b, 5), Err(ChannelClosed));
    r.refresh_all();
    assert_eq!(r.len(), 3);
    assert_eq!(r.accumulated_view(0), &[3]);
    assert_eq!(r.accumulated_view(1), &[4]);
    assert!(r.accumulated_view(2).is_empty());
}

#[test]
fn enqueue_on_unknown_sender_is_closed() {
    let mut r: Registry<i16> = Registry::new(BufferSize::All);
    assert_eq!(r.enqueue(&Sender { id: 0 }, 1), Err(ChannelClosed));
}

#[test]
fn end_to_end_all_then_incremental() {
    let mut r: Registry<f32> = Registry::new(BufferSize::All);
    let (i, s) = r.add_track();
    for x in [0.1f32, -0.2, 0.3, 0.0] {
        assert_eq!(r.enqueue(&s, x), Ok(()));
    }
    r.refresh_all();
    assert_eq!(r.representation(i), &[0.1, -0.2, 0.3, 0.0]);

    for x in [0.5f32, -0.1] {
        assert_eq!(r.enqueue(&s, x), Ok(()));
    }
    r.set_policy(BufferSize::Incremental);
    assert_eq!(r.policy(), BufferSize::Incremental);
    let (new_part, _) = select(r.accumulated_view(i), BufferSize::Incremental, 4);
    assert!(new_part.is_empty());
    r.refresh_all();
    assert_eq!(r.accumulated_view(i), &[0.1, -0.2, 0.3, 0.0, 0.5, -0.1]);
    let (new_part, _) = select(r.accumulated_view(i), BufferSize::Incremental, 4);
    assert_eq!(new_part, &[0.5, -0.1]);
    assert_eq!(r.representation(i), &[0.1, -0.2, 0.3, 0.0, 0.5, -0.1]);
}

#[test]
fn incremental_refresh_loads_only_new_samples() {
    let mut r: Registry<i16> = Registry::new(BufferSize::Incremental);
    let (i, s) = r.add_track();
    assert_eq!(r.enqueue(&s, 1), Ok(()));
    r.refresh_all();
    assert_eq!(r.enqueue(&s, 2), Ok(()));
    r.refresh_all();
    r.refresh_all();
    assert_eq!(r.representation(i), &[1, 2]);
}

#[test]
fn remove_then_add_appends_at_the_end() {
    let mut r: Registry<i16> = Registry::new(BufferSize::All);
    let (_, a) = r.add_track();
    let (_, b) = r.add_track();
    let (_, c) = r.add_track();
    r.remove_track(0);
    assert_eq!(r.sender_handle(0), b);
    assert_eq!(r.sender_handle(1), c);
    let (i, d) = r.add_track();
    assert_eq!(i, 2);
    assert_eq!(r.len(), 3);
    assert_ne!(d, a);
    assert_ne!(d, b);
    assert_ne!(d, c);
    assert_eq!(r.sender_handle(2), d);
}

#[test]
fn refresh_with_no_tracks() {
    let mut r: Registry<f32> = Registry::new(BufferSize::Incremental);
    r.refresh_all();
    assert_eq!(r.len(), 0);
}
