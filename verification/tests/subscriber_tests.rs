use moq_relay_ietf::namespace::TrackNamespace;
use moq_relay_ietf::session::{first_request_id, Message, MessageQueue, RequestIdGenerator, SessionError, DEFAULT_ALIAS_WAIT_TIME_MS};
use moq_relay_ietf::subgroup::dispatch_stream;
use moq_relay_ietf::subscriber::{Subscriber, SubscriberEffect};

#[test]
fn alias_uniqueness_across_live_subscriptions() {
    let mut sub = Subscriber::new();
    assert!(sub.add_subscribe(0));
    assert!(sub.add_subscribe(2));
    assert!(sub.recv_subscribe_ok(0, 100));
    assert!(sub.recv_subscribe_ok(2, 101));
    // Each alias resolves to exactly one live subscription.
    assert_eq!(sub.get_subscribe_id_by_alias(100), Some(0));
    assert_eq!(sub.get_subscribe_id_by_alias(101), Some(2));
    assert_eq!(sub.get_subscribe_id_by_alias(102), None);
    // A repeated id is refused.
    assert!(!sub.add_subscribe(0));
}

#[test]
fn alias_race_resolves_after_subscribe_ok() {
    // A subgroup stream for an alias may arrive before SUBSCRIBE_OK: the
    // lookup misses, the reader waits, and once the OK lands the alias
    // resolves and the stream is consumed.
    let mut sub = Subscriber::new();
    assert!(sub.add_subscribe(0));
    assert_eq!(sub.get_subscribe_id_by_alias(77), None);

    // SUBSCRIBE_OK arrives within the alias wait window of one second.
    assert_eq!(DEFAULT_ALIAS_WAIT_TIME_MS, 1000);
    let effect = sub.recv_message(Message::SubscribeOk { id: 0, track_alias: 77 }).unwrap();
    assert_eq!(effect, SubscriberEffect::SubscriptionActivated(0, 77));

    let found = sub.get_subscribe_id_by_alias(77);
    assert_eq!(found, Some(0));
    assert_eq!(dispatch_stream(found).unwrap(), 0);
}

#[test]
fn stream_for_unknown_alias_is_not_found() {
    let sub = Subscriber::new();
    let found = sub.get_subscribe_id_by_alias(5);
    let r = dispatch_stream(found);
    assert!(matches!(r.unwrap_err(), SessionError::Serve(_)));
}

#[test]
fn duplicate_announce_fails_session() {
    let mut sub = Subscriber::new();
    let ns = TrackNamespace::try_from_str("dup").unwrap();
    let effect =
        sub.recv_message(Message::PublishNamespace { id: 1, track_namespace: ns.clone() }).unwrap();
    assert_eq!(effect, SubscriberEffect::AnnounceQueued);
    let second = sub.recv_message(Message::PublishNamespace { id: 3, track_namespace: ns.clone() });
    assert!(matches!(second.unwrap_err(), SessionError::Duplicate));
    // The first announce waits on the queue for the application.
    assert_eq!(sub.pop_announced().unwrap(), ns);
    assert!(sub.pop_announced().is_none());
}

#[test]
fn announce_done_releases_namespace() {
    let mut sub = Subscriber::new();
    let ns = TrackNamespace::try_from_str("live").unwrap();
    sub.recv_message(Message::PublishNamespace { id: 1, track_namespace: ns.clone() }).unwrap();
    let effect = sub
        .recv_message(Message::PublishNamespaceDone { track_namespace: ns.clone() })
        .unwrap();
    assert_eq!(effect, SubscriberEffect::AnnounceClosed);
    // The namespace can be announced again afterwards.
    let again = sub
        .recv_message(Message::PublishNamespace { id: 5, track_namespace: ns.clone() })
        .unwrap();
    assert_eq!(again, SubscriberEffect::AnnounceQueued);
}

#[test]
fn closed_queue_cancels_announce() {
    let mut sub = Subscriber::new();
    sub.close_queue();
    let ns = TrackNamespace::try_from_str("late").unwrap();
    let effect =
        sub.recv_message(Message::PublishNamespace { id: 1, track_namespace: ns }).unwrap();
    assert_eq!(effect, SubscriberEffect::AnnounceCancelled);
}

#[test]
fn subscribe_error_removes_subscription() {
    let mut sub = Subscriber::new();
    assert!(sub.add_subscribe(0));
    assert!(sub.recv_subscribe_ok(0, 42));
    let effect = sub.recv_message(Message::SubscribeError { id: 0, error_code: 9 }).unwrap();
    assert_eq!(effect, SubscriberEffect::SubscriptionFailed(0, 9));
    // The alias binding went with the subscription.
    assert_eq!(sub.get_subscribe_id_by_alias(42), None);
    // Failing it again is a no-op.
    let effect = sub.recv_message(Message::PublishDone { id: 0, status_code: 1 }).unwrap();
    assert_eq!(effect, SubscriberEffect::Idle);
}

#[test]
fn unimplemented_message_kinds_fail_session() {
    let mut sub = Subscriber::new();
    let r = sub.recv_message(Message::Publish { id: 1 });
    assert!(matches!(r.unwrap_err(), SessionError::Unimplemented(_)));
    let r = sub.recv_message(Message::FetchOk { id: 1 });
    assert!(matches!(r.unwrap_err(), SessionError::Unimplemented(_)));
    let r = sub.recv_message(Message::SubscribeNamespaceOk { id: 1 });
    assert!(matches!(r.unwrap_err(), SessionError::Unimplemented(_)));
}

#[test]
fn subscribe_draws_session_request_ids() {
    let mut sub = Subscriber::new();
    let mut ids = RequestIdGenerator::new(first_request_id(true));
    let (id_a, added_a) = sub.subscribe(&mut ids);
    let (id_b, added_b) = sub.subscribe(&mut ids);
    assert!(added_a && added_b);
    assert_eq!(id_a, 0);
    assert_eq!(id_b, 2);
}

#[test]
fn cancel_forgets_announce_and_queues_message() {
    let mut sub = Subscriber::new();
    let ns = TrackNamespace::try_from_str("gone").unwrap();
    sub.recv_message(Message::PublishNamespace { id: 1, track_namespace: ns.clone() }).unwrap();
    let mut outgoing = MessageQueue::new();
    let sent = sub.send_message(
        &mut outgoing,
        Message::PublishNamespaceCancel { track_namespace: ns.clone() },
    );
    assert!(sent);
    // The announce left the map, so it can arrive again.
    let again =
        sub.recv_message(Message::PublishNamespace { id: 3, track_namespace: ns.clone() }).unwrap();
    assert_eq!(again, SubscriberEffect::AnnounceQueued);
    // The cancel sits on the outbound queue.
    assert!(matches!(outgoing.pop(), Some(Message::PublishNamespaceCancel { .. })));
}

#[test]
fn track_status_request_has_fresh_id() {
    let mut ids = RequestIdGenerator::new(first_request_id(false));
    let ns = TrackNamespace::try_from_str("clock").unwrap();
    let m = Subscriber::track_status(&mut ids, &ns, &String::from("now"));
    match m {
        Message::TrackStatus { id, track_namespace, track_name } => {
            assert_eq!(id, 1);
            assert_eq!(track_namespace, ns);
            assert_eq!(track_name, "now");
        },
        other => panic!("expected a track status request, got {:?}", other),
    }
}
