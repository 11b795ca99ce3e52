use moq_relay_ietf::locals::{Locals, RegisterError, TracksReader};
use moq_relay_ietf::namespace::TrackNamespace;
use moq_relay_ietf::producer::{serve_subscribe, serve_track_status, SubscribeAction,
    TRACK_NOT_FOUND_CODE};
use moq_relay_ietf::remotes::{RemoteState, Remotes};

#[test]
fn one_session_per_origin() {
    // Routing the same origin URL twice reuses one session; a second URL
    // makes a second session.
    let mut remotes = Remotes::new();
    let one = String::from("https://r1.example");
    let two = String::from("https://r2.example");
    let (id_a, created_a) = remotes.route(&one);
    let (id_b, created_b) = remotes.route(&one);
    assert!(created_a);
    assert!(!created_b);
    assert_eq!(id_a, id_b);
    let (id_c, created_c) = remotes.route(&two);
    assert!(created_c);
    assert_ne!(id_a, id_c);
    // Only the two new sessions wait for the producer task, in order.
    assert_eq!(remotes.next_requested(), Some(id_a));
    assert_eq!(remotes.next_requested(), Some(id_c));
    assert_eq!(remotes.next_requested(), None);
    // Once a session ends its origin can be routed afresh.
    remotes.remove_origin(&one);
    let (id_d, created_d) = remotes.route(&one);
    assert!(created_d);
    assert_ne!(id_d, id_a);
}

#[test]
fn remote_tracks_deduplicate_by_identity() {
    // A second subscriber for the same remote track receives the same
    // underlying reader; the entry leaves with its last reader.
    let mut state = RemoteState::new();
    let ns = TrackNamespace::try_from_str("a/x").unwrap();
    let name = String::from("t");
    let (first, created_first) = state.subscribe(&ns, &name);
    let (second, created_second) = state.subscribe(&ns, &name);
    assert!(created_first);
    assert!(!created_second);
    assert_eq!(first.track_id, second.track_id);

    // A different name is a different track.
    let other = String::from("u");
    let (third, created_third) = state.subscribe(&ns, &other);
    assert!(created_third);
    assert_ne!(third.track_id, first.track_id);

    // A weak handle upgrades while a reader lives, not after the last one
    // dropped.
    let weak = first.downgrade();
    let upgraded = weak.upgrade(&mut state).unwrap();
    assert_eq!(upgraded.track_id, first.track_id);
    state.drop_reader(first);
    state.drop_reader(second);
    state.drop_reader(upgraded);
    assert!(weak.upgrade(&mut state).is_none());

    // With the entry gone a new subscribe makes a fresh track.
    let (fresh, created_fresh) = state.subscribe(&ns, &name);
    assert!(created_fresh);
    assert_ne!(fresh.track_id, third.track_id);
}

#[test]
fn direct_local_serve() {
    // A publisher announces a prefix; a subscriber asks for a nested
    // namespace; the producer finds the prefix and serves locally.
    let mut locals = Locals::new();
    let announced = TrackNamespace::try_from_str("a/b").unwrap();
    let reg = locals
        .register(TracksReader { namespace: announced.clone(), id: 10 })
        .unwrap();

    let requested = TrackNamespace::try_from_str("a/b/vid").unwrap();
    let local = locals.retrieve(&requested);
    assert_eq!(local.as_ref().unwrap().id, 10);
    let action = serve_subscribe(local, None);
    assert!(matches!(action, SubscribeAction::ServeLocal(_)));

    // After the registration drops, nothing serves the namespace.
    locals.unregister(reg);
    let local = locals.retrieve(&requested);
    assert!(local.is_none());
    let action = serve_subscribe(local, None);
    assert!(matches!(action, SubscribeAction::CloseNotFound));
}

#[test]
fn remote_hop_serves_via_origin() {
    // No local entry: the subscribe goes through the remote reader the
    // origin session handed back.
    let locals = Locals::new();
    let ns = TrackNamespace::try_from_str("a/x").unwrap();
    let mut state = RemoteState::new();
    let (reader, _) = state.subscribe(&ns, &String::from("t"));
    let action = serve_subscribe(locals.retrieve(&ns), Some(reader));
    assert!(matches!(action, SubscribeAction::ServeRemote(_)));
}

#[test]
fn longest_prefix_wins() {
    // Two registrations both prefix the query: the longer namespace wins.
    let mut locals = Locals::new();
    let short = TrackNamespace::try_from_str("org").unwrap();
    let long = TrackNamespace::try_from_str("org/chan").unwrap();
    locals.register(TracksReader { namespace: short, id: 1 }).unwrap();
    locals.register(TracksReader { namespace: long.clone(), id: 2 }).unwrap();
    let query = TrackNamespace::try_from_str("org/chan/video").unwrap();
    let found = locals.retrieve(&query).unwrap();
    assert_eq!(found.id, 2);
    assert_eq!(found.namespace, long);
}

#[test]
fn duplicate_local_registration() {
    // The second registration of a namespace fails with Duplicate and the
    // first keeps serving.
    let mut locals = Locals::new();
    let ns = TrackNamespace::try_from_str("dup").unwrap();
    locals.register(TracksReader { namespace: ns.clone(), id: 1 }).unwrap();
    let second = locals.register(TracksReader { namespace: ns.clone(), id: 2 });
    assert!(matches!(second.unwrap_err(), RegisterError::Duplicate));
    assert_eq!(locals.retrieve(&ns).unwrap().id, 1);
}

#[test]
fn track_status_miss_is_code_four() {
    assert_eq!(serve_track_status(Some(3)).unwrap(), 3);
    let (code, text) = serve_track_status(None).unwrap_err();
    assert_eq!(code, TRACK_NOT_FOUND_CODE);
    assert_eq!(text, "Track not found");
}
