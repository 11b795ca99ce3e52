use moq_relay_ietf::namespace::TrackNamespace;
use moq_relay_ietf::session::{
    classify, first_request_id, largest_common, negotiate_version, route_message, Message,
    MessageQueue, MessageRole, RecvAction, RequestIdGenerator, SessionError, DRAFT_13, DRAFT_14,
};

#[test]
fn version_mismatch_fails_with_version_error() {
    // The client offers only one draft, the server supports only another:
    // negotiation fails and the error carries both lists.
    let supported = vec![DRAFT_14];
    let offered = vec![DRAFT_13];
    match negotiate_version(&supported, &offered).unwrap_err() {
        SessionError::Version(client, server) => {
            assert_eq!(client, vec![DRAFT_13]);
            assert_eq!(server, vec![DRAFT_14]);
        },
        other => panic!("expected a version error, got {:?}", other),
    }
}

#[test]
fn version_negotiation_picks_largest_common() {
    let supported = vec![DRAFT_13, DRAFT_14];
    let offered = vec![DRAFT_14, DRAFT_13];
    assert_eq!(negotiate_version(&supported, &offered).unwrap(), DRAFT_14);
    assert_eq!(largest_common(&vec![1, 5, 3], &vec![3, 5]), Some(5));
    assert_eq!(largest_common(&vec![1, 2], &vec![3, 4]), None);
}

#[test]
fn request_id_parity() {
    // Client ids are even, server ids odd, both strictly increasing.
    let mut client = RequestIdGenerator::new(first_request_id(true));
    let mut server = RequestIdGenerator::new(first_request_id(false));
    let mut last_client = None;
    let mut last_server = None;
    for _ in 0..10 {
        let c = client.next();
        let s = server.next();
        assert_eq!(c % 2, 0);
        assert_eq!(s % 2, 1);
        if let Some(lc) = last_client {
            assert!(c > lc);
        }
        if let Some(ls) = last_server {
            assert!(s > ls);
        }
        last_client = Some(c);
        last_server = Some(s);
    }
    assert_eq!(last_client, Some(18));
    assert_eq!(last_server, Some(19));
}

#[test]
fn message_classification() {
    let ns = TrackNamespace::try_from_str("a").unwrap();
    let publish_ns = Message::PublishNamespace { id: 0, track_namespace: ns };
    assert_eq!(classify(&publish_ns), MessageRole::ForSubscriber);
    assert_eq!(classify(&Message::SubscribeOk { id: 0, track_alias: 7 }), MessageRole::ForSubscriber);
    assert_eq!(classify(&Message::Unsubscribe { id: 0 }), MessageRole::ForPublisher);
    assert_eq!(classify(&Message::PublishNamespaceOk { id: 0 }), MessageRole::ForPublisher);
    assert_eq!(
        classify(&Message::GoAway { new_session_uri: String::new() }),
        MessageRole::Unhandled
    );
}

#[test]
fn message_routing_respects_roles() {
    let msg = Message::SubscribeOk { id: 2, track_alias: 9 };
    assert_eq!(route_message(&msg, true, true), RecvAction::DeliverToSubscriber);
    assert_eq!(route_message(&msg, true, false), RecvAction::FailRoleViolation);
    let sub = Message::Unsubscribe { id: 2 };
    assert_eq!(route_message(&sub, true, true), RecvAction::DeliverToPublisher);
    assert_eq!(route_message(&sub, false, true), RecvAction::FailRoleViolation);
    let goaway = Message::GoAway { new_session_uri: String::new() };
    assert_eq!(route_message(&goaway, true, true), RecvAction::FailUnimplemented);
}

#[test]
fn outbound_queue_is_fifo() {
    let mut q = MessageQueue::new();
    assert!(q.push(Message::Unsubscribe { id: 0 }));
    assert!(q.push(Message::Unsubscribe { id: 2 }));
    assert!(q.push(Message::Unsubscribe { id: 4 }));
    let mut seen = Vec::new();
    while let Some(m) = q.pop() {
        match m {
            Message::Unsubscribe { id } => seen.push(id),
            _ => panic!("unexpected message"),
        }
    }
    assert_eq!(seen, vec![0, 2, 4]);
    q.close();
    assert!(!q.push(Message::Unsubscribe { id: 6 }));
    assert!(q.pop().is_none());
}
