use moq_relay_ietf::coordinator::{
    lookup_origin, register_in_document, unregister_in_document, ApiCoordinatorConfig,
    CoordinatorData, CoordinatorError, NamespaceRegistration, DEFAULT_REGISTRATION_TTL_SECS,
};
use moq_relay_ietf::consumer::{serve_announce, AnnounceServe};
use moq_relay_ietf::locals::{Locals, RegisterError, TracksReader};
use moq_relay_ietf::namespace::TrackNamespace;
use url::Url;

#[test]
fn test_config_new() {
    let api_url = Url::parse("http://localhost:8080").unwrap();
    let relay_url = Url::parse("https://relay.example.com").unwrap();

    let config = ApiCoordinatorConfig::new(api_url.clone(), relay_url.clone());

    assert_eq!(config.api_url, api_url);
    assert_eq!(config.relay_url, relay_url);
    assert_eq!(config.registration_ttl_secs, DEFAULT_REGISTRATION_TTL_SECS);
    assert_eq!(config.refresh_interval_secs, DEFAULT_REGISTRATION_TTL_SECS / 2);
}

#[test]
fn test_config_with_ttl() {
    let api_url = Url::parse("http://localhost:8080").unwrap();
    let relay_url = Url::parse("https://relay.example.com").unwrap();

    let config = ApiCoordinatorConfig::new(api_url, relay_url).with_ttl(120);

    assert_eq!(config.registration_ttl_secs, 120);
    assert_eq!(config.refresh_interval_secs, 60);
}

#[test]
fn coordinator_register_then_lookup() {
    let mut data = CoordinatorData::new();
    let ns = TrackNamespace::try_from_str("live/chan").unwrap();
    let reg = register_in_document(&mut data, &ns, String::from("https://relay-one.example"));
    assert_eq!(reg.namespace, ns);

    let (origin, url_text) = lookup_origin(&data, &ns).unwrap();
    assert_eq!(url_text, "https://relay-one.example");
    assert_eq!(origin.namespace(), &ns);
    assert_eq!(origin.url(), Url::parse("https://relay-one.example").unwrap());
}

#[test]
fn coordinator_lookup_after_unregister() {
    let mut data = CoordinatorData::new();
    let ns = TrackNamespace::try_from_str("live/chan").unwrap();
    let _reg = register_in_document(&mut data, &ns, String::from("https://relay-one.example"));
    unregister_in_document(&mut data, &ns);
    let r = lookup_origin(&data, &ns);
    assert!(matches!(r.unwrap_err(), CoordinatorError::NamespaceNotFound));
}

#[test]
fn coordinator_prefix_lookup() {
    let mut data = CoordinatorData::new();
    let short = TrackNamespace::try_from_str("a").unwrap();
    let long = TrackNamespace::try_from_str("a/b").unwrap();
    let _r1 = register_in_document(&mut data, &short, String::from("https://one.example"));
    let _r2 = register_in_document(&mut data, &long, String::from("https://two.example"));

    // A nested namespace resolves to the longest registered prefix.
    let query = TrackNamespace::try_from_str("a/b/video").unwrap();
    let (origin, url_text) = lookup_origin(&data, &query).unwrap();
    assert_eq!(url_text, "https://two.example");
    // The matched namespace is rebuilt from the registered path key, whose
    // leading slash gives a leading empty field.
    assert_eq!(origin.namespace().to_utf8_path(), "//a/b");

    let other = TrackNamespace::try_from_str("a/c").unwrap();
    let (_, url_text2) = lookup_origin(&data, &other).unwrap();
    assert_eq!(url_text2, "https://one.example");
}

#[test]
fn coordinator_register_is_upsert() {
    let mut data = CoordinatorData::new();
    let ns = TrackNamespace::try_from_str("dup").unwrap();
    let _r1 = register_in_document(&mut data, &ns, String::from("https://one.example"));
    let _r2 = register_in_document(&mut data, &ns, String::from("https://two.example"));
    let (_, url_text) = lookup_origin(&data, &ns).unwrap();
    assert_eq!(url_text, "https://two.example");
}

#[test]
fn coordinator_invalid_registered_url() {
    let mut data = CoordinatorData::new();
    let ns = TrackNamespace::try_from_str("bad").unwrap();
    let _r = register_in_document(&mut data, &ns, String::from("not a url"));
    let r = lookup_origin(&data, &ns);
    assert!(matches!(r.unwrap_err(), CoordinatorError::Other(_)));
}

#[test]
fn ttl_refresh_configuration() {
    // A short-TTL coordinator refreshes at half the TTL, so a registration
    // held past several TTLs stays resolvable, and removal takes effect at
    // once.
    let api_url = Url::parse("http://localhost:8080").unwrap();
    let relay_url = Url::parse("https://relay.example.com").unwrap();
    let config = ApiCoordinatorConfig::new(api_url, relay_url).with_ttl(4);
    assert_eq!(config.registration_ttl_secs, 4);
    assert_eq!(config.refresh_interval_secs, 2);
    assert!(config.refresh_interval_secs < config.registration_ttl_secs);

    let mut data = CoordinatorData::new();
    let ns = TrackNamespace::try_from_str("clock").unwrap();
    let reg = register_in_document(&mut data, &ns, String::from("https://relay.example.com"));
    assert!(lookup_origin(&data, &ns).is_ok());
    unregister_in_document(&mut data, &reg.namespace);
    assert!(matches!(lookup_origin(&data, &ns).unwrap_err(), CoordinatorError::NamespaceNotFound));
}

#[test]
fn registration_metadata() {
    let ns = TrackNamespace::try_from_str("meta").unwrap();
    let reg = NamespaceRegistration::new(ns.clone());
    assert!(reg.metadata.is_none());
    let reg = reg.with_metadata(vec![(String::from("region"), String::from("eu"))]);
    assert_eq!(reg.namespace, ns);
    assert_eq!(reg.metadata.unwrap().len(), 1);
}

#[test]
fn announce_rejected_on_duplicate_registration() {
    // Two publishers announce the same namespace: the first is accepted,
    // the second is rejected with a duplicate error and nothing held.
    let mut locals = Locals::new();
    let ns = TrackNamespace::try_from_str("dup").unwrap();
    let first_local = locals.register(TracksReader { namespace: ns.clone(), id: 1 });
    let first = serve_announce(Ok(NamespaceRegistration::new(ns.clone())), first_local);
    assert!(matches!(first, AnnounceServe::Accepted(_, _)));

    let second_local = locals.register(TracksReader { namespace: ns.clone(), id: 2 });
    assert!(matches!(second_local, Err(RegisterError::Duplicate)));
    let second = serve_announce(Ok(NamespaceRegistration::new(ns.clone())), second_local);
    match second {
        AnnounceServe::Rejected(e) => {
            assert!(matches!(e, CoordinatorError::NamespaceAlreadyRegistered))
        },
        AnnounceServe::Accepted(_, _) => panic!("duplicate announce must be rejected"),
    }
}
