use moq_relay_ietf::endpoint::{
    alpn_for_scheme, classify_address_family, effective_port, select_compatible_addr,
    AddressFamily, Alpn,
};
use moq_relay_ietf::relay::{mlog_file_name, qlog_file_name, validate_endpoints, RelayConfigError};

#[test]
fn address_family_classification() {
    assert_eq!(classify_address_family(true, true), AddressFamily::Ipv4);
    assert_eq!(classify_address_family(false, true), AddressFamily::Ipv6DualStack);
    assert_eq!(classify_address_family(false, false), AddressFamily::Ipv6);
}

#[test]
fn resolver_results_filter_by_family() {
    // true marks an IPv4 result.
    let addrs = vec![false, true, false, true];
    assert_eq!(select_compatible_addr(&addrs, AddressFamily::Ipv4), Some(1));
    assert_eq!(select_compatible_addr(&addrs, AddressFamily::Ipv6), Some(0));
    assert_eq!(select_compatible_addr(&addrs, AddressFamily::Ipv6DualStack), Some(0));
    let only_v4 = vec![true, true];
    assert_eq!(select_compatible_addr(&only_v4, AddressFamily::Ipv6), None);
    let none: Vec<bool> = Vec::new();
    assert_eq!(select_compatible_addr(&none, AddressFamily::Ipv6DualStack), None);
}

#[test]
fn alpn_follows_url_scheme() {
    assert_eq!(alpn_for_scheme("https"), Some(Alpn::WebTransport));
    assert_eq!(alpn_for_scheme("moqt"), Some(Alpn::Native));
    assert_eq!(alpn_for_scheme("http"), None);
    assert_eq!(alpn_for_scheme(""), None);
}

#[test]
fn default_port_is_443() {
    assert_eq!(effective_port(None), 443);
    assert_eq!(effective_port(Some(4443)), 4443);
}

#[test]
fn endpoint_configuration_rules() {
    assert!(validate_endpoints(true, 0).is_ok());
    assert!(validate_endpoints(false, 2).is_ok());
    assert_eq!(validate_endpoints(true, 1).unwrap_err(), RelayConfigError::BothBindAndEndpoints);
    assert_eq!(validate_endpoints(false, 0).unwrap_err(), RelayConfigError::NoEndpoints);
}

#[test]
fn diagnostic_file_names() {
    assert_eq!(mlog_file_name("0a1b"), "0a1b_server.mlog");
    assert_eq!(qlog_file_name("0a1b"), "0a1b_server.qlog");
}
