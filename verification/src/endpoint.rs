//! Endpoint-side selection rules: the local socket's address family, which
//! resolved address a connection uses, and which ALPN a URL scheme asks
//! for.

use vstd::prelude::*;
use vstd::string::StrSliceExecFns;
use vstd::string::StringSliceAdditionalSpecFns;

verus! {

/// The address family of the local QUIC socket.
#[derive(Debug, Clone, Copy, PartialEq, Eq, Structural)]
pub enum AddressFamily {
    Ipv4,
    Ipv6,
    /// IPv6 with dual-stack support.
    Ipv6DualStack,
}

/// The family of a local socket: IPv4 sockets are IPv4; IPv6 sockets are
/// dual-stack where the platform supports it.
pub fn classify_address_family(local_is_ipv4: bool, platform_dual_stack: bool) -> (r:
    AddressFamily)
    ensures
        r == (if local_is_ipv4 {
            AddressFamily::Ipv4
        } else if platform_dual_stack {
            AddressFamily::Ipv6DualStack
        } else {
            AddressFamily::Ipv6
        }),
{
    if local_is_ipv4 {
        AddressFamily::Ipv4
    } else if platform_dual_stack {
        AddressFamily::Ipv6DualStack
    } else {
        AddressFamily::Ipv6
    }
}

/// Pick the resolved address compatible with the local socket: the first
/// IPv4 result for an IPv4 socket, the first IPv6 result for a plain IPv6
/// socket, the first result of any family for a dual-stack socket. `None`
/// when no result is compatible. `addrs` holds whether each resolved
/// address is IPv4, in resolver order.
pub fn select_compatible_addr(addrs: &Vec<bool>, family: AddressFamily) -> (r: Option<usize>)
    ensures
        match family {
            AddressFamily::Ipv4 => match r {
                Some(i) => i < addrs@.len() && addrs@[i as int] && forall|j: int|
                    0 <= j < i ==> !addrs@[j],
                None => forall|j: int| 0 <= j < addrs@.len() ==> !addrs@[j],
            },
            AddressFamily::Ipv6 => match r {
                Some(i) => i < addrs@.len() && !addrs@[i as int] && forall|j: int|
                    0 <= j < i ==> addrs@[j],
                None => forall|j: int| 0 <= j < addrs@.len() ==> addrs@[j],
            },
            AddressFamily::Ipv6DualStack => match r {
                Some(i) => i == 0 && addrs@.len() > 0,
                None => addrs@.len() == 0,
            },
        },
{
    match family {
        AddressFamily::Ipv4 => {
            let mut i: usize = 0;
            while i < addrs.len()
                invariant
                    family == AddressFamily::Ipv4,
                    i <= addrs@.len(),
                    forall|j: int| 0 <= j < i ==> !addrs@[j],
                decreases addrs.len() - i,
            {
                if addrs[i] {
                    return Some(i);
                }
                i += 1;
            }
            None
        },
        AddressFamily::Ipv6 => {
            let mut i: usize = 0;
            while i < addrs.len()
                invariant
                    family == AddressFamily::Ipv6,
                    i <= addrs@.len(),
                    forall|j: int| 0 <= j < i ==> addrs@[j],
                decreases addrs.len() - i,
            {
                if !addrs[i] {
                    return Some(i);
                }
                i += 1;
            }
            None
        },
        AddressFamily::Ipv6DualStack => {
            if addrs.len() > 0 {
                Some(0)
            } else {
                None
            }
        },
    }
}

/// The two application protocols a connection can carry.
#[derive(Debug, Clone, Copy, PartialEq, Eq, Structural)]
pub enum Alpn {
    /// WebTransport over HTTP/3, asked for by `https` URLs.
    WebTransport,
    /// Native MoQ over raw QUIC, asked for by `moqt` URLs.
    Native,
}

/// The ALPN a URL scheme asks for: `https` means WebTransport, `moqt`
/// means native MoQ, anything else is refused.
pub fn alpn_for_scheme(scheme: &str) -> (r: Option<Alpn>)
    ensures
        match r {
            Some(Alpn::WebTransport) => scheme.spec_bytes() == "https".spec_bytes(),
            Some(Alpn::Native) => scheme.spec_bytes() == "moqt".spec_bytes(),
            None => scheme.spec_bytes() != "https".spec_bytes() && scheme.spec_bytes()
                != "moqt".spec_bytes(),
        },
{
    let bytes = scheme.as_bytes_vec();
    let https = "https".as_bytes_vec();
    let moqt = "moqt".as_bytes_vec();
    if bytes == https {
        proof {
            assert(scheme.spec_bytes() =~= "https".spec_bytes());
        }
        Some(Alpn::WebTransport)
    } else if bytes == moqt {
        proof {
            assert(scheme.spec_bytes() =~= "moqt".spec_bytes());
        }
        Some(Alpn::Native)
    } else {
        None
    }
}

/// The port a connection uses: the URL's where it names one, 443
/// otherwise.
pub fn effective_port(url_port: Option<u16>) -> (r: u16)
    ensures
        r == (match url_port {
            Some(p) => p,
            None => 443u16,
        }),
{
    match url_port {
        Some(p) => p,
        None => 443,
    }
}

} // verus!
