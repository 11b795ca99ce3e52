//! Relay orchestration rules that are pure: endpoint configuration checks
//! and per-connection diagnostic file names.

use vstd::prelude::*;
use vstd::string::StringExecFns;

verus! {

/// Misconfigurations that stop the relay before it listens.
#[derive(Debug, PartialEq, Eq, Structural)]
pub enum RelayConfigError {
    /// A bind address and an explicit endpoint list exclude each other.
    BothBindAndEndpoints,
    /// Neither a bind address nor any endpoint was given.
    NoEndpoints,
}

/// A relay listens either on one bound address or on explicit endpoints:
/// both at once or neither is a configuration error.
pub fn validate_endpoints(has_bind: bool, n_endpoints: usize) -> (r: Result<
    (),
    RelayConfigError,
>)
    ensures
        match r {
            Ok(()) => (has_bind && n_endpoints == 0) || (!has_bind && n_endpoints > 0),
            Err(RelayConfigError::BothBindAndEndpoints) => has_bind && n_endpoints > 0,
            Err(RelayConfigError::NoEndpoints) => !has_bind && n_endpoints == 0,
        },
{
    if has_bind && n_endpoints > 0 {
        Err(RelayConfigError::BothBindAndEndpoints)
    } else if !has_bind && n_endpoints == 0 {
        Err(RelayConfigError::NoEndpoints)
    } else {
        Ok(())
    }
}

/// The per-connection MoQ event log's file name: the connection id in hex,
/// then `_server.mlog`.
pub fn mlog_file_name(connection_id_hex: &str) -> (r: String)
    ensures
        r@ == connection_id_hex@ + "_server.mlog"@,
{
    let mut name = connection_id_hex.to_owned();
    name.append("_server.mlog");
    name
}

/// The per-connection QUIC event log's file name: the connection id in
/// hex, then `_server.qlog`.
pub fn qlog_file_name(connection_id_hex: &str) -> (r: String)
    ensures
        r@ == connection_id_hex@ + "_server.qlog"@,
{
    let mut name = connection_id_hex.to_owned();
    name.append("_server.qlog");
    name
}

} // verus!
