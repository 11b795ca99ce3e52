//! Consumer half of a relay session: serving inbound announces.
//!
//! Each announce is registered with the coordinator and in the local
//! registry, and both handles are held for the announce's lifetime; a
//! failure of either registration answers the announce with an error and
//! leaves the session up.

use vstd::prelude::*;

use crate::coordinator::{CoordinatorError, NamespaceRegistration};
use crate::locals::{RegisterError, Registration};

verus! {

/// What serving one inbound announce came to.
pub enum AnnounceServe {
    /// Both registrations held: acknowledge the announce and keep the
    /// handles until it ends.
    Accepted(NamespaceRegistration, Registration),
    /// A registration failed: answer the announce with an error; the
    /// session stays up and nothing is retained.
    Rejected(CoordinatorError),
}

/// Serve one inbound announce from the two registration results: accepted
/// only when the coordinator and the local registry both registered it; a
/// duplicate in either rejects the announce with the matching error.
pub fn serve_announce(
    coordinator: Result<NamespaceRegistration, CoordinatorError>,
    locals: Result<Registration, RegisterError>,
) -> (r: AnnounceServe)
    ensures
        match (coordinator, locals) {
            (Ok(c), Ok(l)) => r matches AnnounceServe::Accepted(c2, l2) && c2.namespace@
                == c.namespace@ && c2.metadata == c.metadata && l2.namespace@ == l.namespace@,
            (Err(e), _) => r matches AnnounceServe::Rejected(e2) && ((e is NamespaceNotFound
                ==> e2 is NamespaceNotFound) && (e is NamespaceAlreadyRegistered
                ==> e2 is NamespaceAlreadyRegistered) && (e is Other ==> e2 is Other)),
            (Ok(_), Err(RegisterError::Duplicate)) => r matches AnnounceServe::Rejected(e2) && e2
                is NamespaceAlreadyRegistered,
        },
{
    match (coordinator, locals) {
        (Ok(c), Ok(l)) => AnnounceServe::Accepted(c, l),
        (Err(e), _) => AnnounceServe::Rejected(e),
        (Ok(_), Err(RegisterError::Duplicate)) => AnnounceServe::Rejected(
            CoordinatorError::NamespaceAlreadyRegistered,
        ),
    }
}

} // verus!
