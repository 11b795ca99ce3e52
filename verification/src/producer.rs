//! Producer half of a relay session: serving inbound subscribes and track
//! status requests from the local registry first and remote origins second.

use vstd::prelude::*;

use crate::locals::TracksReader;
use crate::remotes::RemoteTrackReader;
use vstd::string::StringExecFns;

verus! {

/// How one inbound subscribe is served.
#[derive(Debug)]
pub enum SubscribeAction {
    /// Attach the subscription to this locally served track.
    ServeLocal(TracksReader),
    /// Proxy the subscription through this remote track reader.
    ServeRemote(RemoteTrackReader),
    /// Nothing serves the track: close the subscription as not found.
    CloseNotFound,
}

/// Serve an inbound subscribe: a local track that matched by longest
/// prefix and accepted the name wins; otherwise the remote reader the
/// origin's session handed back; otherwise the subscription closes as not
/// found.
pub fn serve_subscribe(local: Option<TracksReader>, remote: Option<RemoteTrackReader>) -> (r:
    SubscribeAction)
    ensures
        match local {
            Some(t) => r matches SubscribeAction::ServeLocal(t2) && t2@ == t@,
            None => match remote {
                Some(t) => r matches SubscribeAction::ServeRemote(t2) && t2.namespace@
                    == t.namespace@ && t2.name@ == t.name@ && t2.track_id == t.track_id,
                None => r is CloseNotFound,
            },
        },
{
    match local {
        Some(t) => SubscribeAction::ServeLocal(t),
        None => match remote {
            Some(t) => SubscribeAction::ServeRemote(t),
            None => SubscribeAction::CloseNotFound,
        },
    }
}

/// Error code a track status request is refused with when nothing local
/// serves the track.
pub const TRACK_NOT_FOUND_CODE: u64 = 4;

/// Serve a track status request: only local tracks answer it; on a miss
/// the reply is error code `TRACK_NOT_FOUND_CODE`, "Track not found".
pub fn serve_track_status(local_track: Option<u64>) -> (r: Result<u64, (u64, String)>)
    ensures
        match local_track {
            Some(track) => r == Ok::<u64, (u64, String)>(track),
            None => r matches Err((code, _)) && code == TRACK_NOT_FOUND_CODE,
        },
{
    match local_track {
        Some(track) => Ok(track),
        None => Err((TRACK_NOT_FOUND_CODE, String::from_str("Track not found"))),
    }
}

} // verus!
