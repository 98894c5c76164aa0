//! The server's decision on a new connection, from its first line.
use vstd::prelude::*;
use crate::protocol::{Reply, Request, RequestSpec};
use crate::registry::{
    after_pairing, balanced, ready_pairs, registered, with_pending, with_worker, TunnelRegistry,
};

verus! {

/// What the server does with a connection after reading its first line.
pub enum Outcome {
    /// Send this reply and close the connection.
    Refused(Reply),
    /// Send `OK`; the connection is now the tunnel's control connection and
    /// relays a `CONNECT` for every public connection the tunnel receives.
    Registered,
    /// The connection waits as a public connection: send `CONNECT` on the
    /// control connection `control`, then bridge each pair.
    PendingQueued { control: u64, pairs: Vec<(u64, u64)> },
    /// Send `OK`; the connection waits as a worker: bridge each pair.
    WorkerQueued { pairs: Vec<(u64, u64)> },
}

/// Handles the first line `request` of connection `stream`.
///
/// `REGISTER` adds the tunnel unless its id is taken (`ERROR tunnel already
/// exists`); `CONNECT` and `WORKER` queue the connection on a registered
/// tunnel and pair what can be paired (`ERROR unknown tunnel` otherwise); a
/// line without tunnel id gets `ERROR missing tunnel id` and an unknown
/// command `ERROR unknown command <command>`. A refused connection leaves the
/// registry as it was.
pub fn handle_request(registry: &mut TunnelRegistry, request: Request, stream: u64) -> (o: Outcome)
    requires
        old(registry).wf(),
    ensures
        final(registry).wf(),
        balanced(old(registry)@) ==> balanced(final(registry)@),
        match request@ {
            RequestSpec::Register(id) => if old(registry)@.dom().contains(id) {
                o matches Outcome::Refused(Reply::TunnelExists) && final(registry)@ == old(
                    registry,
                )@
            } else {
                o matches Outcome::Registered && final(registry)@ == registered(
                    old(registry)@,
                    id,
                    stream,
                )
            },
            RequestSpec::Connect(id) => if old(registry)@.dom().contains(id) {
                let t = with_pending(old(registry)@[id], stream);
                &&& o matches Outcome::PendingQueued { control, pairs }
                &&& control == old(registry)@[id].control
                &&& pairs@ == ready_pairs(t)
                &&& final(registry)@ == old(registry)@.insert(id, after_pairing(t))
            } else {
                o matches Outcome::Refused(Reply::UnknownTunnel) && final(registry)@ == old(
                    registry,
                )@
            },
            RequestSpec::Worker(id) => if old(registry)@.dom().contains(id) {
                let t = with_worker(old(registry)@[id], stream);
                &&& o matches Outcome::WorkerQueued { pairs }
                &&& pairs@ == ready_pairs(t)
                &&& final(registry)@ == old(registry)@.insert(id, after_pairing(t))
            } else {
                o matches Outcome::Refused(Reply::UnknownTunnel) && final(registry)@ == old(
                    registry,
                )@
            },
            RequestSpec::MissingTunnelId => o matches Outcome::Refused(Reply::MissingTunnelId)
                && final(registry)@ == old(registry)@,
            RequestSpec::UnknownCommand(c) => (o matches Outcome::Refused(
                Reply::UnknownCommand(m),
            ) && m@ == c) && final(registry)@ == old(registry)@,
        },
{
    match request {
        Request::Register(id) => {
            if registry.register(id, stream) {
                Outcome::Registered
            } else {
                Outcome::Refused(Reply::TunnelExists)
            }
        },
        Request::Connect(id) => match registry.enqueue_pending(&id, stream) {
            Some((control, pairs)) => Outcome::PendingQueued { control, pairs },
            None => Outcome::Refused(Reply::UnknownTunnel),
        },
        Request::Worker(id) => match registry.enqueue_worker(&id, stream) {
            Some(pairs) => Outcome::WorkerQueued { pairs },
            None => Outcome::Refused(Reply::UnknownTunnel),
        },
        Request::MissingTunnelId => Outcome::Refused(Reply::MissingTunnelId),
        Request::UnknownCommand(c) => Outcome::Refused(Reply::UnknownCommand(c)),
    }
}

} // verus!
