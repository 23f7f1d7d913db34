//! A lightweight service gateway library: a concurrency-friendly registry
//! mapping service identifiers to backend endpoints, routing logic that
//! dispatches inbound requests to resolved backends (plain forwarding or
//! CONNECT tunneling), a graceful-shutdown state machine for the accept
//! loop, and small verified helpers around the cryptographic, cache and
//! registration collaborators.

use vstd::prelude::*;

pub mod addr;
pub mod base64;
pub mod cache;
pub mod crypto_aes;
pub mod gateway;
pub mod hash;
pub mod kyc;
pub mod registry;
pub mod utils;

verus! {

/// The gateway server: the registry it routes against and its lifecycle
/// state. The embedding application owns the listener, the connection
/// tasks and the shutdown channel, and drives this state through
/// `GatewayState::on_event`.
pub struct Server {
    pub registry: registry::ServiceRegistry,
    pub state: gateway::GatewayState,
}

impl Server {
    pub fn new() -> (r: Self)
        ensures
            r.registry.wf(),
            r.registry@ == Map::<Seq<char>, registry::ServiceView>::empty(),
            r.state == (gateway::GatewayState {
                phase: gateway::GatewayPhase::Idle,
                pending: 0,
            }),
    {
        Server { registry: registry::ServiceRegistry::new(), state: gateway::GatewayState::new() }
    }
}

impl Default for Server {
    fn default() -> (r: Self)
        ensures
            r.registry.wf(),
            r.registry@ == Map::<Seq<char>, registry::ServiceView>::empty(),
            r.state == (gateway::GatewayState {
                phase: gateway::GatewayPhase::Idle,
                pending: 0,
            }),
    {
        Server::new()
    }
}

/// The gateway as embedded by an application: the address it will bind
/// and the server it drives.
pub struct Yoroi {
    pub address: String,
    pub server: Server,
}

impl Yoroi {
    pub fn new(address: String) -> (r: Self)
        ensures
            r.address@ == address@,
            r.server.registry.wf(),
            r.server.registry@ == Map::<Seq<char>, registry::ServiceView>::empty(),
            r.server.state == (gateway::GatewayState {
                phase: gateway::GatewayPhase::Idle,
                pending: 0,
            }),
    {
        Yoroi { address, server: Server::default() }
    }

    /// The registry, for registration calls made by the embedding
    /// application.
    pub fn registry(&mut self) -> (r: &mut registry::ServiceRegistry)
        ensures
            *r == old(self).server.registry,
            *final(self) == (Yoroi {
                address: old(self).address,
                server: Server { registry: *final(r), state: old(self).server.state },
            }),
    {
        &mut self.server.registry
    }
}

} // verus!
