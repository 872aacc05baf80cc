//! Configuration of the proving service's network endpoint.

use vstd::prelude::*;

verus! {

/// The proving service, bound to one local TCP port.
pub struct ProvingServer {
    port: u16,
}

impl ProvingServer {
    /// The port the service listens on.
    pub closed spec fn spec_port(&self) -> u16 {
        self.port
    }

    /// A service that will listen on `port`.
    pub fn new(port: u16) -> (server: Self)
        ensures
            server.spec_port() == port,
    {
        ProvingServer { port }
    }

    /// The port the service listens on.
    pub fn port(&self) -> (port: u16)
        ensures
            port == self.spec_port(),
    {
        self.port
    }
}

} // verus!
