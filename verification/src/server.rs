//! The server as it stands before its event loop runs: its configuration
//! and its registry of clients.

use crate::client::{ClientID, ClientManager, ClientView};
use vstd::prelude::*;

verus! {

/// The port that the server listens on when none is given.
pub const DEFAULT_PORT: i32 = 6379;

/// What the server is configured with.
#[derive(Debug, Clone, Copy, PartialEq, Eq)]
pub struct RedisServerConfig {
    pub port: i32,
}

/// The server's configuration and its registry of clients.
#[derive(Debug)]
pub struct RedisServer {
    client_manager: ClientManager,
    config: RedisServerConfig,
}

impl Default for RedisServer {
    /// A server on the default port, with no clients.
    fn default() -> (server: RedisServer)
        ensures
            server.wf(),
            server.port() == DEFAULT_PORT,
    {
        RedisServer {
            client_manager: ClientManager::default(),
            config: RedisServerConfig { port: DEFAULT_PORT },
        }
    }
}

impl RedisServer {
    /// The server has not run yet: its registry is well formed and holds
    /// no client.
    pub closed spec fn wf(&self) -> bool {
        self.client_manager.wf() && self.client_manager@ == Map::<ClientID, ClientView>::empty()
    }

    /// The port that the server listens on.
    pub closed spec fn port(&self) -> i32 {
        self.config.port
    }

    /// A server on the port `port`, with no clients.
    pub fn with_port(port: i32) -> (server: RedisServer)
        ensures
            server.wf(),
            server.port() == port,
    {
        RedisServer {
            client_manager: ClientManager::default(),
            config: RedisServerConfig { port },
        }
    }

    /// The server's configuration.
    pub fn config(&self) -> (config: RedisServerConfig)
        ensures
            config.port == self.port(),
    {
        self.config
    }

    /// The server's registry of clients.
    pub fn client_manager(&self) -> (manager: &ClientManager)
        ensures
            self.wf() ==> manager.wf() && manager@ == Map::<ClientID, ClientView>::empty(),
    {
        &self.client_manager
    }

    /// Gives up the server for its registry of clients.
    pub fn into_client_manager(self) -> (manager: ClientManager)
        ensures
            self.wf() ==> manager.wf() && manager@ == Map::<ClientID, ClientView>::empty(),
    {
        self.client_manager
    }
}

} // verus!
