//! Configuration of the server.

use vstd::prelude::*;

verus! {

/// Configuration object of the server.
#[derive(Clone, Debug, PartialEq, Eq)]
pub struct Config {
    /// Authentication services.
    pub auth_services: AuthConfigs,
    /// Address to listen on for HTTP requests (`host:port`).
    pub address: String,
    /// Whether to show the server's version on the root page.
    pub show_version: bool,
    /// Milliseconds between the heartbeats sent to a web socket client.
    pub ws_hb_interval: u64,
    /// Milliseconds without an answer after which a web socket client is
    /// dropped.
    pub ws_client_timeout: u64,
    /// Number of messages added to a channel's index after which the index
    /// is committed.
    pub tantivy_commit_threshold: u8,
}

/// Configuration for a generic OAuth service.
#[derive(Clone, Debug, PartialEq, Eq)]
pub struct AuthConfig {
    /// Whether this OAuth service should be used.
    pub enabled: bool,
    /// Client ID given by the OAuth service.
    pub client_id: String,
    /// Client secret given by the OAuth service.
    pub client_secret: String,
}

/// OAuth service configurations.
#[derive(Clone, Debug, PartialEq, Eq)]
pub struct AuthConfigs {
    /// GitHub OAuth config.
    pub github: Option<AuthConfig>,
}

} // verus!
