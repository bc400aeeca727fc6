//! Configuration data shared read-only by every session.

use vstd::prelude::*;

verus! {

/// One outbound webhook endpoint: where to post and the key to sign with.
pub struct WebhookConfig {
    pub url: String,
    pub api_key: String,
}

impl Clone for WebhookConfig {
    fn clone(&self) -> (r: Self)
        ensures
            r == *self,
    {
        WebhookConfig { url: self.url.clone(), api_key: self.api_key.clone() }
    }
}

/// Listener and protocol settings.
pub struct ServerConfig {
    pub smtp_bind_address: String,
    pub hostname: String,
    pub max_size: usize,
    pub cert_path: String,
    pub key_path: String,
}

/// The whole configuration: server settings and the routing table.
///
/// The routing table maps a pattern (a literal address, or `*@domain` for a
/// suffix match) to a webhook entry. Patterns are expected to be unique; when
/// a pattern repeats, the earliest entry wins.
pub struct Config {
    pub server: ServerConfig,
    pub webhooks: Vec<(String, WebhookConfig)>,
}

} // verus!
