//! Mail Forge: an inbound SMTP gateway core.
//!
//! The library holds the verified logic of the gateway: the per-connection
//! SMTP command state machine, the DATA size accounting, the recipient
//! routing table, the request signer, the MIME part walk and the webhook
//! dispatch planning. The surrounding process (sockets, TLS, HTTP, files)
//! lives outside and talks to this library through plain values.

pub mod config;
pub mod dispatch;
pub mod mime;
pub mod router;
pub mod session;
pub mod signer;
pub mod text;
