//! The decisions of a small reverse proxy: which location answers a request,
//! which upstream server receives it, which headers it carries, and what the
//! client is told when forwarding fails.
pub mod addr;
pub mod config;
pub mod config_laws;
pub mod forward;
pub mod forward_laws;
pub mod headers;
pub mod laws;
pub mod names;
pub mod pattern;
pub mod proxy;
pub mod request_laws;
pub mod text;
pub mod upstream;
pub mod uri;
