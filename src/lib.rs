//! Hesiod naming service: administrative records (passwd, group, service,
//! filsys) served as TXT answers in the HS class of a DNS-style protocol.
pub mod text;
pub mod records;
pub mod config;
pub mod zone;
pub mod resolver;
pub mod wire;
pub mod server;
pub mod zonefile;
