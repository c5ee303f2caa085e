//! Logic of a local forwarding proxy: which configured frontend a browser
//! request belongs to, which rule forwards it, what is sent upstream and what
//! comes back, and how the admin console changes the configuration.

pub mod admin;
pub mod config;
pub mod cors;
pub mod headers;
pub mod laws;
pub mod proxy;
pub mod state;
pub mod table;
pub mod text;
