//! Capability links for private resources, the access audit that watches
//! them, and the conditional static-file responder that serves them.

pub mod audit;
pub mod consistency;
pub mod custom;
pub mod link;
pub mod mirror;
pub mod responder;
pub mod rotation;
pub mod server;
pub mod sms;
pub mod staticfile;
pub mod store;
pub mod text;
pub mod token;
pub mod watcher;
