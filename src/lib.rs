//! Loopback capture of OAuth redirects: a registry of pending sign-in flows,
//! the routing of the local listener's requests, and the decisions of the
//! flow that waits for a credential.

pub mod query;
pub mod registry;
pub mod listener;
pub mod flow;
