//! Federated authentication client core.
//!
//! A hosting application delegates identity to an external authorization
//! provider.  This crate holds the verified core of that delegation: the
//! [`auth::Auth`] credential value, the request builders and response
//! decoders of [`auth_client::AuthClient`], the webhook signature check, and
//! the wire-protocol JSON codec they share.  Network transport, clocks and
//! configuration sources are collaborators at the edge; the decisions taken
//! on what they deliver are proved here.

pub mod auth;
pub mod auth_client;
pub mod config;
pub mod errors;
pub mod json;
pub mod storage;
pub mod test_utils;
pub mod webhook;
