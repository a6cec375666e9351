//! Fetching a set of named secrets from a remote vault and rendering them,
//! either as bare values or as a pretty-printed JSON object.
//!
//! The library holds the decisions: the configuration and its validation,
//! the sequential fetch session with its first-failure abort, the map of
//! fetched secrets and the output text. Talking to the vault is left to the
//! caller, which hands each fetch result back to the session.
use vstd::prelude::*;

pub mod config;
pub mod output;
pub mod secrets;
pub mod session;

pub use config::{Config, ConfigError};
pub use output::{join_lines, render, RenderError};
pub use secrets::SecretsMap;
pub use session::FetchSession;
