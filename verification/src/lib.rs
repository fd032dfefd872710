//! Verified core of a command-line client for a remote security-analysis
//! service.
//!
//! The library decides and computes; it does no input or output. Its caller
//! runs the version-control tool, looks at the file system and talks to the
//! service, and hands the library what it got.
//!
//! - [`git`] plans the diff for a change set and reads its output.
//! - [`select`] picks the files worth analysing.
//! - [`api_client`] validates the endpoint and configures the transport.
//! - [`stream`] follows the streamed response, whatever its chunking.
//! - [`models`] holds the values exchanged with the service.
//! - [`paths`] and [`text`] are the text handling underneath.

pub mod api_client;
pub mod git;
pub mod models;
pub mod paths;
pub mod select;
pub mod stream;
pub mod text;
