//! A natural-language shell helper, verified.
//!
//! The library turns a free-text request into a shell command through a
//! remote provider, persists configuration across invocations, and gates
//! execution behind an explicit confirmation.  Everything that computes or
//! decides lives here with a contract; reading files, the network call and
//! the terminal itself are left to the surrounding binary.

pub mod text;
pub mod store;
pub mod profile;
pub mod provider;
pub mod prompt;
pub mod json;
pub mod confirm;
pub mod orchestrate;
