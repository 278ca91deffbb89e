//! Launch planning for saved login profiles: finding profile files, choosing
//! them by name, installing them one at a time into the active login slot and
//! putting the slot back afterwards.
//!
//! Nothing here touches the file system, a process or the console. The caller
//! does that work and hands over what it saw as plain values; every decision
//! is taken here.

pub mod discover;
pub mod error;
pub mod pattern;
pub mod plan;
pub mod profile;
pub mod profile_set;
pub mod resolve;
pub mod run;
pub mod sequencer;
pub mod store;
pub mod text;
