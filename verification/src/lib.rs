//! The logic of DevScout Cleaner, a Windows tool that deletes a program's
//! directory together with the registry keys that still refer to it.
//!
//! Every function here is verified with Verus against its contract. The
//! window, the file system, the registry and process control live in the
//! application around the library, which performs the reads and writes that
//! these functions decide on.

pub mod text;
pub mod paths;
pub mod utf16;
pub mod registry;
pub mod candidates;
pub mod walk;
pub mod scan;
pub mod cleanup;
pub mod ui;
