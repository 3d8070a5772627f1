//! Correlates the submodule bumps of a host repository with the history of the
//! dependent project that the submodule tracks.
//!
//! For every host commit that moves the submodule pointer the library finds
//! the release of the host that first shipped the move, and the dependent
//! commits that came with it, each marked by whether the dependent project's
//! upstream branch still reaches it.

pub mod bump;
pub mod commit;
pub mod config;
pub mod lines;
pub mod order;
pub mod pipeline;
pub mod query;
pub mod release;
pub mod report;
pub mod resolve;
pub mod summary;
pub mod text;
pub mod walk;
