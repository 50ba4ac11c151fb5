//! Release-note generation for a multi-package repository: tag ordering,
//! release windows, commit-range walks, commit classification, author
//! attribution and markdown rendering.
pub mod classify;
pub mod changelog;
pub mod commits;
pub mod error;
pub mod npm;
pub mod range;
pub mod tags;
pub mod text;
