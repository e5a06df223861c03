//! Proposes the next release or pre-release tag for a repository from the
//! version tags it already has.
//!
//! The library works on plain values: the known versions, an answer to the
//! question which of them the current line of work can reach, and whether
//! that line is the canonical branch. It reads no repository and asks no
//! user.
//!
//! - [`version`], [`ordering`], [`text`]: what a version is, how versions
//!   are ordered, and how they are written and read.
//! - [`classifier`], [`lineage`]: the latest release, the pre-releases ahead
//!   of it, and the one that the current line of work continues.
//! - [`proposal`], [`collision`]: the version to propose, and how a
//!   proposed pre-release gets out of the way of the tags that exist.

pub mod classifier;
pub mod collision;
pub mod decimal;
pub mod error;
pub mod lineage;
pub mod ordering;
pub mod proposal;
pub mod text;
pub mod version;
