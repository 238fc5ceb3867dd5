//! A minimal Maven-style artifact resolver whose rules are verified.
//!
//! The crate computes effective project descriptors (parent inheritance,
//! property interpolation, BOM imports), walks `compile`-scope dependencies
//! and selects the archives to extract. Transport and descriptor parsing are
//! supplied by the caller through [`UrlFetcher`] and [`PomParser`]; the file
//! system is the caller's too, driven by the [`Action`]s of a [`Walk`].
//!
//! Contracts are stated over views: a [`String`] stands for its characters,
//! an [`Artifact`] for five optional character sequences, a map for the
//! sequence of its entries.

// Leaves first: each module builds on those above it.
pub mod text;
pub mod ordered_map;
pub mod version;
pub mod artifact;
pub mod error;
pub mod dependency;
pub mod project;
pub mod repository;
pub mod packaging;
pub mod cache;
pub mod capabilities;
pub mod resolver;
pub mod assembly;
pub mod walk;

pub use crate::artifact::Artifact;
pub use crate::cache::ProjectCache;
pub use crate::dependency::{Dependencies, Dependency, DependencyKey, DependencyManagement, Parent};
pub use crate::error::{ErrorKind, ResolverError};
pub use crate::ordered_map::OrderedMap;
pub use crate::packaging::Packaging;
pub use crate::capabilities::{PomParser, UrlFetcher};
pub use crate::project::Project;
pub use crate::repository::Repository;
pub use crate::resolver::Resolver;
pub use crate::version::Properties;
pub use crate::walk::{Action, Event, Walk};
