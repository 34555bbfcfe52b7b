//! Component catalog, version resolution, and dependency-closed selection
//! for an installer back end.
//!
//! The library models the running machine as a [`platform::Platform`],
//! resolves each component's latest version from a polymorphic
//! [`version::VersionResolvable`] with write-once caching, partitions a
//! catalog into platform-compatible and incompatible components, keeps a
//! selection of components closed under their dependency relation, and
//! compiles a component's install procedure into concrete steps.
//!
//! Network and file transport live outside the library: callers obtain the
//! request URL for a version source, perform the transfer themselves, and
//! hand the decoded records back to be parsed and cached here.

pub mod component;
pub mod cross_platform;
pub mod platform;
pub mod procedure;
pub mod select;
pub mod text;
pub mod version;
