//! Making and keeping fixes to crate dependencies: the naming of patch files
//! and package directories, the layout of a workspace's patch folders, and the
//! decisions taken while patches are created and applied.
pub mod text;
pub mod naming;
pub mod error;
pub mod paths;
pub mod metadata;
pub mod workspace;
pub mod session;
pub mod plan;
