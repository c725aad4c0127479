//! The errors that the patching logic reports.
use vstd::prelude::*;

verus! {

/// Why patching cannot go on.
#[derive(Debug, PartialEq, Eq)]
pub enum PatchError {
    /// No package of the workspace's dependency graph has this name.
    PackageNotFound { name: String },
    /// The sources of this package are neither on disk beside its manifest nor
    /// in cargo's registry.
    SourceNotFound { name: String, version: String },
    /// No directory from the current one up to the root holds a `Cargo.toml`.
    ManifestNotFound,
    /// A patch file's stem cannot be read as text.
    PatchFileWithoutName,
}

/// The text that reports an error.
pub open spec fn message_of(e: PatchError) -> Seq<char> {
    match e {
        PatchError::PackageNotFound { name } => "Package '"@ + name@
            + "' not found in dependencies"@,
        PatchError::SourceNotFound { name, version } => "Could not find source for package "@
            + name@ + " version "@ + version@ + ". Try running 'cargo build' first."@,
        PatchError::ManifestNotFound =>
            "Could not find Cargo.toml in current directory or any parent directory"@,
        PatchError::PatchFileWithoutName => "Patch file does not have a name"@,
    }
}

impl PatchError {
    /// The text that reports this error.
    pub fn message(&self) -> (r: String)
        ensures
            r@ == message_of(*self),
    {
        match self {
            PatchError::PackageNotFound { name } => {
                let mut r = String::from_str("Package '");
                r.append(name.as_str());
                r.append("' not found in dependencies");
                r
            },
            PatchError::SourceNotFound { name, version } => {
                let mut r = String::from_str("Could not find source for package ");
                r.append(name.as_str());
                r.append(" version ");
                r.append(version.as_str());
                r.append(". Try running 'cargo build' first.");
                r
            },
            PatchError::ManifestNotFound => String::from_str(
                "Could not find Cargo.toml in current directory or any parent directory",
            ),
            PatchError::PatchFileWithoutName => String::from_str(
                "Patch file does not have a name",
            ),
        }
    }
}

} // verus!
