//! The error taxonomy of the pipeline.  Every failure is terminal for the
//! current invocation and carries the context needed to diagnose it (file
//! path, dependency id and alias, expected versus computed digest) as
//! structured fields, so that a presentation layer can switch on the
//! variant instead of inspecting message text.

use vstd::prelude::*;

verus! {

/// One error for the whole pipeline.
#[derive(Debug, Clone, PartialEq, Eq)]
pub enum SphereError {
    /// The manifest text is structurally invalid; `line` is the first
    /// offending line, counted from one.
    Parse { line: usize },
    /// A required manifest field is absent or empty.
    MissingField { field: String },
    /// The cache index file exists but does not hold a valid index object.
    IndexParse { path: String },
    /// Reading or writing the cache failed at `path`.
    CacheIo { path: String },
    /// Neither the local index nor the registry can supply the dependency.
    DependencyNotFound { id: String, alias: String },
    /// A registry request failed at the HTTP level.
    Network { url: String },
    /// The registry answered, but not with a well-formed registry index.
    RegistryFormat { url: String },
    /// A downloaded dependency does not match its advertised digest.
    IntegrityMismatch { expected: String, computed: String },
    /// Launching or waiting on the entrypoint process failed.
    Execution { detail: String },
    /// A cache id handed to an administration command is empty.
    EmptyId,
    /// The id is already present in the cache index.
    DuplicateId { id: String },
    /// The id is not present in the cache index.
    IdNotFound { id: String },
    /// No cache filename can be derived from the id.
    UnusableId,
}

} // verus!
