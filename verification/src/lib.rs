//! A verified core for a manifest-driven command runner.
//!
//! A *manifest* names an entrypoint command and a flat map of dependency
//! aliases to dependency ids.  Running a manifest resolves every dependency
//! to a concrete manifest (through a local cache index, falling back to a
//! remote registry with integrity verification), materializes one shim
//! script per dependency in an ephemeral sandbox, and executes the
//! entrypoint with the sandbox's `bin` directory prepended to the search
//! path.  This crate holds the verified logic of that pipeline: the manifest
//! and index grammars, the cache index semantics, the fetch acceptance
//! rules, and the construction of shims and environment strings.  All
//! input and output (files, network, processes) stays with the caller.

pub mod error;
pub mod hash;
pub mod hub;
pub mod index;
pub mod jsontext;
pub mod manifest;
pub mod names;
pub mod resolver;
pub mod scan;
pub mod text;

use vstd::prelude::*;
use vstd::string::StringExecFns;

verus! {

/// The script a sandbox shim holds for a dependency entrypoint: a shell
/// shebang line followed by the entrypoint command line.
pub open spec fn shim_script_spec(entrypoint: Seq<char>) -> Seq<char> {
    "#!/bin/sh\n"@ + entrypoint + "\n"@
}

/// Builds the contents of an executable shim for one resolved dependency.
pub fn shim_script(entrypoint: &str) -> (r: String)
    ensures
        r@ == shim_script_spec(entrypoint@),
{
    let mut s = String::from_str("#!/bin/sh\n");
    s.append(entrypoint);
    s.append("\n");
    s
}

/// The search path under which the entrypoint runs: the sandbox `bin`
/// directory prepended to the original path, so aliases shadow same-named
/// system binaries.
pub open spec fn sandbox_path_spec(bin_dir: Seq<char>, original: Seq<char>) -> Seq<char> {
    bin_dir + ":"@ + original
}

/// Builds the augmented search path for the sandboxed entrypoint.
pub fn sandbox_path_env(bin_dir: &str, original: &str) -> (r: String)
    ensures
        r@ == sandbox_path_spec(bin_dir@, original@),
{
    let mut s = String::from_str(bin_dir);
    s.append(":");
    s.append(original);
    s
}

/// What running the entrypoint produced: its captured output streams and
/// its exit status, `None` when the process ended without one.
pub struct ExecutionResult {
    pub stdout: Vec<u8>,
    pub stderr: Vec<u8>,
    pub status: Option<i32>,
}

impl ExecutionResult {
    /// Whether the entrypoint exited successfully.
    pub fn success(&self) -> (r: bool)
        ensures
            r == (self.status == Some(0i32)),
    {
        match self.status {
            Some(c) => c == 0,
            None => false,
        }
    }
}

} // verus!
