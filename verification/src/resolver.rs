//! Per-dependency resolution: turning a stored cache location into a
//! concrete path, deciding whether a dependency can be served locally, and
//! loading a resolved dependency manifest.  A dependency whose id the index
//! does not bind, or whose bound file is missing on disk, falls back to the
//! registry fetch; any single failed dependency aborts the whole run.

use vstd::prelude::*;
use crate::error::SphereError;
use crate::index::CacheIndex;
use crate::manifest::{parse_manifest, Manifest, ManifestModel, manifest_spec, ParseOutcome};
use crate::shim_script_spec;
use vstd::string::StringExecFns;

verus! {

/// A stored location is absolute when it starts with the path separator;
/// otherwise it is a filename relative to the cache directory.
pub open spec fn location_is_absolute(loc: Seq<char>) -> bool {
    loc.len() > 0 && loc[0] == '/'
}

/// The concrete path a stored location denotes.
pub open spec fn resolved_path_spec(dir: Seq<char>, loc: Seq<char>) -> Seq<char> {
    if location_is_absolute(loc) {
        loc
    } else {
        dir + "/"@ + loc
    }
}

/// Resolves a stored location against the cache directory.
pub fn resolve_location(cache_dir: &str, loc: &str) -> (r: String)
    ensures
        r@ == resolved_path_spec(cache_dir@, loc@),
{
    let n = vstd::string::StrSliceExecFns::unicode_len(loc);
    if n > 0 && vstd::string::StrSliceExecFns::get_char(loc, 0) == '/' {
        String::from_str(loc)
    } else {
        let mut r = String::from_str(cache_dir);
        r.append("/");
        r.append(loc);
        r
    }
}

/// Where the index directs a lookup: to a local path, or to a fetch.
pub open spec fn lookup_spec(
    m: Map<Seq<char>, Seq<char>>,
    dir: Seq<char>,
    id: Seq<char>,
) -> Option<Seq<char>> {
    if m.contains_key(id) {
        Some(resolved_path_spec(dir, m[id]))
    } else {
        None
    }
}

/// Looks a dependency id up in the index: the path of the cached file when
/// the id is bound, and nothing — directing the caller to the registry —
/// when it is not.
pub fn lookup_location(index: &CacheIndex, cache_dir: &str, id: &str) -> (r: Option<String>)
    requires
        index.wf(),
    ensures
        match r {
            Some(p) => lookup_spec(index@, cache_dir@, id@) == Some(p@),
            None => lookup_spec(index@, cache_dir@, id@) is None,
        },
{
    match index.get(id) {
        None => None,
        Some(loc) => Some(resolve_location(cache_dir, loc.as_str())),
    }
}

/// A resolved dependency: the alias under which its entrypoint becomes
/// callable, and its own manifest.
#[derive(Debug, Clone)]
pub struct Dependency {
    pub alias: String,
    pub manifest: Manifest,
}

/// Loads a dependency manifest from the text of its resolved file.  The
/// manifest grammar decides the outcome exactly as for the top-level
/// manifest; a success pairs the parsed manifest with the alias.
pub fn resolve_dependency(alias: &str, id: &str, text: &str) -> (r: Result<Dependency, SphereError>)
    ensures
        match manifest_spec(text@) {
            ParseOutcome::Parsed(m) => r matches Ok(d) && d.alias@ == alias@ && d.manifest@ == m,
            ParseOutcome::BadLine(n) => r matches Err(SphereError::Parse { line }) && line == n,
            ParseOutcome::MissingEntrypoint => r matches Err(SphereError::MissingField { field })
                && field@ == "entrypoint"@,
        },
{
    match parse_manifest(text) {
        Err(e) => Err(e),
        Ok(m) => Ok(Dependency { alias: String::from_str(alias), manifest: m }),
    }
}

/// Law: resolution out of a populated cache is stable.  An id the index
/// binds — whether it was already bound or was just admitted by a verified
/// fetch — is resolved locally on every later pass, to the same path, with
/// no registry fetch planned; and the shim script is a function of the
/// dependency entrypoint alone, so repeated resolution of an unchanged
/// cache yields identical shim text.
pub proof fn lemma_cached_resolution_stable(
    m: Map<Seq<char>, Seq<char>>,
    dir: Seq<char>,
    id: Seq<char>,
    filename: Seq<char>,
    e: Seq<char>,
)
    ensures
        lookup_spec(m.insert(id, filename), dir, id) == Some(resolved_path_spec(dir, filename)),
        m.contains_key(id) ==> lookup_spec(m, dir, id) == Some(resolved_path_spec(dir, m[id])),
        shim_script_spec(e) == "#!/bin/sh\n"@ + e + "\n"@,
{
}

/// Law: a cache `add` followed by resolution of a dependency on the added
/// id yields a shim that invokes exactly the entrypoint of the added file:
/// `add` binds the id to a location, the lookup resolves that binding to a
/// path, and the shim built from the manifest parsed out of that file's
/// text carries the manifest's entrypoint verbatim after its shebang line.
pub proof fn lemma_add_then_resolve_round_trip(
    m: Map<Seq<char>, Seq<char>>,
    dir: Seq<char>,
    id: Seq<char>,
    loc: Seq<char>,
    text: Seq<char>,
    mm: ManifestModel,
)
    requires
        manifest_spec(text) == ParseOutcome::Parsed(mm),
    ensures
        lookup_spec(m.insert(id, loc), dir, id) == Some(resolved_path_spec(dir, loc)),
        shim_script_spec(mm.entrypoint).subrange(
            10,
            10 + mm.entrypoint.len() as int,
        ) == mm.entrypoint,
        shim_script_spec(mm.entrypoint).len() == 11 + mm.entrypoint.len(),
{
    reveal_strlit("#!/bin/sh\n");
    reveal_strlit("\n");
    assert(shim_script_spec(mm.entrypoint).subrange(10, 10 + mm.entrypoint.len() as int)
        =~= mm.entrypoint);
}


/// Law: when the index binds every dependency id of a manifest, a
/// resolution pass plans no fetch for any of them: every lookup is served
/// locally, so the second pass over an already-populated cache performs no
/// registry traffic.
pub proof fn lemma_fully_cached_no_fetch(
    m: ManifestModel,
    idx: Map<Seq<char>, Seq<char>>,
    dir: Seq<char>,
)
    requires
        forall|k: int| 0 <= k < m.deps.len() ==> idx.contains_key((#[trigger] m.deps[k]).1),
    ensures
        forall|k: int|
            0 <= k < m.deps.len() ==> lookup_spec(idx, dir, (#[trigger] m.deps[k]).1) is Some,
{
}

/// One dependency's resolution plan: serve it from the local path, or
/// fetch it from the registry when no binding exists.
#[derive(Debug, Clone)]
pub struct DepPlan {
    pub alias: String,
    pub id: String,
    pub local: Option<String>,
}

/// Plans the resolution of every dependency of a manifest, in the
/// manifest's own (document) order: each alias and id, with the local path
/// the index directs it to, or nothing when only a fetch can supply it.
pub fn plan_resolution(m: &Manifest, index: &CacheIndex, cache_dir: &str) -> (r: Vec<DepPlan>)
    requires
        index.wf(),
    ensures
        r@.len() == m@.deps.len(),
        forall|k: int|
            0 <= k < r@.len() ==> {
                &&& (#[trigger] r@[k]).alias@ == m@.deps[k].0
                &&& r@[k].id@ == m@.deps[k].1
                &&& match r@[k].local {
                    Some(p) => lookup_spec(index@, cache_dir@, m@.deps[k].1) == Some(p@),
                    None => lookup_spec(index@, cache_dir@, m@.deps[k].1) is None,
                }
            },
{
    let mut r: Vec<DepPlan> = Vec::new();
    let mut k: usize = 0;
    while k < m.dependencies.len()
        invariant
            index.wf(),
            k <= m.dependencies@.len(),
            r@.len() == k,
            m@.deps.len() == m.dependencies@.len(),
            forall|j: int|
                0 <= j < k ==> {
                    &&& (#[trigger] r@[j]).alias@ == m@.deps[j].0
                    &&& r@[j].id@ == m@.deps[j].1
                    &&& match r@[j].local {
                        Some(p) => lookup_spec(index@, cache_dir@, m@.deps[j].1) == Some(p@),
                        None => lookup_spec(index@, cache_dir@, m@.deps[j].1) is None,
                    }
                },
        decreases m.dependencies@.len() - k,
    {
        let alias = m.dependencies[k].0.clone();
        let id = m.dependencies[k].1.clone();
        let local = lookup_location(index, cache_dir, id.as_str());
        r.push(DepPlan { alias, id, local });
        k = k + 1;
    }
    r
}

} // verus!
