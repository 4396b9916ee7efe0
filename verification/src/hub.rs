//! The remote registry protocol: the master index grammar (a JSON object
//! mapping dependency id to a record of filename, description, author and
//! SHA-256 digest), the URLs the fetcher requests, and the acceptance rule
//! for downloaded bytes.  A download is admitted to the cache index exactly
//! when its SHA-256 digest, in lower-case hexadecimal, equals the digest
//! the registry advertises; on a mismatch the index is left untouched.

use vstd::prelude::*;
use crate::error::SphereError;
use crate::hash::{hex_of, sha256_of, sha256_hex};
use crate::index::CacheIndex;
use crate::jsontext::{parse_flat_obj, lemma_flat_obj_consumes};
use crate::manifest::{find_val, find_pair};
use crate::scan::{scan_string, scan_string_at, skip_spaces, lemma_scan_string_len, lemma_trim_start_len};
use crate::text::{pair_views, str_eq, trim_start_spec};
use vstd::string::StringExecFns;

verus! {

/// Parses `"key" : { flat object }` at the head of `s`; yields the key,
/// the inner pairs, and what remains after the inner closing brace.
pub open spec fn parse_obj_pair(s: Seq<char>) -> Option<
    ((Seq<char>, Seq<(Seq<char>, Seq<char>)>), Seq<char>),
> {
    let t = trim_start_spec(s);
    if t.len() == 0 || t[0] != '"' {
        None
    } else {
        match scan_string(t.drop_first()) {
            None => None,
            Some(p) => {
                let t2 = trim_start_spec(t.skip(1 + p.1));
                if t2.len() == 0 || t2[0] != ':' {
                    None
                } else {
                    match parse_flat_obj(t2.drop_first()) {
                        None => None,
                        Some(o) => Some(((p.0, o.0), o.1)),
                    }
                }
            },
        }
    }
}

pub proof fn lemma_obj_pair_consumes(s: Seq<char>)
    ensures
        parse_obj_pair(s) matches Some(pr) ==> pr.1.len() < s.len(),
{
    lemma_trim_start_len(s);
    let t = trim_start_spec(s);
    if t.len() > 0 && t[0] == '"' {
        lemma_scan_string_len(t.drop_first());
        let po = scan_string(t.drop_first());
        if po is Some {
            let p = po->Some_0;
            lemma_trim_start_len(t.skip(1 + p.1));
            let t2 = trim_start_spec(t.skip(1 + p.1));
            if t2.len() > 0 && t2[0] == ':' {
                lemma_flat_obj_consumes(t2.drop_first());
            }
        }
    }
}

/// Parses the members of the registry object, positioned right after the
/// opening brace (`first`) or right after a member (`!first`).
pub open spec fn parse_reg_members(s: Seq<char>, first: bool) -> Option<
    (Seq<(Seq<char>, Seq<(Seq<char>, Seq<char>)>)>, Seq<char>),
>
    decreases s.len(),
    via parse_reg_members_dec
{
    let t = trim_start_spec(s);
    if t.len() == 0 {
        None
    } else if t[0] == '}' {
        Some((Seq::empty(), t.drop_first()))
    } else if first {
        match parse_obj_pair(s) {
            None => None,
            Some(pr) => match parse_reg_members(pr.1, false) {
                None => None,
                Some(mr) => Some((seq![pr.0] + mr.0, mr.1)),
            },
        }
    } else if t[0] == ',' {
        match parse_obj_pair(t.drop_first()) {
            None => None,
            Some(pr) => match parse_reg_members(pr.1, false) {
                None => None,
                Some(mr) => Some((seq![pr.0] + mr.0, mr.1)),
            },
        }
    } else {
        None
    }
}

#[via_fn]
proof fn parse_reg_members_dec(s: Seq<char>, first: bool) {
    lemma_trim_start_len(s);
    lemma_obj_pair_consumes(s);
    let t = trim_start_spec(s);
    if t.len() > 0 {
        lemma_obj_pair_consumes(t.drop_first());
    }
}

/// The raw registry entries of a master index text: each dependency id with
/// its record's fields, or nothing when the text is not one registry object.
pub open spec fn registry_text_spec(text: Seq<char>) -> Option<
    Seq<(Seq<char>, Seq<(Seq<char>, Seq<char>)>)>,
> {
    let t = trim_start_spec(text);
    if t.len() == 0 || t[0] != '{' {
        None
    } else {
        match parse_reg_members(t.drop_first(), true) {
            None => None,
            Some(p) => if trim_start_spec(p.1).len() == 0 {
                Some(p.0)
            } else {
                None
            },
        }
    }
}

/// One registry record.
#[derive(Debug, Clone)]
pub struct HubEntry {
    /// The filename under which the registry serves the manifest.
    pub filename: String,
    /// A one-line description.
    pub description: String,
    /// The author name.
    pub author: String,
    /// The lower-case hexadecimal SHA-256 digest of the manifest bytes.
    pub hash_sha256: String,
}

/// The abstract content of a registry record.
pub struct HubEntryModel {
    pub filename: Seq<char>,
    pub description: Seq<char>,
    pub author: Seq<char>,
    pub hash_sha256: Seq<char>,
}

impl View for HubEntry {
    type V = HubEntryModel;

    open spec fn view(&self) -> HubEntryModel {
        HubEntryModel {
            filename: self.filename@,
            description: self.description@,
            author: self.author@,
            hash_sha256: self.hash_sha256@,
        }
    }
}

/// The record a field list denotes, when all four required fields are
/// present; the first binding of a field wins.
pub open spec fn entry_of_pairs(ps: Seq<(Seq<char>, Seq<char>)>) -> Option<HubEntryModel> {
    if find_val(ps, "filename"@) is Some && find_val(ps, "description"@) is Some && find_val(
        ps,
        "author"@,
    ) is Some && find_val(ps, "hash_sha256"@) is Some {
        Some(
            HubEntryModel {
                filename: find_val(ps, "filename"@)->Some_0,
                description: find_val(ps, "description"@)->Some_0,
                author: find_val(ps, "author"@)->Some_0,
                hash_sha256: find_val(ps, "hash_sha256"@)->Some_0,
            },
        )
    } else {
        None
    }
}

/// The records of the raw entries, or nothing if any record is missing a
/// required field.
pub open spec fn models_of(es: Seq<(Seq<char>, Seq<(Seq<char>, Seq<char>)>)>) -> Option<
    Seq<(Seq<char>, HubEntryModel)>,
>
    decreases es.len(),
{
    if es.len() == 0 {
        Some(Seq::empty())
    } else {
        match entry_of_pairs(es[0].1) {
            None => None,
            Some(m) => match models_of(es.drop_first()) {
                None => None,
                Some(t) => Some(seq![(es[0].0, m)] + t),
            },
        }
    }
}

/// The meaning of a registry master index text.
pub open spec fn registry_spec(text: Seq<char>) -> Option<Seq<(Seq<char>, HubEntryModel)>> {
    match registry_text_spec(text) {
        None => None,
        Some(es) => models_of(es),
    }
}

/// The views of parsed registry entries.
pub open spec fn reg_views(s: Seq<(String, HubEntry)>) -> Seq<(Seq<char>, HubEntryModel)> {
    s.map_values(|p: (String, HubEntry)| (p.0@, p.1@))
}

/// Executable twin of `parse_obj_pair`, at position `from` of `v`.
fn parse_obj_pair_at(v: &Vec<char>, from: usize) -> (r: Option<
    ((String, Vec<(String, String)>), usize),
>)
    requires
        from <= v@.len(),
    ensures
        match r {
            Some(p) => {
                &&& from < p.1 <= v@.len()
                &&& parse_obj_pair(v@.skip(from as int)) == Some(
                    (((p.0).0@, pair_views((p.0).1@)), v@.skip(p.1 as int)),
                )
            },
            None => parse_obj_pair(v@.skip(from as int)) is None,
        },
{
    proof {
        lemma_obj_pair_consumes(v@.skip(from as int));
    }
    let j0 = skip_spaces(v, from);
    if j0 == v.len() {
        return None;
    }
    proof {
        assert(v@.skip(j0 as int)[0] == v@[j0 as int]);
    }
    if v[j0] != '"' {
        return None;
    }
    proof {
        assert(v@.skip(j0 as int).drop_first() =~= v@.skip(j0 as int + 1));
    }
    let key = match scan_string_at(v, j0 + 1) {
        None => {
            return None;
        },
        Some(p) => p,
    };
    proof {
        let t = v@.skip(j0 as int);
        let p = scan_string(t.drop_first());
        assert(t.skip(1 + p->Some_0.1) =~= v@.skip(key.1 as int));
    }
    let j1 = skip_spaces(v, key.1);
    if j1 == v.len() {
        return None;
    }
    proof {
        assert(v@.skip(j1 as int)[0] == v@[j1 as int]);
    }
    if v[j1] != ':' {
        return None;
    }
    proof {
        assert(v@.skip(j1 as int).drop_first() =~= v@.skip(j1 as int + 1));
    }
    let j2 = skip_spaces(v, j1 + 1);
    if j2 == v.len() {
        return None;
    }
    proof {
        assert(v@.skip(j2 as int)[0] == v@[j2 as int]);
        assert(trim_start_spec(v@.skip(j1 as int + 1)) == v@.skip(j2 as int));
    }
    if v[j2] != '{' {
        return None;
    }
    proof {
        assert(v@.skip(j2 as int).drop_first() =~= v@.skip(j2 as int + 1));
    }
    match crate::jsontext::parse_members_at(v, j2 + 1, true) {
        None => None,
        Some((pairs, end)) => Some(((key.0, pairs), end)),
    }
}

/// Executable twin of `parse_reg_members`, at position `from` of `v`.
fn parse_reg_members_at(v: &Vec<char>, from: usize, first: bool) -> (r: Option<
    (Vec<(String, Vec<(String, String)>)>, usize),
>)
    requires
        from <= v@.len(),
    ensures
        match r {
            Some(p) => {
                &&& from < p.1 <= v@.len()
                &&& parse_reg_members(v@.skip(from as int), first) == Some(
                    (raw_views(p.0@), v@.skip(p.1 as int)),
                )
            },
            None => parse_reg_members(v@.skip(from as int), first) is None,
        },
    decreases v@.len() - from,
{
    let j0 = skip_spaces(v, from);
    if j0 == v.len() {
        return None;
    }
    proof {
        assert(v@.skip(j0 as int)[0] == v@[j0 as int]);
    }
    let c = v[j0];
    if c == '}' {
        proof {
            assert(v@.skip(j0 as int).drop_first() =~= v@.skip(j0 as int + 1));
        }
        let out: Vec<(String, Vec<(String, String)>)> = Vec::new();
        proof {
            assert(raw_views(out@) =~= Seq::<
                (Seq<char>, Seq<(Seq<char>, Seq<char>)>),
            >::empty());
        }
        return Some((out, j0 + 1));
    }
    let pstart: usize;
    if first {
        pstart = from;
    } else {
        if c != ',' {
            return None;
        }
        proof {
            assert(v@.skip(j0 as int).drop_first() =~= v@.skip(j0 as int + 1));
        }
        pstart = j0 + 1;
    }
    let pr = match parse_obj_pair_at(v, pstart) {
        None => {
            return None;
        },
        Some(pr) => pr,
    };
    let mr = match parse_reg_members_at(v, pr.1, false) {
        None => {
            return None;
        },
        Some(mr) => mr,
    };
    let ((k, fields), _) = pr;
    let ghost kv = (k@, pair_views(fields@));
    let mut out = mr.0;
    out.insert(0, (k, fields));
    proof {
        assert(out@.drop_first() =~= mr.0@);
        assert(raw_views(out@) =~= seq![kv] + raw_views(mr.0@));
    }
    Some((out, mr.1))
}

/// The views of raw parsed registry entries.
pub open spec fn raw_views(s: Seq<(String, Vec<(String, String)>)>) -> Seq<
    (Seq<char>, Seq<(Seq<char>, Seq<char>)>),
> {
    s.map_values(|p: (String, Vec<(String, String)>)| (p.0@, pair_views(p.1@)))
}

/// Parses a registry master index text into its records.  The text must be
/// one JSON object whose values each carry the four required string fields;
/// anything else is the registry-format error naming the requested URL.
pub fn parse_registry(text: &str, url: &str) -> (r: Result<Vec<(String, HubEntry)>, SphereError>)
    ensures
        match registry_spec(text@) {
            Some(es) => r matches Ok(out) && reg_views(out@) == es,
            None => r matches Err(SphereError::RegistryFormat { url: u }) && u@ == url@,
        },
{
    let v = crate::text::chars_of(text);
    proof {
        assert(v@.skip(0) =~= v@);
    }
    let j0 = skip_spaces(&v, 0);
    if j0 == v.len() {
        return Err(SphereError::RegistryFormat { url: String::from_str(url) });
    }
    proof {
        assert(v@.skip(j0 as int)[0] == v@[j0 as int]);
    }
    if v[j0] != '{' {
        return Err(SphereError::RegistryFormat { url: String::from_str(url) });
    }
    proof {
        assert(v@.skip(j0 as int).drop_first() =~= v@.skip(j0 as int + 1));
    }
    let raw = match parse_reg_members_at(&v, j0 + 1, true) {
        None => {
            return Err(SphereError::RegistryFormat { url: String::from_str(url) });
        },
        Some(p) => p,
    };
    let j1 = skip_spaces(&v, raw.1);
    if j1 != v.len() {
        proof {
            assert(trim_start_spec(v@.skip(raw.1 as int)).len() > 0);
        }
        return Err(SphereError::RegistryFormat { url: String::from_str(url) });
    }
    let entries = raw.0;
    let ghost rawv = raw_views(entries@);
    let mut out: Vec<(String, HubEntry)> = Vec::new();
    let mut i: usize = 0;
    proof {
        assert(rawv.skip(0) =~= rawv);
        assert(reg_views(out@) =~= Seq::<(Seq<char>, HubEntryModel)>::empty());
        assert(registry_text_spec(text@) == Some(rawv));
    }
    while i < entries.len()
        invariant
            i <= entries@.len(),
            rawv == raw_views(entries@),
            rawv.len() == entries@.len(),
            registry_spec(text@) == models_of(rawv),
            models_of(rawv) == match models_of(rawv.skip(i as int)) {
                None => None::<Seq<(Seq<char>, HubEntryModel)>>,
                Some(t) => Some(reg_views(out@) + t),
            },
        decreases entries@.len() - i,
    {
        proof {
            assert(rawv.skip(i as int)[0] == rawv[i as int]);
            assert(rawv.skip(i as int).drop_first() =~= rawv.skip(i as int + 1));
        }
        let fields = &entries[i].1;
        let filename = match find_pair(fields, "filename") {
            None => {
                return Err(SphereError::RegistryFormat { url: String::from_str(url) });
            },
            Some(s) => s.clone(),
        };
        let description = match find_pair(fields, "description") {
            None => {
                return Err(SphereError::RegistryFormat { url: String::from_str(url) });
            },
            Some(s) => s.clone(),
        };
        let author = match find_pair(fields, "author") {
            None => {
                return Err(SphereError::RegistryFormat { url: String::from_str(url) });
            },
            Some(s) => s.clone(),
        };
        let hash_sha256 = match find_pair(fields, "hash_sha256") {
            None => {
                return Err(SphereError::RegistryFormat { url: String::from_str(url) });
            },
            Some(s) => s.clone(),
        };
        let entry = HubEntry { filename, description, author, hash_sha256 };
        let id = entries[i].0.clone();
        let ghost r0 = reg_views(out@);
        let ghost em = entry@;
        out.push((id, entry));
        proof {
            assert(reg_views(out@) =~= r0.push((out@[out@.len() - 1].0@, out@[out@.len() - 1].1@)));
            assert(entry_of_pairs(rawv[i as int].1) == Some(em));
            let t1 = models_of(rawv.skip(i as int + 1));
            if t1 is Some {
                assert(reg_views(out@) + t1->Some_0 =~= r0 + (seq![(rawv[i as int].0, em)]
                    + t1->Some_0));
            }
        }
        i = i + 1;
    }
    proof {
        assert(rawv.skip(i as int).len() == 0);
        assert(rawv.skip(i as int) =~= Seq::<(Seq<char>, Seq<(Seq<char>, Seq<char>)>)>::empty());
        assert(models_of(rawv.skip(i as int)) == Some(Seq::<(Seq<char>, HubEntryModel)>::empty()));
        assert(reg_views(out@) + Seq::<(Seq<char>, HubEntryModel)>::empty() =~= reg_views(out@));
    }
    Ok(out)
}

/// The first registry record bound to `id`.
pub open spec fn reg_find(es: Seq<(Seq<char>, HubEntryModel)>, id: Seq<char>) -> Option<
    HubEntryModel,
>
    decreases es.len(),
{
    if es.len() == 0 {
        None
    } else if es[0].0 == id {
        Some(es[0].1)
    } else {
        reg_find(es.drop_first(), id)
    }
}

/// Looks `id` up among parsed registry records; an id the registry does not
/// carry is the dependency-not-found error naming the id and its alias.
pub fn registry_find(entries: &Vec<(String, HubEntry)>, id: &str, alias: &str) -> (r: Result<
    HubEntry,
    SphereError,
>)
    ensures
        match reg_find(reg_views(entries@), id@) {
            Some(m) => r matches Ok(e) && e@ == m,
            None => r matches Err(SphereError::DependencyNotFound { id: i2, alias: a2 }) && i2@
                == id@ && a2@ == alias@,
        },
{
    let ghost whole = reg_views(entries@);
    let mut i: usize = 0;
    proof {
        assert(whole.skip(0) =~= whole);
    }
    while i < entries.len()
        invariant
            i <= entries@.len(),
            whole == reg_views(entries@),
            whole.len() == entries@.len(),
            reg_find(whole, id@) == reg_find(whole.skip(i as int), id@),
        decreases entries@.len() - i,
    {
        proof {
            assert(whole.skip(i as int)[0] == whole[i as int]);
            assert(whole.skip(i as int).drop_first() =~= whole.skip(i as int + 1));
        }
        if str_eq(entries[i].0.as_str(), id) {
            let e = &entries[i].1;
            return Ok(
                HubEntry {
                    filename: e.filename.clone(),
                    description: e.description.clone(),
                    author: e.author.clone(),
                    hash_sha256: e.hash_sha256.clone(),
                },
            );
        }
        i = i + 1;
    }
    proof {
        assert(whole.skip(i as int).len() == 0);
    }
    Err(
        SphereError::DependencyNotFound {
            id: String::from_str(id),
            alias: String::from_str(alias),
        },
    )
}

/// Admits downloaded bytes into the cache index, or rejects them: the index
/// gains `id -> filename` exactly when the SHA-256 digest of the bytes, in
/// lower-case hexadecimal, equals the digest the registry advertised; on a
/// mismatch the index is unchanged and the error reports both digests.
pub fn accept_download(
    index: &mut CacheIndex,
    id: &str,
    entry: &HubEntry,
    bytes: &Vec<u8>,
) -> (r: Result<(), SphereError>)
    requires
        old(index).wf(),
    ensures
        final(index).wf(),
        r is Ok <==> hex_of(sha256_of(bytes@)) == entry.hash_sha256@,
        r is Ok ==> final(index)@ == old(index)@.insert(id@, entry.filename@),
        r is Err ==> final(index)@ == old(index)@ && final(index).entries() == old(
            index,
        ).entries() && (r matches Err(SphereError::IntegrityMismatch { expected, computed })
            && expected@ == entry.hash_sha256@ && computed@ == hex_of(sha256_of(bytes@))),
{
    let computed = sha256_hex(bytes);
    if str_eq(computed.as_str(), entry.hash_sha256.as_str()) {
        index.set(id, entry.filename.as_str());
        Ok(())
    } else {
        Err(
            SphereError::IntegrityMismatch { expected: entry.hash_sha256.clone(), computed },
        )
    }
}

/// The URL of the registry's master index below a registry base URL.
pub open spec fn registry_index_url_spec(base: Seq<char>) -> Seq<char> {
    base + "index.json"@
}

/// Builds the master index URL for a registry base.
pub fn registry_index_url(base: &str) -> (r: String)
    ensures
        r@ == registry_index_url_spec(base@),
{
    let mut r = String::from_str(base);
    r.append("index.json");
    r
}

/// The URL a manifest file is served at below a registry base URL.
pub open spec fn sphere_file_url_spec(base: Seq<char>, filename: Seq<char>) -> Seq<char> {
    base + "spheres/"@ + filename
}

/// Builds the manifest file URL for a registry base and filename.
pub fn sphere_file_url(base: &str, filename: &str) -> (r: String)
    ensures
        r@ == sphere_file_url_spec(base@, filename@),
{
    let mut r = String::from_str(base);
    r.append("spheres/");
    r.append(filename);
    r
}

/// The default registry base URL.
pub fn default_registry_base() -> (r: String)
    ensures
        r@ == "https://raw.githubusercontent.com/Nakadra/sphere-hub-registry/main/registry/"@,
{
    String::from_str("https://raw.githubusercontent.com/Nakadra/sphere-hub-registry/main/registry/")
}

} // verus!
