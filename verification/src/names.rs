//! Deriving filesystem-safe names from dependency ids, and the publish-side
//! validation of a manifest's id.  A cache filename is the id with every
//! character outside letters, digits, `.` and `-` replaced by `_`, given a
//! `.sphere` suffix; when that alone would be the bare suffix, a name is
//! synthesized from the id's alphanumeric characters, and an id without any
//! yields no usable name at all.

use vstd::prelude::*;
use crate::error::SphereError;
use crate::manifest::Manifest;
use crate::text::{chars_of, push_char, string_of, trim_spec, trim_str};
use vstd::string::{StringExecFns, StrSliceExecFns};

verus! {

/// An ASCII letter or digit.
pub open spec fn is_alnum(c: char) -> bool {
    (97 <= c as u32 && c as u32 <= 122) || (65 <= c as u32 && c as u32 <= 90) || (48 <= c as u32
        && c as u32 <= 57)
}

/// Executable twin of `is_alnum`.
pub fn alnum_char(c: char) -> (r: bool)
    ensures
        r == is_alnum(c),
{
    let u = c as u32;
    (97 <= u && u <= 122) || (65 <= u && u <= 90) || (48 <= u && u <= 57)
}

/// The filesystem-safe stand-in for one id character.
pub open spec fn sanitize_char(c: char) -> char {
    if is_alnum(c) || c == '.' || c == '-' {
        c
    } else {
        '_'
    }
}

/// The id with every unsafe character replaced.
pub open spec fn sanitized(id: Seq<char>) -> Seq<char> {
    id.map_values(|c: char| sanitize_char(c))
}

/// Whether a name already carries the manifest file suffix.
pub open spec fn ends_with_suffix(s: Seq<char>) -> bool {
    s.len() >= 7 && s.subrange(s.len() - 7, s.len() as int) == ".sphere"@
}

/// The id's alphanumeric characters, in order.
pub open spec fn alnum_only(id: Seq<char>) -> Seq<char> {
    id.filter(|c: char| is_alnum(c))
}

/// The cache filename derived from an id, when one exists.
pub open spec fn derived_filename_spec(id: Seq<char>) -> Option<Seq<char>> {
    let s = sanitized(id);
    let s2 = if ends_with_suffix(s) {
        s
    } else {
        s + ".sphere"@
    };
    if s2 == ".sphere"@ {
        if alnum_only(id).len() == 0 {
            None
        } else {
            Some("sphere_"@ + alnum_only(id) + ".sphere"@)
        }
    } else {
        Some(s2)
    }
}

/// Tests whether the characters of `v` end with `.sphere`.
fn ends_with_sphere(v: &Vec<char>) -> (r: bool)
    ensures
        r == ends_with_suffix(v@),
{
    proof {
        reveal_strlit(".sphere");
    }
    let n = v.len();
    if n < 7 {
        return false;
    }
    let r = v[n - 7] == '.' && v[n - 6] == 's' && v[n - 5] == 'p' && v[n - 4] == 'h' && v[n - 3]
        == 'e' && v[n - 2] == 'r' && v[n - 1] == 'e';
    proof {
        if r {
            assert(v@.subrange(n - 7, n as int) =~= ".sphere"@);
        } else {
            assert(v@.subrange(n - 7, n as int) != ".sphere"@) by {
                if v@.subrange(n - 7, n as int) == ".sphere"@ {
                    assert(v@.subrange(n - 7, n as int)[0] == '.');
                    assert(v@.subrange(n - 7, n as int)[1] == 's');
                    assert(v@.subrange(n - 7, n as int)[2] == 'p');
                    assert(v@.subrange(n - 7, n as int)[3] == 'h');
                    assert(v@.subrange(n - 7, n as int)[4] == 'e');
                    assert(v@.subrange(n - 7, n as int)[5] == 'r');
                    assert(v@.subrange(n - 7, n as int)[6] == 'e');
                }
            }
        }
    }
    r
}

/// The id's alphanumeric characters, as a vector.
fn alnum_chars(v: &Vec<char>) -> (r: Vec<char>)
    ensures
        r@ == alnum_only(v@),
{
    let mut r: Vec<char> = Vec::new();
    let mut i: usize = 0;
    proof {
        assert(v@.take(0) =~= Seq::<char>::empty());
        assert(v@.take(0).filter(|c: char| is_alnum(c)) =~= Seq::<char>::empty());
    }
    while i < v.len()
        invariant
            i <= v@.len(),
            r@ == v@.take(i as int).filter(|c: char| is_alnum(c)),
        decreases v@.len() - i,
    {
        let c = v[i];
        proof {
            assert(v@.take(i as int + 1).drop_last() =~= v@.take(i as int));
            assert(v@.take(i as int + 1).last() == c);
            reveal(Seq::filter);
        }
        if alnum_char(c) {
            r.push(c);
        }
        i = i + 1;
    }
    proof {
        assert(v@.take(v@.len() as int) =~= v@);
    }
    r
}

/// Derives the cache filename for an id; an id without alphanumeric
/// characters has none.
pub fn derive_cache_filename(id: &str) -> (r: Result<String, SphereError>)
    ensures
        match derived_filename_spec(id@) {
            Some(name) => r matches Ok(f) && f@ == name,
            None => r matches Err(SphereError::UnusableId),
        },
{
    let v = chars_of(id);
    let mut s: Vec<char> = Vec::new();
    let mut i: usize = 0;
    proof {
        assert(v@.take(0) =~= Seq::<char>::empty());
        assert(s@ =~= v@.take(0).map_values(|c: char| sanitize_char(c)));
    }
    while i < v.len()
        invariant
            i <= v@.len(),
            s@ == v@.take(i as int).map_values(|c: char| sanitize_char(c)),
        decreases v@.len() - i,
    {
        let c = v[i];
        if alnum_char(c) || c == '.' || c == '-' {
            s.push(c);
        } else {
            s.push('_');
        }
        proof {
            assert(s@ =~= v@.take(i as int + 1).map_values(|c: char| sanitize_char(c)));
        }
        i = i + 1;
    }
    proof {
        assert(v@.take(v@.len() as int) =~= v@);
        assert(s@ == sanitized(id@));
    }
    let mut s2 = s;
    if !ends_with_sphere(&s2) {
        let suffix = chars_of(".sphere");
        let ghost s0 = s2@;
        let mut j: usize = 0;
        while j < suffix.len()
            invariant
                j <= suffix@.len(),
                s2@ == s0 + suffix@.subrange(0, j as int),
            decreases suffix@.len() - j,
        {
            s2.push(suffix[j]);
            j = j + 1;
            proof {
                assert(s2@ =~= s0 + suffix@.subrange(0, j as int));
            }
        }
        proof {
            assert(suffix@.subrange(0, suffix@.len() as int) =~= suffix@);
            assert(s2@ =~= s0 + ".sphere"@);
            reveal_strlit(".sphere");
            assert(s2@.subrange(s2@.len() - 7, s2@.len() as int) =~= ".sphere"@);
        }
    }
    proof {
        assert(ends_with_suffix(s2@));
        reveal_strlit(".sphere");
    }
    if s2.len() == 7 {
        proof {
            assert(s2@ =~= ".sphere"@) by {
                assert(s2@.subrange(0, 7) =~= s2@);
            }
        }
        let f = alnum_chars(&v);
        if f.len() == 0 {
            proof {
                assert(alnum_only(id@).len() == 0);
            }
            return Err(SphereError::UnusableId);
        }
        let mut out = String::from_str("sphere_");
        let fs = string_of(&f);
        out.append(fs.as_str());
        out.append(".sphere");
        return Ok(out);
    }
    proof {
        assert(s2@ != ".sphere"@) by {
            if s2@ == ".sphere"@ {
                assert(s2@.len() == 7);
            }
        }
    }
    Ok(string_of(&s2))
}

/// The id under which a manifest can be published: its `id` field, trimmed,
/// which must be present and non-empty; otherwise the missing-field error
/// names `id`.
pub fn publish_id(m: &Manifest) -> (r: Result<String, SphereError>)
    ensures
        match m@.id {
            Some(s) => if trim_spec(s).len() > 0 {
                r matches Ok(t) && t@ == trim_spec(s)
            } else {
                r matches Err(SphereError::MissingField { field }) && field@ == "id"@
            },
            None => r matches Err(SphereError::MissingField { field }) && field@ == "id"@,
        },
{
    match &m.id {
        None => Err(SphereError::MissingField { field: String::from_str("id") }),
        Some(s) => {
            let t = trim_str(s.as_str());
            if t.as_str().unicode_len() == 0 {
                Err(SphereError::MissingField { field: String::from_str("id") })
            } else {
                Ok(t)
            }
        },
    }
}

/// The alphanumeric characters among the first fifteen of an id, the suffix
/// of the suggested publication branch name.
pub open spec fn branch_suffix_spec(id: Seq<char>) -> Seq<char> {
    let head = if id.len() <= 15 {
        id
    } else {
        id.take(15)
    };
    head.filter(|c: char| is_alnum(c))
}

/// Builds the branch name suffix for an id.
pub fn branch_suffix(id: &str) -> (r: String)
    ensures
        r@ == branch_suffix_spec(id@),
{
    let v = chars_of(id);
    let n = if v.len() <= 15 {
        v.len()
    } else {
        15
    };
    let head = crate::text::slice_chars(&v, 0, n);
    proof {
        if v@.len() <= 15 {
            assert(head@ =~= v@);
        } else {
            assert(head@ =~= v@.take(15));
        }
    }
    let f = alnum_chars(&head);
    string_of(&f)
}

} // verus!
