//! The manifest grammar and loader.  A manifest is line-oriented text:
//! blank lines and `#` comments are ignored, `key = "value"` lines bind a
//! string to a bare or quoted key, and a `[dependencies]` section holds the
//! alias-to-id map.  Unknown sections are ignored.  The `entrypoint` key is
//! mandatory and must be non-empty; a manifest that lacks it fails with the
//! missing-field error, never with a generic parse error.

use vstd::prelude::*;
use crate::error::SphereError;
use crate::scan::{scan_string, scan_string_at, skip_spaces};
use crate::text::{
    chars_of, pair_views, slice_chars, string_of, str_eq, trim_chars, trim_spec,
    trim_start_spec,
};
use vstd::string::StringExecFns;

verus! {

/// The text split at line feeds; the result always has at least one line.
pub open spec fn split_lines_spec(s: Seq<char>) -> Seq<Seq<char>>
    decreases s.len(),
{
    if s.len() == 0 {
        seq![Seq::<char>::empty()]
    } else if s[0] == '\n' {
        seq![Seq::<char>::empty()] + split_lines_spec(s.drop_first())
    } else {
        let r = split_lines_spec(s.drop_first());
        seq![seq![s[0]] + r[0]] + r.skip(1)
    }
}

pub proof fn lemma_split_lines_nonempty(s: Seq<char>)
    ensures
        split_lines_spec(s).len() >= 1,
    decreases s.len(),
{
    if s.len() > 0 {
        lemma_split_lines_nonempty(s.drop_first());
    }
}

/// Splits the characters of a text into its lines.
pub fn split_lines(v: &Vec<char>) -> (r: Vec<Vec<char>>)
    ensures
        r.deep_view() == split_lines_spec(v@),
{
    let mut done: Vec<Vec<char>> = Vec::new();
    let mut cur: Vec<char> = Vec::new();
    let mut i: usize = 0;
    proof {
        assert(v@.skip(0) =~= v@);
        lemma_split_lines_nonempty(v@);
        let w = split_lines_spec(v@);
        assert(done.deep_view() + seq![cur@ + w[0]] + w.skip(1) =~= w) by {
            assert(cur@ + w[0] =~= w[0]);
        }
    }
    while i < v.len()
        invariant
            i <= v@.len(),
            split_lines_spec(v@) == done.deep_view() + seq![
                cur@ + split_lines_spec(v@.skip(i as int))[0],
            ] + split_lines_spec(v@.skip(i as int)).skip(1),
        decreases v@.len() - i,
    {
        let c = v[i];
        let ghost rest = v@.skip(i as int);
        let ghost rest1 = v@.skip(i as int + 1);
        proof {
            assert(rest[0] == c);
            assert(rest.drop_first() =~= rest1);
            lemma_split_lines_nonempty(rest1);
        }
        if c == '\n' {
            let ghost d0 = done.deep_view();
            let ghost cpre = cur@;
            done.push(cur);
            cur = Vec::new();
            proof {
                let r1 = split_lines_spec(rest1);
                assert(split_lines_spec(rest) == seq![Seq::<char>::empty()] + r1);
                assert((seq![Seq::<char>::empty()] + r1)[0] =~= Seq::<char>::empty());
                assert(cpre + Seq::<char>::empty() =~= cpre);
                assert((seq![Seq::<char>::empty()] + r1).skip(1) =~= r1);
                assert(done.deep_view() =~~= d0.push(cpre));
                assert(cur@ + r1[0] =~= r1[0]);
                assert(split_lines_spec(v@) =~= done.deep_view() + seq![cur@ + r1[0]] + r1.skip(1))
                    by {
                    assert(split_lines_spec(v@) == d0 + seq![cpre] + r1);
                    assert(r1 =~= seq![r1[0]] + r1.skip(1));
                    assert(d0 + seq![cpre] + r1 =~= d0.push(cpre) + seq![r1[0]] + r1.skip(1));
                }
            }
        } else {
            let ghost c0 = cur@;
            cur.push(c);
            proof {
                let r1 = split_lines_spec(rest1);
                assert(split_lines_spec(rest) == seq![seq![c] + r1[0]] + r1.skip(1));
                assert(cur@ + r1[0] =~= c0 + (seq![c] + r1[0]));
                assert(split_lines_spec(v@) =~= done.deep_view() + seq![cur@ + r1[0]] + r1.skip(1))
                    by {
                    assert((seq![seq![c] + r1[0]] + r1.skip(1))[0] == seq![c] + r1[0]);
                    assert((seq![seq![c] + r1[0]] + r1.skip(1)).skip(1) =~= r1.skip(1));
                }
            }
        }
        i = i + 1;
    }
    proof {
        let rest = v@.skip(i as int);
        assert(rest.len() == 0);
        assert(rest =~= Seq::<char>::empty());
        assert(split_lines_spec(rest) == seq![Seq::<char>::empty()]);
    }
    let ghost d0 = done.deep_view();
    let ghost cv = cur@;
    done.push(cur);
    proof {
        assert(done.deep_view() =~~= d0.push(cv));
        assert(split_lines_spec(v@) =~= done.deep_view()) by {
            let e = seq![Seq::<char>::empty()];
            assert(e[0] =~= Seq::<char>::empty());
            assert(cv + e[0] =~= cv);
            assert(e.skip(1) =~= Seq::<Seq<char>>::empty());
            assert(split_lines_spec(v@) == d0 + seq![cv + e[0]] + e.skip(1));
            assert(d0 + seq![cv + e[0]] + e.skip(1) =~= d0.push(cv));
        }
    }
    done
}

/// What one raw manifest line means.
pub enum LineSpec {
    /// Nothing: empty, whitespace, or a comment.
    Blank,
    /// A `[name]` section header.
    Section(Seq<char>),
    /// A `key = "value"` binding.
    Pair(Seq<char>, Seq<char>),
    /// None of the above.
    Bad,
}

/// A character a bare (unquoted) key may consist of.
pub open spec fn is_bare_char(c: char) -> bool {
    (97 <= c as u32 && c as u32 <= 122) || (65 <= c as u32 && c as u32 <= 90) || (48 <= c as u32
        && c as u32 <= 57) || c == '-' || c == '_'
}

/// Executable twin of `is_bare_char`.
pub fn bare_char(c: char) -> (r: bool)
    ensures
        r == is_bare_char(c),
{
    let u = c as u32;
    (97 <= u && u <= 122) || (65 <= u && u <= 90) || (48 <= u && u <= 57) || c == '-' || c == '_'
}

/// The length of the leading run of bare key characters.
pub open spec fn bare_prefix_len(s: Seq<char>) -> int
    decreases s.len(),
{
    if s.len() > 0 && is_bare_char(s[0]) {
        1 + bare_prefix_len(s.drop_first())
    } else {
        0
    }
}

pub proof fn lemma_bare_prefix(s: Seq<char>, i: int)
    requires
        0 <= i <= s.len(),
        forall|j: int| 0 <= j < i ==> is_bare_char(s[j]),
        i < s.len() ==> !is_bare_char(s[i]),
    ensures
        bare_prefix_len(s) == i,
    decreases i,
{
    if i > 0 {
        lemma_bare_prefix(s.drop_first(), i - 1);
    }
}

/// The rest of a `key = "value"` line after its key: an equals sign, a
/// quoted value, and at most whitespace or a comment behind it.
pub open spec fn pair_tail(key: Seq<char>, rest: Seq<char>) -> LineSpec {
    let r = trim_start_spec(rest);
    if r.len() == 0 || r[0] != '=' {
        LineSpec::Bad
    } else {
        let r2 = trim_start_spec(r.drop_first());
        if r2.len() == 0 || r2[0] != '"' {
            LineSpec::Bad
        } else {
            match scan_string(r2.drop_first()) {
                None => LineSpec::Bad,
                Some(p) => {
                    let tail = trim_start_spec(r2.skip(1 + p.1));
                    if tail.len() == 0 || tail[0] == '#' {
                        LineSpec::Pair(key, p.0)
                    } else {
                        LineSpec::Bad
                    }
                },
            }
        }
    }
}

/// Classifies one raw manifest line.
pub open spec fn classify_line(l: Seq<char>) -> LineSpec {
    let t = trim_spec(l);
    if t.len() == 0 {
        LineSpec::Blank
    } else if t[0] == '#' {
        LineSpec::Blank
    } else if t[0] == '[' {
        if t.len() >= 2 && t.last() == ']' {
            LineSpec::Section(trim_spec(t.subrange(1, t.len() - 1)))
        } else {
            LineSpec::Bad
        }
    } else if t[0] == '"' {
        match scan_string(t.skip(1)) {
            None => LineSpec::Bad,
            Some(p) => pair_tail(p.0, t.skip(1 + p.1)),
        }
    } else {
        let k = bare_prefix_len(t);
        if k == 0 {
            LineSpec::Bad
        } else {
            pair_tail(t.take(k), t.skip(k))
        }
    }
}

/// Executable classification result.
pub enum Line {
    Blank,
    Section(String),
    Pair(String, String),
    Bad,
}

/// The meaning of an executable classification result.
pub open spec fn line_view(x: Line) -> LineSpec {
    match x {
        Line::Blank => LineSpec::Blank,
        Line::Section(n) => LineSpec::Section(n@),
        Line::Pair(k, v) => LineSpec::Pair(k@, v@),
        Line::Bad => LineSpec::Bad,
    }
}

/// Scans the tail of a binding line: `= "value"` and then only whitespace
/// or a comment.  `pos` is the position right after the key in `t`.
fn classify_tail(t: &Vec<char>, key: String, pos: usize) -> (r: Line)
    requires
        pos <= t@.len(),
    ensures
        line_view(r) == pair_tail(key@, t@.skip(pos as int)),
{
    let j = skip_spaces(t, pos);
    if j == t.len() {
        return Line::Bad;
    }
    proof {
        assert(t@.skip(j as int)[0] == t@[j as int]);
    }
    if t[j] != '=' {
        return Line::Bad;
    }
    proof {
        assert(t@.skip(j as int).drop_first() =~= t@.skip(j as int + 1));
    }
    let j2 = skip_spaces(t, j + 1);
    if j2 == t.len() {
        return Line::Bad;
    }
    proof {
        assert(t@.skip(j2 as int)[0] == t@[j2 as int]);
    }
    if t[j2] != '"' {
        return Line::Bad;
    }
    proof {
        assert(t@.skip(j2 as int).drop_first() =~= t@.skip(j2 as int + 1));
    }
    match scan_string_at(t, j2 + 1) {
        None => Line::Bad,
        Some((val, end)) => {
            proof {
                let r2 = t@.skip(j2 as int);
                let p = scan_string(r2.drop_first());
                assert(r2.skip(1 + p->Some_0.1) =~= t@.skip(end as int));
            }
            let j3 = skip_spaces(t, end);
            if j3 == t.len() {
                Line::Pair(key, val)
            } else {
                proof {
                    assert(t@.skip(j3 as int)[0] == t@[j3 as int]);
                }
                if t[j3] == '#' {
                    Line::Pair(key, val)
                } else {
                    Line::Bad
                }
            }
        },
    }
}

/// Classifies one raw manifest line.
pub fn classify(l: &Vec<char>) -> (r: Line)
    ensures
        line_view(r) == classify_line(l@),
{
    let t = trim_chars(l);
    if t.len() == 0 {
        return Line::Blank;
    }
    let c0 = t[0];
    if c0 == '#' {
        return Line::Blank;
    }
    if c0 == '[' {
        if t.len() >= 2 && t[t.len() - 1] == ']' {
            proof {
                assert(t@.last() == t@[t@.len() - 1]);
            }
            let inner = slice_chars(&t, 1, t.len() - 1);
            let name = trim_chars(&inner);
            return Line::Section(string_of(&name));
        } else {
            return Line::Bad;
        }
    }
    if c0 == '"' {
        match scan_string_at(&t, 1) {
            None => {
                return Line::Bad;
            },
            Some((key, end)) => {
                proof {
                    let p = scan_string(t@.skip(1));
                    assert(t@.skip(1 + p->Some_0.1) =~= t@.skip(end as int));
                }
                return classify_tail(&t, key, end);
            },
        }
    }
    let mut k: usize = 0;
    while k < t.len() && bare_char(t[k])
        invariant
            k <= t@.len(),
            forall|j: int| 0 <= j < k ==> is_bare_char(t@[j]),
        decreases t@.len() - k,
    {
        k = k + 1;
    }
    proof {
        lemma_bare_prefix(t@, k as int);
    }
    if k == 0 {
        return Line::Bad;
    }
    let keyv = slice_chars(&t, 0, k);
    proof {
        assert(keyv@ =~= t@.take(k as int));
    }
    classify_tail(&t, string_of(&keyv), k)
}

/// The section a binding line belongs to.
pub enum Sect {
    /// Before any section header.
    Root,
    /// Inside `[dependencies]`.
    Deps,
    /// Inside a section this format gives no meaning; its lines are kept
    /// for compatibility but ignored.
    Other,
}

/// Whether some pair in `s` has key `k`.
pub open spec fn has_skey(s: Seq<(Seq<char>, Seq<char>)>, k: Seq<char>) -> bool {
    exists|i: int| 0 <= i < s.len() && (#[trigger] s[i]).0 == k
}

/// The value of the first pair with key `k`.
pub open spec fn find_val(s: Seq<(Seq<char>, Seq<char>)>, k: Seq<char>) -> Option<Seq<char>>
    decreases s.len(),
{
    if s.len() == 0 {
        None
    } else if s[0].0 == k {
        Some(s[0].1)
    } else {
        find_val(s.drop_first(), k)
    }
}

pub proof fn lemma_find_val_has_key(s: Seq<(Seq<char>, Seq<char>)>, k: Seq<char>)
    ensures
        (find_val(s, k) is Some) == has_skey(s, k),
    decreases s.len(),
{
    if s.len() > 0 {
        lemma_find_val_has_key(s.drop_first(), k);
        if s[0].0 == k {
        } else if has_skey(s.drop_first(), k) {
        } else if has_skey(s, k) {
            let i = choose|i: int| 0 <= i < s.len() && (#[trigger] s[i]).0 == k;
            assert(s.drop_first()[i - 1] == s[i]);
        }
    }
}

/// Folds classified lines into the root bindings and the dependency
/// bindings, keeping document order and rejecting duplicate keys; yields
/// the one-based number of the first offending line on failure.
pub open spec fn fold_lines(
    lines: Seq<Seq<char>>,
    sec: Sect,
    root: Seq<(Seq<char>, Seq<char>)>,
    deps: Seq<(Seq<char>, Seq<char>)>,
    ln: int,
) -> Result<(Seq<(Seq<char>, Seq<char>)>, Seq<(Seq<char>, Seq<char>)>), int>
    decreases lines.len(),
{
    if lines.len() == 0 {
        Ok((root, deps))
    } else {
        match classify_line(lines[0]) {
            LineSpec::Blank => fold_lines(lines.drop_first(), sec, root, deps, ln + 1),
            LineSpec::Section(name) => fold_lines(
                lines.drop_first(),
                if name == "dependencies"@ {
                    Sect::Deps
                } else {
                    Sect::Other
                },
                root,
                deps,
                ln + 1,
            ),
            LineSpec::Pair(k, v) => match sec {
                Sect::Root => if has_skey(root, k) {
                    Err(ln)
                } else {
                    fold_lines(lines.drop_first(), sec, root.push((k, v)), deps, ln + 1)
                },
                Sect::Deps => if has_skey(deps, k) {
                    Err(ln)
                } else {
                    fold_lines(lines.drop_first(), sec, root, deps.push((k, v)), ln + 1)
                },
                Sect::Other => fold_lines(lines.drop_first(), sec, root, deps, ln + 1),
            },
            LineSpec::Bad => Err(ln),
        }
    }
}

/// Finds the first pair bound to `k`, as `find_val` does.
pub fn find_pair<'a>(v: &'a Vec<(String, String)>, k: &str) -> (r: Option<&'a String>)
    ensures
        match r {
            Some(s) => find_val(pair_views(v@), k@) == Some(s@),
            None => find_val(pair_views(v@), k@) is None,
        },
{
    let ghost whole = pair_views(v@);
    let mut i: usize = 0;
    proof {
        assert(whole.skip(0) =~= whole);
    }
    while i < v.len()
        invariant
            i <= v@.len(),
            whole == pair_views(v@),
            whole.len() == v@.len(),
            find_val(whole, k@) == find_val(whole.skip(i as int), k@),
        decreases v@.len() - i,
    {
        proof {
            assert(whole.skip(i as int)[0] == whole[i as int]);
            assert(whole.skip(i as int).drop_first() =~= whole.skip(i as int + 1));
        }
        if str_eq(v[i].0.as_str(), k) {
            return Some(&v[i].1);
        }
        i = i + 1;
    }
    proof {
        assert(whole.skip(i as int).len() == 0);
    }
    None
}

/// The abstract content of a manifest.
pub struct ManifestModel {
    /// The optional identifier under which the manifest can be published.
    pub id: Option<Seq<char>>,
    /// The command line to execute; never empty.
    pub entrypoint: Seq<char>,
    /// Alias-to-id bindings in document order, aliases pairwise distinct.
    pub deps: Seq<(Seq<char>, Seq<char>)>,
}

/// What parsing a manifest text yields.
pub enum ParseOutcome {
    /// A well-formed manifest.
    Parsed(ManifestModel),
    /// The given one-based line is structurally invalid or a duplicate key.
    BadLine(int),
    /// The mandatory `entrypoint` binding is absent or empty.
    MissingEntrypoint,
}

/// The meaning of a manifest text.
pub open spec fn manifest_spec(text: Seq<char>) -> ParseOutcome {
    match fold_lines(split_lines_spec(text), Sect::Root, Seq::empty(), Seq::empty(), 1) {
        Err(n) => ParseOutcome::BadLine(n),
        Ok((root, deps)) => match find_val(root, "entrypoint"@) {
            None => ParseOutcome::MissingEntrypoint,
            Some(e) => if e.len() == 0 {
                ParseOutcome::MissingEntrypoint
            } else {
                ParseOutcome::Parsed(
                    ManifestModel { id: find_val(root, "id"@), entrypoint: e, deps },
                )
            },
        },
    }
}

/// A loaded manifest: an optional id, the entrypoint command line, and the
/// dependency aliases with the ids they stand for, in document order.
#[derive(Debug, Clone)]
pub struct Manifest {
    pub id: Option<String>,
    pub entrypoint: String,
    pub dependencies: Vec<(String, String)>,
}

impl View for Manifest {
    type V = ManifestModel;

    open spec fn view(&self) -> ManifestModel {
        ManifestModel {
            id: match self.id {
                Some(s) => Some(s@),
                None => None,
            },
            entrypoint: self.entrypoint@,
            deps: pair_views(self.dependencies@),
        }
    }
}

/// Parses a manifest text.  The result is exactly what `manifest_spec`
/// ascribes to the text: the parsed manifest, a parse error naming the
/// first offending line, or the missing-field error for `entrypoint`.
pub fn parse_manifest(text: &str) -> (r: Result<Manifest, SphereError>)
    ensures
        match manifest_spec(text@) {
            ParseOutcome::Parsed(m) => r matches Ok(mf) && mf@ == m,
            ParseOutcome::BadLine(n) => r matches Err(SphereError::Parse { line }) && line == n,
            ParseOutcome::MissingEntrypoint => r matches Err(SphereError::MissingField { field })
                && field@ == "entrypoint"@,
        },
{
    let chars = chars_of(text);
    let lines = split_lines(&chars);
    let ghost linesv = split_lines_spec(text@);
    let mut sec = Sect::Root;
    let mut root: Vec<(String, String)> = Vec::new();
    let mut deps: Vec<(String, String)> = Vec::new();
    let mut i: usize = 0;
    let ghost goal = fold_lines(linesv, Sect::Root, Seq::empty(), Seq::empty(), 1);
    proof {
        assert(linesv.skip(0) =~= linesv);
        assert(pair_views(root@) =~= Seq::<(Seq<char>, Seq<char>)>::empty());
        assert(pair_views(deps@) =~= Seq::<(Seq<char>, Seq<char>)>::empty());
    }
    while i < lines.len()
        invariant
            i <= lines@.len(),
            lines.deep_view() == linesv,
            linesv == split_lines_spec(text@),
            linesv.len() == lines@.len(),
            goal == fold_lines(
                split_lines_spec(text@),
                Sect::Root,
                Seq::<(Seq<char>, Seq<char>)>::empty(),
                Seq::<(Seq<char>, Seq<char>)>::empty(),
                1,
            ),
            goal == fold_lines(
                linesv.skip(i as int),
                sec,
                pair_views(root@),
                pair_views(deps@),
                i + 1,
            ),
        decreases lines@.len() - i,
    {
        proof {
            assert(linesv.skip(i as int)[0] == linesv[i as int]);
            assert(linesv[i as int] == lines@[i as int].deep_view());
            assert(lines@[i as int].deep_view() =~= lines@[i as int]@);
            assert(linesv.skip(i as int).drop_first() =~= linesv.skip(i as int + 1));
        }
        let ghost sec0 = sec;
        let line = classify(&lines[i]);
        match line {
            Line::Blank => {
                proof {
                    assert(goal == fold_lines(
                        linesv.skip(i as int + 1),
                        sec,
                        pair_views(root@),
                        pair_views(deps@),
                        i + 2,
                    ));
                }
            },
            Line::Section(name) => {
                if str_eq(name.as_str(), "dependencies") {
                    sec = Sect::Deps;
                } else {
                    sec = Sect::Other;
                }
                proof {
                    assert(goal == fold_lines(
                        linesv.skip(i as int + 1),
                        sec,
                        pair_views(root@),
                        pair_views(deps@),
                        i + 2,
                    ));
                }
            },
            Line::Pair(k, v) => {
                match sec {
                    Sect::Root => {
                        let dup = find_pair(&root, k.as_str());
                        proof {
                            lemma_find_val_has_key(pair_views(root@), k@);
                        }
                        if dup.is_some() {
                            proof {
                                assert(goal == Err::<
                                    (Seq<(Seq<char>, Seq<char>)>, Seq<(Seq<char>, Seq<char>)>),
                                    int,
                                >(i + 1));
                            }
                            return Err(SphereError::Parse { line: i + 1 });
                        }
                        let ghost r0 = pair_views(root@);
                        let ghost kv = (k@, v@);
                        root.push((k, v));
                        proof {
                            assert(root@[root@.len() - 1].0@ == kv.0);
                            assert(pair_views(root@) =~= r0.push(kv));
                            assert(goal == fold_lines(
                                linesv.skip(i as int + 1),
                                sec,
                                pair_views(root@),
                                pair_views(deps@),
                                i + 2,
                            ));
                        }
                    },
                    Sect::Deps => {
                        let dup = find_pair(&deps, k.as_str());
                        proof {
                            lemma_find_val_has_key(pair_views(deps@), k@);
                        }
                        if dup.is_some() {
                            proof {
                                assert(goal == Err::<
                                    (Seq<(Seq<char>, Seq<char>)>, Seq<(Seq<char>, Seq<char>)>),
                                    int,
                                >(i + 1));
                            }
                            return Err(SphereError::Parse { line: i + 1 });
                        }
                        let ghost d0 = pair_views(deps@);
                        let ghost kv = (k@, v@);
                        deps.push((k, v));
                        proof {
                            assert(deps@[deps@.len() - 1].0@ == kv.0);
                            assert(pair_views(deps@) =~= d0.push(kv));
                            assert(goal == fold_lines(
                                linesv.skip(i as int + 1),
                                sec,
                                pair_views(root@),
                                pair_views(deps@),
                                i + 2,
                            ));
                        }
                    },
                    Sect::Other => {
                        proof {
                            assert(goal == fold_lines(
                                linesv.skip(i as int + 1),
                                sec,
                                pair_views(root@),
                                pair_views(deps@),
                                i + 2,
                            ));
                        }
                    },
                }
            },
            Line::Bad => {
                proof {
                    assert(goal == Err::<
                        (Seq<(Seq<char>, Seq<char>)>, Seq<(Seq<char>, Seq<char>)>),
                        int,
                    >(i + 1));
                }
                return Err(SphereError::Parse { line: i + 1 });
            },
        }
        i = i + 1;
    }
    proof {
        assert(linesv.skip(i as int).len() == 0);
        assert(goal == Ok::<_, int>((pair_views(root@), pair_views(deps@))));
    }
    let entry = find_pair(&root, "entrypoint");
    match entry {
        None => Err(SphereError::MissingField { field: String::from_str("entrypoint") }),
        Some(e) => {
            if e.as_str().unicode_len() == 0 {
                Err(SphereError::MissingField { field: String::from_str("entrypoint") })
            } else {
                let entrypoint = e.clone();
                let id = match find_pair(&root, "id") {
                    Some(s) => Some(s.clone()),
                    None => None,
                };
                Ok(Manifest { id, entrypoint, dependencies: deps })
            }
        },
    }
}

/// A manifest model is well formed when its entrypoint is non-empty and
/// its dependency aliases are pairwise distinct.
pub open spec fn model_wf(m: ManifestModel) -> bool {
    &&& m.entrypoint.len() > 0
    &&& forall|i: int, j: int|
        0 <= i < j < m.deps.len() ==> (#[trigger] m.deps[i]).0 != (#[trigger] m.deps[j]).0
}

proof fn lemma_fold_unique(
    lines: Seq<Seq<char>>,
    sec: Sect,
    root: Seq<(Seq<char>, Seq<char>)>,
    deps: Seq<(Seq<char>, Seq<char>)>,
    ln: int,
)
    requires
        forall|i: int, j: int|
            0 <= i < j < deps.len() ==> (#[trigger] deps[i]).0 != (#[trigger] deps[j]).0,
    ensures
        fold_lines(lines, sec, root, deps, ln) matches Ok(rd) ==> forall|i: int, j: int|
            0 <= i < j < rd.1.len() ==> (#[trigger] rd.1[i]).0 != (#[trigger] rd.1[j]).0,
    decreases lines.len(),
{
    if lines.len() > 0 {
        match classify_line(lines[0]) {
            LineSpec::Blank => {
                lemma_fold_unique(lines.drop_first(), sec, root, deps, ln + 1);
            },
            LineSpec::Section(name) => {
                lemma_fold_unique(
                    lines.drop_first(),
                    if name == "dependencies"@ {
                        Sect::Deps
                    } else {
                        Sect::Other
                    },
                    root,
                    deps,
                    ln + 1,
                );
            },
            LineSpec::Pair(k, v) => {
                match sec {
                    Sect::Root => {
                        if !has_skey(root, k) {
                            lemma_fold_unique(
                                lines.drop_first(),
                                sec,
                                root.push((k, v)),
                                deps,
                                ln + 1,
                            );
                        }
                    },
                    Sect::Deps => {
                        if !has_skey(deps, k) {
                            let d2 = deps.push((k, v));
                            assert forall|i: int, j: int| 0 <= i < j < d2.len() implies (
                            #[trigger] d2[i]).0 != (#[trigger] d2[j]).0 by {
                                if j == d2.len() - 1 {
                                    assert(d2[i] == deps[i]);
                                    if d2[i].0 == k {
                                        assert(has_skey(deps, k));
                                    }
                                }
                            }
                            lemma_fold_unique(lines.drop_first(), sec, root, d2, ln + 1);
                        }
                    },
                    Sect::Other => {
                        lemma_fold_unique(lines.drop_first(), sec, root, deps, ln + 1);
                    },
                }
            },
            LineSpec::Bad => {},
        }
    }
}

/// Law: whenever parsing succeeds, the manifest has a non-empty entrypoint
/// and pairwise distinct dependency aliases, so every alias names exactly
/// one shim in the sandbox built from it.
pub proof fn lemma_parsed_manifest_wf(text: Seq<char>)
    ensures
        manifest_spec(text) matches ParseOutcome::Parsed(m) ==> model_wf(m),
{
    lemma_fold_unique(split_lines_spec(text), Sect::Root, Seq::empty(), Seq::empty(), 1);
}

/// Law: a structurally well-formed manifest that lacks a non-empty
/// `entrypoint` binding always fails with the missing-field outcome, never
/// with a generic parse error.
pub proof fn lemma_missing_entrypoint(text: Seq<char>)
    ensures
        (match fold_lines(split_lines_spec(text), Sect::Root, Seq::empty(), Seq::empty(), 1) {
            Ok(rd) => match find_val(rd.0, "entrypoint"@) {
                None => true,
                Some(e) => e.len() == 0,
            },
            Err(_) => false,
        }) ==> manifest_spec(text) == ParseOutcome::MissingEntrypoint,
{
}

} // verus!
