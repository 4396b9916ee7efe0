//! The grammar of the two JSON object forms the pipeline stores and
//! fetches: the cache index file, an object whose values are strings, and
//! the registry master index, an object whose values are flat objects of
//! strings.  A canonical pretty serializer for the cache index stands
//! beside the parser.

use vstd::prelude::*;
use crate::scan::{scan_string, scan_string_at, skip_spaces, lemma_scan_string_len, lemma_trim_start_len, unescape_char};
use crate::text::{pair_views, trim_start_spec};
use vstd::string::StringExecFns;

verus! {

/// Parses `"key" : "value"` at the head of `s`, leading whitespace
/// allowed; yields the decoded pair and what remains after the value.
pub open spec fn parse_str_pair(s: Seq<char>) -> Option<((Seq<char>, Seq<char>), Seq<char>)> {
    let t = trim_start_spec(s);
    if t.len() == 0 || t[0] != '"' {
        None
    } else {
        match scan_string(t.drop_first()) {
            None => None,
            Some(p) => {
                let t2 = trim_start_spec(t.skip(1 + p.1));
                if t2.len() == 0 || t2[0] != ':' {
                    None
                } else {
                    let t3 = trim_start_spec(t2.drop_first());
                    if t3.len() == 0 || t3[0] != '"' {
                        None
                    } else {
                        match scan_string(t3.drop_first()) {
                            None => None,
                            Some(q) => Some(((p.0, q.0), t3.skip(1 + q.1))),
                        }
                    }
                }
            },
        }
    }
}

/// A parsed pair consumes at least one character.
pub proof fn lemma_str_pair_consumes(s: Seq<char>)
    ensures
        parse_str_pair(s) matches Some(pr) ==> pr.1.len() < s.len(),
{
    lemma_trim_start_len(s);
    let t = trim_start_spec(s);
    if t.len() > 0 && t[0] == '"' {
        lemma_scan_string_len(t.drop_first());
        let po = scan_string(t.drop_first());
        if po is Some {
            let p = po->Some_0;
            lemma_trim_start_len(t.skip(1 + p.1));
            let t2 = trim_start_spec(t.skip(1 + p.1));
            if t2.len() > 0 && t2[0] == ':' {
                lemma_trim_start_len(t2.drop_first());
                let t3 = trim_start_spec(t2.drop_first());
                if t3.len() > 0 && t3[0] == '"' {
                    lemma_scan_string_len(t3.drop_first());
                }
            }
        }
    }
}

/// Parses the members of a string-valued object, positioned right after
/// the opening brace (`first`) or right after a member (`!first`); yields
/// the pairs and what remains after the closing brace.
pub open spec fn parse_members(s: Seq<char>, first: bool) -> Option<
    (Seq<(Seq<char>, Seq<char>)>, Seq<char>),
>
    decreases s.len(),
    via parse_members_dec
{
    let t = trim_start_spec(s);
    if t.len() == 0 {
        None
    } else if t[0] == '}' {
        Some((Seq::empty(), t.drop_first()))
    } else if first {
        match parse_str_pair(s) {
            None => None,
            Some(pr) => match parse_members(pr.1, false) {
                None => None,
                Some(mr) => Some((seq![pr.0] + mr.0, mr.1)),
            },
        }
    } else if t[0] == ',' {
        match parse_str_pair(t.drop_first()) {
            None => None,
            Some(pr) => match parse_members(pr.1, false) {
                None => None,
                Some(mr) => Some((seq![pr.0] + mr.0, mr.1)),
            },
        }
    } else {
        None
    }
}

#[via_fn]
proof fn parse_members_dec(s: Seq<char>, first: bool) {
    lemma_trim_start_len(s);
    lemma_str_pair_consumes(s);
    let t = trim_start_spec(s);
    if t.len() > 0 {
        lemma_str_pair_consumes(t.drop_first());
    }
}

/// What remains after the members never grows.
pub proof fn lemma_members_consume(s: Seq<char>, first: bool)
    ensures
        parse_members(s, first) matches Some(mr) ==> mr.1.len() < s.len(),
    decreases s.len(),
{
    lemma_trim_start_len(s);
    lemma_str_pair_consumes(s);
    let t = trim_start_spec(s);
    if t.len() == 0 {
    } else if t[0] == '}' {
    } else if first {
        let pro = parse_str_pair(s);
        if pro is Some {
            lemma_members_consume(pro->Some_0.1, false);
        }
    } else if t[0] == ',' {
        lemma_str_pair_consumes(t.drop_first());
        let pro = parse_str_pair(t.drop_first());
        if pro is Some {
            lemma_members_consume(pro->Some_0.1, false);
        }
    }
}

/// Parses a whole string-valued object at the head of `s`, leading
/// whitespace allowed.
pub open spec fn parse_flat_obj(s: Seq<char>) -> Option<(Seq<(Seq<char>, Seq<char>)>, Seq<char>)> {
    let t = trim_start_spec(s);
    if t.len() == 0 || t[0] != '{' {
        None
    } else {
        parse_members(t.drop_first(), true)
    }
}

pub proof fn lemma_flat_obj_consumes(s: Seq<char>)
    ensures
        parse_flat_obj(s) matches Some(p) ==> p.1.len() < s.len(),
{
    lemma_trim_start_len(s);
    let t = trim_start_spec(s);
    if t.len() > 0 && t[0] == '{' {
        lemma_members_consume(t.drop_first(), true);
    }
}

/// Executable twin of `parse_str_pair`, at position `from` of `v`.
fn parse_str_pair_at(v: &Vec<char>, from: usize) -> (r: Option<((String, String), usize)>)
    requires
        from <= v@.len(),
    ensures
        match r {
            Some(p) => {
                &&& from < p.1 <= v@.len()
                &&& parse_str_pair(v@.skip(from as int)) == Some(
                    (((p.0).0@, (p.0).1@), v@.skip(p.1 as int)),
                )
            },
            None => parse_str_pair(v@.skip(from as int)) is None,
        },
{
    proof {
        lemma_str_pair_consumes(v@.skip(from as int));
    }
    let j0 = skip_spaces(v, from);
    if j0 == v.len() {
        return None;
    }
    proof {
        assert(v@.skip(j0 as int)[0] == v@[j0 as int]);
    }
    if v[j0] != '"' {
        return None;
    }
    proof {
        assert(v@.skip(j0 as int).drop_first() =~= v@.skip(j0 as int + 1));
    }
    let key = match scan_string_at(v, j0 + 1) {
        None => {
            return None;
        },
        Some(p) => p,
    };
    proof {
        let t = v@.skip(j0 as int);
        let p = scan_string(t.drop_first());
        assert(t.skip(1 + p->Some_0.1) =~= v@.skip(key.1 as int));
    }
    let j1 = skip_spaces(v, key.1);
    if j1 == v.len() {
        return None;
    }
    proof {
        assert(v@.skip(j1 as int)[0] == v@[j1 as int]);
    }
    if v[j1] != ':' {
        return None;
    }
    proof {
        assert(v@.skip(j1 as int).drop_first() =~= v@.skip(j1 as int + 1));
    }
    let j2 = skip_spaces(v, j1 + 1);
    if j2 == v.len() {
        return None;
    }
    proof {
        assert(v@.skip(j2 as int)[0] == v@[j2 as int]);
    }
    if v[j2] != '"' {
        return None;
    }
    proof {
        assert(v@.skip(j2 as int).drop_first() =~= v@.skip(j2 as int + 1));
    }
    match scan_string_at(v, j2 + 1) {
        None => None,
        Some(q) => {
            proof {
                let t3 = v@.skip(j2 as int);
                let qq = scan_string(t3.drop_first());
                assert(t3.skip(1 + qq->Some_0.1) =~= v@.skip(q.1 as int));
            }
            Some(((key.0, q.0), q.1))
        },
    }
}

/// Executable twin of `parse_members`, at position `from` of `v`.
pub fn parse_members_at(v: &Vec<char>, from: usize, first: bool) -> (r: Option<
    (Vec<(String, String)>, usize),
>)
    requires
        from <= v@.len(),
    ensures
        match r {
            Some(p) => {
                &&& from < p.1 <= v@.len()
                &&& parse_members(v@.skip(from as int), first) == Some(
                    (pair_views(p.0@), v@.skip(p.1 as int)),
                )
            },
            None => parse_members(v@.skip(from as int), first) is None,
        },
    decreases v@.len() - from,
{
    proof {
        lemma_members_consume(v@.skip(from as int), first);
    }
    let j0 = skip_spaces(v, from);
    if j0 == v.len() {
        return None;
    }
    proof {
        assert(v@.skip(j0 as int)[0] == v@[j0 as int]);
    }
    let c = v[j0];
    if c == '}' {
        proof {
            assert(v@.skip(j0 as int).drop_first() =~= v@.skip(j0 as int + 1));
        }
        let out: Vec<(String, String)> = Vec::new();
        proof {
            assert(pair_views(out@) =~= Seq::<(Seq<char>, Seq<char>)>::empty());
        }
        return Some((out, j0 + 1));
    }
    let pstart: usize;
    if first {
        pstart = from;
    } else {
        if c != ',' {
            return None;
        }
        proof {
            assert(v@.skip(j0 as int).drop_first() =~= v@.skip(j0 as int + 1));
        }
        pstart = j0 + 1;
    }
    let pr = match parse_str_pair_at(v, pstart) {
        None => {
            return None;
        },
        Some(pr) => pr,
    };
    proof {
        lemma_str_pair_consumes(v@.skip(pstart as int));
    }
    let mr = match parse_members_at(v, pr.1, false) {
        None => {
            return None;
        },
        Some(mr) => mr,
    };
    let ((k, val), _) = pr;
    let ghost kv = (k@, val@);
    let mut out = mr.0;
    out.insert(0, (k, val));
    proof {
        assert(out@.drop_first() =~= mr.0@);
        assert(pair_views(out@) =~= seq![kv] + pair_views(mr.0@));
    }
    Some((out, mr.1))
}

/// The mapping a pair sequence denotes when later bindings of the same key
/// replace earlier ones.
pub open spec fn map_of_pairs(ps: Seq<(Seq<char>, Seq<char>)>) -> Map<Seq<char>, Seq<char>>
    decreases ps.len(),
{
    if ps.len() == 0 {
        Map::empty()
    } else {
        map_of_pairs(ps.drop_last()).insert(ps.last().0, ps.last().1)
    }
}

/// The meaning of a cache index file text: a file that is empty or only
/// whitespace denotes the empty index; otherwise the text must be one
/// string-valued object with nothing after it.
pub open spec fn index_text_spec(text: Seq<char>) -> Option<Seq<(Seq<char>, Seq<char>)>> {
    if trim_start_spec(text).len() == 0 {
        Some(Seq::empty())
    } else {
        match parse_flat_obj(text) {
            None => None,
            Some(p) => if trim_start_spec(p.1).len() == 0 {
                Some(p.0)
            } else {
                None
            },
        }
    }
}

/// Parses a cache index file text into its pairs, in file order.
pub fn parse_index_pairs(text: &str) -> (r: Option<Vec<(String, String)>>)
    ensures
        match r {
            Some(ps) => index_text_spec(text@) == Some(pair_views(ps@)),
            None => index_text_spec(text@) is None,
        },
{
    let v = crate::text::chars_of(text);
    proof {
        assert(v@.skip(0) =~= v@);
    }
    let j0 = skip_spaces(&v, 0);
    if j0 == v.len() {
        let out: Vec<(String, String)> = Vec::new();
        proof {
            assert(pair_views(out@) =~= Seq::<(Seq<char>, Seq<char>)>::empty());
        }
        return Some(out);
    }
    proof {
        assert(v@.skip(j0 as int)[0] == v@[j0 as int]);
        assert(trim_start_spec(v@).len() > 0);
    }
    if v[j0] != '{' {
        return None;
    }
    proof {
        assert(v@.skip(j0 as int).drop_first() =~= v@.skip(j0 as int + 1));
    }
    match parse_members_at(&v, j0 + 1, true) {
        None => None,
        Some((pairs, end)) => {
            let j1 = skip_spaces(&v, end);
            if j1 == v.len() {
                Some(pairs)
            } else {
                proof {
                    assert(trim_start_spec(v@.skip(end as int)).len() > 0);
                }
                None
            }
        },
    }
}

/// The escape sequence the serializer writes for one character.
pub open spec fn escape_char(c: char) -> Seq<char> {
    if c == '"' {
        seq!['\\', '"']
    } else if c == '\\' {
        seq!['\\', '\\']
    } else if c == '\n' {
        seq!['\\', 'n']
    } else if c == '\t' {
        seq!['\\', 't']
    } else if c == '\r' {
        seq!['\\', 'r']
    } else {
        seq![c]
    }
}

/// The serialized form of a string's characters.
pub open spec fn escape_str(s: Seq<char>) -> Seq<char>
    decreases s.len(),
{
    if s.len() == 0 {
        Seq::empty()
    } else {
        escape_char(s[0]) + escape_str(s.drop_first())
    }
}

/// Writes the escaped characters of `s` onto `out`.
fn push_escaped(out: &mut String, s: &str)
    ensures
        final(out)@ == old(out)@ + escape_str(s@),
{
    let v = crate::text::chars_of(s);
    let mut i: usize = 0;
    proof {
        assert(v@.skip(0) =~= v@);
        assert(old(out)@ + Seq::<char>::empty() =~= old(out)@);
    }
    while i < v.len()
        invariant
            i <= v@.len(),
            v@ == s@,
            old(out)@ + escape_str(v@) == out@ + escape_str(v@.skip(i as int)),
        decreases v@.len() - i,
    {
        let c = v[i];
        proof {
            assert(v@.skip(i as int)[0] == c);
            assert(v@.skip(i as int).drop_first() =~= v@.skip(i as int + 1));
        }
        let ghost o0 = out@;
        if c == '"' {
            crate::text::push_char(out, '\\');
            crate::text::push_char(out, '"');
        } else if c == '\\' {
            crate::text::push_char(out, '\\');
            crate::text::push_char(out, '\\');
        } else if c == '\n' {
            crate::text::push_char(out, '\\');
            crate::text::push_char(out, 'n');
        } else if c == '\t' {
            crate::text::push_char(out, '\\');
            crate::text::push_char(out, 't');
        } else if c == '\r' {
            crate::text::push_char(out, '\\');
            crate::text::push_char(out, 'r');
        } else {
            crate::text::push_char(out, c);
        }
        proof {
            assert(out@ =~= o0 + escape_char(c));
            assert(o0 + (escape_char(c) + escape_str(v@.skip(i as int + 1))) =~= (o0 + escape_char(
                c,
            )) + escape_str(v@.skip(i as int + 1)));
        }
        i = i + 1;
    }
    proof {
        assert(v@.skip(i as int).len() == 0);
        assert(escape_str(v@.skip(i as int)) =~= Seq::<char>::empty());
        assert(out@ + Seq::<char>::empty() =~= out@);
    }
}

/// One serialized index entry: two spaces, the quoted key, a colon, the
/// quoted value.
pub open spec fn entry_text(p: (Seq<char>, Seq<char>)) -> Seq<char> {
    "  \""@ + escape_str(p.0) + "\": \""@ + escape_str(p.1) + "\""@
}

/// The serialized entries, each on its own line, separated by commas.
pub open spec fn entries_text(ps: Seq<(Seq<char>, Seq<char>)>) -> Seq<char>
    decreases ps.len(),
{
    if ps.len() == 0 {
        Seq::empty()
    } else if ps.len() == 1 {
        entry_text(ps[0]) + "\n"@
    } else {
        entry_text(ps[0]) + ",\n"@ + entries_text(ps.drop_first())
    }
}

/// The canonical pretty JSON text of an index pair sequence.
pub open spec fn json_of_pairs(ps: Seq<(Seq<char>, Seq<char>)>) -> Seq<char> {
    if ps.len() == 0 {
        "{}"@
    } else {
        "{\n"@ + entries_text(ps) + "}"@
    }
}

/// Serializes index pairs as pretty JSON: one entry per line, two-space
/// indent, keys in stored order.
pub fn pairs_to_json(ps: &Vec<(String, String)>) -> (r: String)
    ensures
        r@ == json_of_pairs(pair_views(ps@)),
{
    let ghost psv = pair_views(ps@);
    if ps.len() == 0 {
        let r = String::from_str("{}");
        return r;
    }
    let mut out = String::from_str("{\n");
    let mut i: usize = 0;
    proof {
        assert(psv.skip(0) =~= psv);
    }
    while i < ps.len()
        invariant
            i <= ps@.len(),
            psv == pair_views(ps@),
            psv.len() == ps@.len(),
            psv.len() > 0,
            out@ + entries_text(psv.skip(i as int)) == "{\n"@ + entries_text(psv),
        decreases ps@.len() - i,
    {
        proof {
            assert(psv.skip(i as int)[0] == psv[i as int]);
            assert(psv.skip(i as int).drop_first() =~= psv.skip(i as int + 1));
        }
        let ghost o0 = out@;
        out.append("  \"");
        push_escaped(&mut out, ps[i].0.as_str());
        out.append("\": \"");
        push_escaped(&mut out, ps[i].1.as_str());
        out.append("\"");
        proof {
            assert(out@ =~= o0 + entry_text(psv[i as int]));
        }
        let ghost o1 = out@;
        if i + 1 == ps.len() {
            out.append("\n");
            proof {
                assert(psv.skip(i as int).len() == 1);
                assert(entries_text(psv.skip(i as int)) == entry_text(psv.skip(i as int)[0])
                    + "\n"@);
                assert(out@ + entries_text(psv.skip(i as int + 1)) =~= "{\n"@ + entries_text(psv))
                    by {
                    assert(psv.skip(i as int + 1).len() == 0);
                    assert(entries_text(psv.skip(i as int + 1)) =~= Seq::<char>::empty());
                    assert(o0 + (entry_text(psv[i as int]) + "\n"@) =~= (o0 + entry_text(
                        psv[i as int],
                    )) + "\n"@);
                    assert(out@ + Seq::<char>::empty() =~= out@);
                }
            }
        } else {
            out.append(",\n");
            proof {
                assert(psv.skip(i as int).len() > 1);
                assert(entries_text(psv.skip(i as int)) == entry_text(psv.skip(i as int)[0])
                    + ",\n"@ + entries_text(psv.skip(i as int + 1)));
                assert(out@ + entries_text(psv.skip(i as int + 1)) =~= "{\n"@ + entries_text(psv))
                    by {
                    assert(o0 + ((entry_text(psv[i as int]) + ",\n"@) + entries_text(
                        psv.skip(i as int + 1),
                    )) =~= ((o0 + entry_text(psv[i as int])) + ",\n"@) + entries_text(
                        psv.skip(i as int + 1),
                    ));
                }
            }
        }
        i = i + 1;
    }
    proof {
        assert(psv.skip(i as int).len() == 0);
        assert(entries_text(psv.skip(i as int)) =~= Seq::<char>::empty());
        assert(out@ + Seq::<char>::empty() =~= out@);
    }
    out.append("}");
    out
}

/// An escaped string followed by a closing quote scans back to itself.
pub proof fn lemma_scan_escaped(s: Seq<char>, rest: Seq<char>)
    ensures
        scan_string(escape_str(s) + seq!['"'] + rest) == Some((s, escape_str(s).len() as int + 1)),
    decreases s.len(),
{
    let whole = escape_str(s) + seq!['"'] + rest;
    if s.len() == 0 {
        assert(escape_str(s) =~= Seq::<char>::empty());
        assert(whole =~= seq!['"'] + rest);
        assert(whole[0] == '"');
        assert(s =~= Seq::<char>::empty());
        assert(scan_string(whole) == Some((Seq::<char>::empty(), 1int)));
    } else {
        let c = s[0];
        let s1 = s.drop_first();
        let e = escape_char(c);
        assert(escape_str(s) == e + escape_str(s1));
        lemma_scan_escaped(s1, rest);
        let inner = escape_str(s1) + seq!['"'] + rest;
        assert(seq![c] + s1 =~= s);
        if c == '"' || c == '\\' || c == '\n' || c == '\t' || c == '\r' {
            assert(e.len() == 2 && e[0] == '\\');
            assert(whole =~= e + inner);
            assert(whole[0] == '\\');
            assert(whole.len() >= 2);
            assert(whole[1] == e[1]);
            assert(unescape_char(e[1]) == Some(c));
            assert(whole.skip(2) =~= inner);
            assert(scan_string(whole) == Some((s, escape_str(s1).len() as int + 1 + 2)));
            assert(escape_str(s).len() == 2 + escape_str(s1).len());
        } else {
            assert(e =~= seq![c]);
            assert(whole =~= seq![c] + inner);
            assert(whole[0] == c);
            assert(c != '"' && c != '\\' && c != '\n' && c != '\r');
            assert(whole.skip(1) =~= inner);
            assert(scan_string(whole) == Some((s, escape_str(s1).len() as int + 1 + 1)));
            assert(escape_str(s).len() == 1 + escape_str(s1).len());
        }
    }
}

/// A serialized index entry, under any run of leading whitespace, parses
/// back to exactly its pair.
pub proof fn lemma_parse_entry(p: (Seq<char>, Seq<char>), rest: Seq<char>, pre: Seq<char>)
    requires
        forall|j: int| 0 <= j < pre.len() ==> crate::text::is_space(#[trigger] pre[j]),
    ensures
        parse_str_pair(pre + entry_text(p) + rest) == Some((p, rest)),
{
    reveal_strlit("  \"");
    reveal_strlit("\": \"");
    reveal_strlit("\"");
    let sp = ' ';
    let k = escape_str(p.0);
    let v = escape_str(p.1);
    let r1 = seq![':', sp, '"'] + v + seq!['"'] + rest;
    let core = seq!['"'] + k + seq!['"'] + r1;
    let pre2 = pre + seq![sp, sp];
    let whole = pre + entry_text(p) + rest;
    assert(whole =~= pre2 + core);
    assert(forall|j: int| 0 <= j < pre2.len() ==> crate::text::is_space(#[trigger] pre2[j]));
    crate::text::lemma_trim_start_skip(whole, pre2.len() as int);
    assert(whole.skip(pre2.len() as int) =~= core);
    assert(trim_start_spec(core) == core);
    let t = trim_start_spec(whole);
    assert(t == core);
    assert(t[0] == '"');
    assert(t.drop_first() =~= k + seq!['"'] + r1);
    lemma_scan_escaped(p.0, r1);
    assert(scan_string(t.drop_first()) == Some((p.0, k.len() as int + 1)));
    assert(t.skip(1 + (k.len() + 1) as int) =~= r1);
    assert(trim_start_spec(r1) == r1);
    let t2 = trim_start_spec(t.skip(1 + (k.len() + 1) as int));
    assert(t2 == r1);
    assert(t2[0] == ':');
    assert(t2.drop_first() =~= seq![sp] + (seq!['"'] + v + seq!['"'] + rest));
    crate::text::lemma_trim_start_skip(t2.drop_first(), 1);
    assert(t2.drop_first().skip(1) =~= seq!['"'] + v + seq!['"'] + rest);
    assert(trim_start_spec(seq!['"'] + v + seq!['"'] + rest) == seq!['"'] + v + seq!['"'] + rest);
    let t3 = trim_start_spec(t2.drop_first());
    assert(t3 == seq!['"'] + v + seq!['"'] + rest);
    assert(t3[0] == '"');
    assert(t3.drop_first() =~= v + seq!['"'] + rest);
    lemma_scan_escaped(p.1, rest);
    assert(scan_string(t3.drop_first()) == Some((p.1, v.len() as int + 1)));
    assert(t3.skip(1 + (v.len() + 1) as int) =~= rest);
    assert((p.0, p.1) == p);
}

/// Serialized entries followed by the closing brace parse back to exactly
/// those entries, both as the opening member list and as a continuation.
#[verifier::rlimit(100)]
proof fn lemma_members_round(ps: Seq<(Seq<char>, Seq<char>)>, first: bool)
    ensures
        first && ps.len() > 0 ==> parse_members(
            seq!['\n'] + entries_text(ps) + seq!['}'],
            true,
        ) == Some((ps, Seq::<char>::empty())),
        !first && ps.len() == 0 ==> parse_members(seq!['\n', '}'], false) == Some(
            (Seq::<(Seq<char>, Seq<char>)>::empty(), Seq::<char>::empty()),
        ),
        !first && ps.len() > 0 ==> parse_members(
            seq![',', '\n'] + entries_text(ps) + seq!['}'],
            false,
        ) == Some((ps, Seq::<char>::empty())),
    decreases ps.len(),
{
    reveal_strlit("\n");
    reveal_strlit(",\n");
    reveal_strlit("  \"");
    reveal_strlit("\": \"");
    reveal_strlit("\"");
    if !first && ps.len() == 0 {
        let s = seq!['\n', '}'];
        crate::text::lemma_trim_start_skip(s, 1);
        assert(s.skip(1) =~= seq!['}']);
        assert(trim_start_spec(seq!['}']) == seq!['}']);
        let t = trim_start_spec(s);
        assert(t == seq!['}']);
        assert(t.drop_first() =~= Seq::<char>::empty());
    } else if ps.len() > 0 {
        let p0 = ps[0];
        let tail = ps.drop_first();
        let after: Seq<char> = if tail.len() == 0 {
            seq!['\n', '}']
        } else {
            seq![',', '\n'] + entries_text(tail) + seq!['}']
        };
        assert(entries_text(ps) + seq!['}'] =~= entry_text(p0) + after) by {
            if tail.len() == 0 {
                assert(entries_text(ps) == entry_text(p0) + "\n"@);
                assert("\n"@ =~= seq!['\n']);
            } else {
                assert(entries_text(ps) == entry_text(p0) + ",\n"@ + entries_text(tail));
                assert(",\n"@ =~= seq![',', '\n']);
            }
        }
        let core = seq!['"'] + (escape_str(p0.0) + (seq!['"', ':', ' ', '"'] + escape_str(p0.1)
            + seq!['"'] + after));
        assert(entry_text(p0) + after =~= seq![' ', ' '] + core);
        lemma_members_round(tail, false);
        lemma_parse_entry(p0, after, seq!['\n']);
        assert(parse_members(after, false) == Some((tail, Seq::<char>::empty())));
        assert(seq![p0] + tail =~= ps);
        if first {
            let s = seq!['\n'] + entries_text(ps) + seq!['}'];
            assert(s =~= seq!['\n'] + (entry_text(p0) + after));
            let pre3 = seq!['\n', ' ', ' '];
            assert(s =~= pre3 + core);
            assert(forall|j: int| 0 <= j < pre3.len() ==> crate::text::is_space(
                #[trigger] pre3[j],
            ));
            crate::text::lemma_trim_start_skip(s, 3);
            assert(s.skip(3) =~= core);
            assert(trim_start_spec(core) == core);
            assert(trim_start_spec(s) == core);
            assert(core[0] == '"');
            assert(seq!['\n'] + entry_text(p0) + after =~= s);
            assert(parse_str_pair(s) == Some((p0, after)));
        } else {
            let s = seq![',', '\n'] + entries_text(ps) + seq!['}'];
            assert(trim_start_spec(s) == s);
            assert(s[0] == ',');
            assert(s.drop_first() =~= seq!['\n'] + entry_text(p0) + after) by {
                assert(s =~= seq![','] + (seq!['\n'] + (entry_text(p0) + after)));
            }
            assert(parse_str_pair(s.drop_first()) == Some((p0, after)));
        }
    }
}

/// Law: the canonical serialized form of index pairs parses back to exactly
/// those pairs, so saving the cache index and loading what was written
/// loses nothing.
pub proof fn lemma_index_round_trip(ps: Seq<(Seq<char>, Seq<char>)>)
    ensures
        index_text_spec(json_of_pairs(ps)) == Some(ps),
{
    reveal_strlit("{}");
    reveal_strlit("{\n");
    reveal_strlit("}");
    if ps.len() == 0 {
        let text = "{}"@;
        assert(text =~= seq!['{', '}']);
        assert(trim_start_spec(text) == text);
        assert(text.drop_first() =~= seq!['}']);
        assert(trim_start_spec(seq!['}']) == seq!['}']);
        assert(parse_members(text.drop_first(), true) == Some(
            (Seq::<(Seq<char>, Seq<char>)>::empty(), Seq::<char>::empty()),
        )) by {
            let t = trim_start_spec(seq!['}']);
            assert(t == seq!['}']);
            assert(t.drop_first() =~= Seq::<char>::empty());
        }
        assert(trim_start_spec(Seq::<char>::empty()) == Seq::<char>::empty());
        assert(ps =~= Seq::<(Seq<char>, Seq<char>)>::empty());
    } else {
        let text = json_of_pairs(ps);
        assert("{\n"@ =~= seq!['{', '\n']);
        assert("}"@ =~= seq!['}']);
        let body = seq!['\n'] + entries_text(ps) + seq!['}'];
        assert(text =~= seq!['{'] + body);
        assert(trim_start_spec(text) == text);
        assert(text[0] == '{');
        assert(text.drop_first() =~= body);
        lemma_members_round(ps, true);
        assert(parse_members(text.drop_first(), true) == Some((ps, Seq::<char>::empty())));
        assert(trim_start_spec(Seq::<char>::empty()) == Seq::<char>::empty());
    }
}

} // verus!
