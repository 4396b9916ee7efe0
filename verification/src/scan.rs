//! Character-level scanning shared by the manifest and index grammars:
//! quoted string literals with backslash escapes, and whitespace skipping.
//! Both grammars use the same literal form: a double-quoted run in which
//! `\"`, `\\`, `\/`, `\n`, `\t`, `\r`, `\b` and `\f` stand for themselves
//! and a literal may not span a line break.

use vstd::prelude::*;
use crate::text::{is_space, trim_start_spec, space_char};

verus! {

/// The character an escape letter stands for, if it is a valid escape.
pub open spec fn unescape_char(c: char) -> Option<char> {
    if c == 'n' {
        Some('\n')
    } else if c == 't' {
        Some('\t')
    } else if c == 'r' {
        Some('\r')
    } else if c == 'b' {
        Some('\u{8}')
    } else if c == 'f' {
        Some('\u{c}')
    } else if c == '"' {
        Some('"')
    } else if c == '\\' {
        Some('\\')
    } else if c == '/' {
        Some('/')
    } else {
        None
    }
}

/// Executable twin of `unescape_char`.
pub fn unescape(c: char) -> (r: Option<char>)
    ensures
        r == unescape_char(c),
{
    if c == 'n' {
        Some('\n')
    } else if c == 't' {
        Some('\t')
    } else if c == 'r' {
        Some('\r')
    } else if c == 'b' {
        Some('\u{8}')
    } else if c == 'f' {
        Some('\u{c}')
    } else if c == '"' {
        Some('"')
    } else if c == '\\' {
        Some('\\')
    } else if c == '/' {
        Some('/')
    } else {
        None
    }
}

/// Scans a string literal body positioned right after its opening quote.
/// Yields the decoded contents and the number of characters consumed,
/// including the closing quote; `None` when the literal is unterminated,
/// spans a line break, or holds an unknown escape.
pub open spec fn scan_string(s: Seq<char>) -> Option<(Seq<char>, int)>
    decreases s.len(),
{
    if s.len() == 0 {
        None
    } else if s[0] == '"' {
        Some((Seq::empty(), 1))
    } else if s[0] == '\n' || s[0] == '\r' {
        None
    } else if s[0] == '\\' {
        if s.len() < 2 {
            None
        } else {
            match unescape_char(s[1]) {
                None => None,
                Some(c) => match scan_string(s.skip(2)) {
                    None => None,
                    Some(p) => Some((seq![c] + p.0, p.1 + 2)),
                },
            }
        }
    } else {
        match scan_string(s.skip(1)) {
            None => None,
            Some(p) => Some((seq![s[0]] + p.0, p.1 + 1)),
        }
    }
}

/// A successful scan consumes at least the closing quote and no more than
/// the whole input.
pub proof fn lemma_scan_string_len(s: Seq<char>)
    ensures
        scan_string(s) matches Some(p) ==> 1 <= p.1 <= s.len(),
    decreases s.len(),
{
    if s.len() == 0 {
    } else if s[0] == '"' {
    } else if s[0] == '\n' || s[0] == '\r' {
    } else if s[0] == '\\' {
        if s.len() >= 2 {
            lemma_scan_string_len(s.skip(2));
        }
    } else {
        lemma_scan_string_len(s.skip(1));
    }
}

/// Scans the string literal starting after the opening quote at position
/// `from` of `v`.  On success yields the decoded contents and the position
/// right after the closing quote.
pub fn scan_string_at(v: &Vec<char>, from: usize) -> (r: Option<(String, usize)>)
    requires
        from <= v@.len(),
    ensures
        match r {
            Some(p) => {
                &&& from < p.1 <= v@.len()
                &&& scan_string(v@.skip(from as int)) == Some((p.0@, p.1 - from as int))
            },
            None => scan_string(v@.skip(from as int)) is None,
        },
{
    let mut acc = String::new();
    let mut i: usize = from;
    proof {
        assert(v@.skip(from as int).skip(0) =~= v@.skip(from as int));
    }
    while i < v.len()
        invariant
            from <= i <= v@.len(),
            scan_string(v@.skip(from as int)) == match scan_string(v@.skip(i as int)) {
                None => None::<(Seq<char>, int)>,
                Some(p) => Some((acc@ + p.0, p.1 + i - from)),
            },
        decreases v@.len() - i,
    {
        let c = v[i];
        proof {
            assert(v@.skip(i as int)[0] == c);
            assert(v@.skip(i as int).skip(1) =~= v@.skip(i as int + 1));
        }
        if c == '"' {
            proof {
                assert(scan_string(v@.skip(i as int)) == Some((Seq::<char>::empty(), 1int)));
                assert(acc@ + Seq::<char>::empty() =~= acc@);
            }
            return Some((acc, i + 1));
        }
        if c == '\n' || c == '\r' {
            return None;
        }
        if c == '\\' {
            if i + 1 >= v.len() {
                proof {
                    assert(v@.skip(i as int).len() < 2);
                }
                return None;
            }
            let e = v[i + 1];
            proof {
                assert(v@.skip(i as int)[1] == e);
                assert(v@.skip(i as int).skip(2) =~= v@.skip(i as int + 2));
            }
            match unescape(e) {
                None => {
                    return None;
                },
                Some(u) => {
                    let ghost a0 = acc@;
                    crate::text::push_char(&mut acc, u);
                    proof {
                        let o = scan_string(v@.skip(i as int + 2));
                        if o is Some {
                            assert(a0 + (seq![u] + o->Some_0.0) =~= acc@ + o->Some_0.0);
                        }
                    }
                    i = i + 2;
                },
            }
        } else {
            let ghost a0 = acc@;
            crate::text::push_char(&mut acc, c);
            proof {
                let o = scan_string(v@.skip(i as int + 1));
                if o is Some {
                    assert(a0 + (seq![c] + o->Some_0.0) =~= acc@ + o->Some_0.0);
                }
            }
            i = i + 1;
        }
    }
    proof {
        assert(v@.skip(i as int).len() == 0);
    }
    None
}

/// The position of the first non-whitespace character at or after `from`,
/// or the end of `v`.
pub fn skip_spaces(v: &Vec<char>, from: usize) -> (r: usize)
    requires
        from <= v@.len(),
    ensures
        from <= r <= v@.len(),
        trim_start_spec(v@.skip(from as int)) == v@.skip(r as int),
        r < v@.len() ==> !is_space(v@[r as int]),
{
    let mut i: usize = from;
    while i < v.len() && space_char(v[i])
        invariant
            from <= i <= v@.len(),
            forall|j: int| from <= j < i ==> is_space(v@[j]),
        decreases v@.len() - i,
    {
        i = i + 1;
    }
    proof {
        crate::text::lemma_trim_start_skip(v@.skip(from as int), i - from as int);
        assert(v@.skip(from as int).skip(i - from as int) =~= v@.skip(i as int));
        if i < v@.len() {
            assert(v@.skip(i as int)[0] == v@[i as int]);
            assert(trim_start_spec(v@.skip(i as int)) == v@.skip(i as int));
        } else {
            assert(v@.skip(i as int).len() == 0);
            assert(trim_start_spec(v@.skip(i as int)) == v@.skip(i as int));
        }
    }
    i
}

/// Skipping leading whitespace never lengthens a sequence.
pub proof fn lemma_trim_start_len(s: Seq<char>)
    ensures
        trim_start_spec(s).len() <= s.len(),
        trim_start_spec(s).len() < s.len() || trim_start_spec(s) == s,
    decreases s.len(),
{
    if s.len() > 0 && is_space(s[0]) {
        lemma_trim_start_len(s.drop_first());
    }
}

} // verus!
