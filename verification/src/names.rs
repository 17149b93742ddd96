//! Identifiers: how the names of a schema become the names of its output.

use crate::text::push_char;
use vstd::prelude::*;
use vstd::string::*;

verus! {

/// The index of the first `c` in `s` at or after `from`, and the length of `s`
/// where there is none.
pub open spec fn find_from(s: Seq<char>, c: char, from: int) -> int
    decreases s.len() - from,
{
    if from < 0 || from >= s.len() {
        s.len() as int
    } else if s[from] == c {
        from
    } else {
        find_from(s, c, from + 1)
    }
}

/// `find_from` points at the first `c` from `from` on, or behind the end.
pub proof fn lemma_find_from(s: Seq<char>, c: char, from: int)
    requires
        0 <= from <= s.len(),
    ensures
        from <= find_from(s, c, from) <= s.len(),
        find_from(s, c, from) < s.len() ==> s[find_from(s, c, from)] == c,
        forall|i: int| from <= i < find_from(s, c, from) ==> s[i] != c,
    decreases s.len() - from,
{
    if from < s.len() && s[from] != c {
        lemma_find_from(s, c, from + 1);
    }
}

/// The index of the first `c` in `s` at or after `from`, and the length of `s`
/// in characters where there is none.
pub fn find(s: &str, c: char, from: usize) -> (at: usize)
    ensures
        at == find_from(s@, c, from as int),
        from <= s@.len() ==> from <= at <= s@.len(),
{
    let len: usize = s.unicode_len();
    if from >= len {
        return len;
    }
    let mut i: usize = from;
    while i < len
        invariant
            from <= i <= len,
            len == s@.len(),
            find_from(s@, c, from as int) == find_from(s@, c, i as int),
        decreases len - i,
    {
        if s.get_char(i) == c {
            return i;
        }
        i += 1;
    }
    i
}

/// `c` in upper case where it is one of the letters `a` to `z`, else `c`.
pub open spec fn upper(c: char) -> char {
    if 'a' <= c && c <= 'z' {
        ((c as u8) - 32) as char
    } else {
        c
    }
}

/// `s` with its first character in upper case.
pub open spec fn capitalized(s: Seq<char>) -> Seq<char> {
    if s.len() == 0 {
        s
    } else {
        seq![upper(s[0])] + s.skip(1)
    }
}

/// The part of a qualified name before its first dot: its namespace. A name
/// without a dot has the empty namespace.
pub open spec fn namespace_of(s: Seq<char>) -> Seq<char> {
    let dot = find_from(s, '.', 0);
    if dot < s.len() {
        s.take(dot)
    } else {
        Seq::empty()
    }
}

/// The local part of a qualified name: what stands between its first dot and
/// its second, or its end; the whole name where it has no dot.
pub open spec fn local_of(s: Seq<char>) -> Seq<char> {
    let dot = find_from(s, '.', 0);
    if dot < s.len() {
        s.subrange(dot + 1, find_from(s, '.', dot + 1))
    } else {
        s
    }
}

/// The name under which a field of the schema appears in the output: `kind`
/// for `type`, and the field's own name otherwise.
pub open spec fn field_name(s: Seq<char>) -> Seq<char> {
    if s == "type"@ {
        "kind"@
    } else {
        s
    }
}

/// `c` in upper case where it is one of the letters `a` to `z`, else `c`.
pub fn upper_char(c: char) -> (r: char)
    ensures
        r == upper(c),
{
    if 'a' <= c && c <= 'z' {
        ((c as u8) - 32) as char
    } else {
        c
    }
}

/// `s` with its first character in upper case and the rest unchanged.
pub fn to_uppercase(s: &str) -> (r: String)
    ensures
        r@ == capitalized(s@),
{
    let len: usize = s.unicode_len();
    if len == 0 {
        return String::new();
    }
    let mut r = String::new();
    push_char(&mut r, upper_char(s.get_char(0)));
    r.append(s.substring_char(1, len));
    proof {
        assert(s@.subrange(1, len as int) =~= s@.skip(1));
        assert(r@ =~= capitalized(s@));
    }
    r
}

/// Splits a qualified name into its namespace and its local part.
pub fn split_type(name: &str) -> (r: (String, String))
    ensures
        r.0@ == namespace_of(name@),
        r.1@ == local_of(name@),
{
    let len: usize = name.unicode_len();
    let dot: usize = find(name, '.', 0);
    if dot < len {
        let end: usize = find(name, '.', dot + 1);
        let namespace = String::from_str(name.substring_char(0, dot));
        let local = String::from_str(name.substring_char(dot + 1, end));
        (namespace, local)
    } else {
        (String::new(), String::from_str(name))
    }
}

/// The name of a field in the output.
pub fn field_ident(name: &str) -> (r: String)
    ensures
        r@ == field_name(name@),
{
    let given = String::from_str(name);
    if given == String::from_str("type") {
        String::from_str("kind")
    } else {
        given
    }
}

/// The name of a constructor, or of a type, in the output.
pub fn constructor_ident(name: &str) -> (r: String)
    ensures
        r@ == capitalized(name@),
{
    to_uppercase(name)
}

} // verus!
