//! Type descriptors: what the type of a field, as the schema writes it, means.

use crate::names::{
    capitalized, find, find_from, lemma_find_from, local_of, namespace_of, split_type,
    to_uppercase,
};
use vstd::prelude::*;
use vstd::string::*;

verus! {

/// The kinds of value that the wire format knows by itself.
#[derive(Debug, Clone, Copy, PartialEq, Eq, Structural)]
pub enum Primitive {
    /// A 32-bit signed integer, `int` in a schema.
    Int,
    /// A 64-bit signed integer, `long` in a schema.
    Long,
    /// A 64-bit IEEE-754 number, `double` in a schema.
    Double,
    /// A sequence of bytes, `bytes` in a schema.
    Bytes,
    /// Text in UTF-8, `string` in a schema.
    Text,
}

/// The meaning of a type descriptor.
#[derive(Debug, PartialEq, Eq)]
pub enum ResolvedType {
    Primitive(Primitive),
    /// A sequence of values of one type.
    Sequence(Box<ResolvedType>),
    /// A type of the schema, by namespace and capitalized name.
    Reference { namespace: String, name: String },
}

/// A [`ResolvedType`] with its names as sequences of characters.
pub enum ResolvedView {
    Primitive(Primitive),
    Sequence(Box<ResolvedView>),
    Reference { namespace: Seq<char>, name: Seq<char> },
}

impl ResolvedType {
    /// The type with its names as sequences of characters.
    pub open spec fn model(self) -> ResolvedView
        decreases self,
    {
        match self {
            ResolvedType::Primitive(p) => ResolvedView::Primitive(p),
            ResolvedType::Sequence(inner) => ResolvedView::Sequence(Box::new((*inner).model())),
            ResolvedType::Reference { namespace, name } => ResolvedView::Reference {
                namespace: namespace@,
                name: name@,
            },
        }
    }
}

impl View for ResolvedType {
    type V = ResolvedView;

    open spec fn view(&self) -> ResolvedView {
        self.model()
    }
}

/// The index of the `>` that closes the innermost of `depth` brackets open at
/// `from`, and the length of `s` where none of them is closed.
pub open spec fn closing(s: Seq<char>, from: int, depth: nat) -> int
    decreases s.len() - from,
{
    if from < 0 || from >= s.len() {
        s.len() as int
    } else if s[from] == '>' {
        if depth <= 1 {
            from
        } else {
            closing(s, from + 1, (depth - 1) as nat)
        }
    } else if s[from] == '<' {
        closing(s, from + 1, depth + 1)
    } else {
        closing(s, from + 1, depth)
    }
}

/// `closing` points at or behind `from`, and never behind the end.
pub proof fn lemma_closing_bounds(s: Seq<char>, from: int, depth: nat)
    requires
        0 <= from <= s.len(),
    ensures
        from <= closing(s, from, depth) <= s.len(),
    decreases s.len() - from,
{
    if from < s.len() {
        if s[from] == '>' {
            if depth > 1 {
                lemma_closing_bounds(s, from + 1, (depth - 1) as nat);
            }
        } else if s[from] == '<' {
            lemma_closing_bounds(s, from + 1, depth + 1);
        } else {
            lemma_closing_bounds(s, from + 1, depth);
        }
    }
}

/// The primitive that a keyword of the schema names.
pub open spec fn keyword(s: Seq<char>) -> Option<Primitive> {
    if s == "int"@ {
        Some(Primitive::Int)
    } else if s == "long"@ {
        Some(Primitive::Long)
    } else if s == "double"@ {
        Some(Primitive::Double)
    } else if s == "bytes"@ {
        Some(Primitive::Bytes)
    } else if s == "string"@ {
        Some(Primitive::Text)
    } else {
        None
    }
}

/// The meaning of the descriptor `s`, and `None` where it opens a bracket that
/// it does not close.
///
/// A keyword names a primitive. A descriptor with a `<` is a sequence of what
/// stands between its first `<` and the `>` that matches it. Anything else is
/// a qualified name and refers to a type of the schema.
pub open spec fn resolved(s: Seq<char>) -> Option<ResolvedView>
    decreases s.len(),
{
    if let Some(p) = keyword(s) {
        Some(ResolvedView::Primitive(p))
    } else {
        let open = find_from(s, '<', 0);
        if open < s.len() {
            let close = closing(s, open + 1, 1);
            if 0 <= open && open < close && close < s.len() {
                match resolved(s.subrange(open + 1, close)) {
                    Some(inner) => Some(ResolvedView::Sequence(Box::new(inner))),
                    None => None,
                }
            } else {
                None
            }
        } else {
            Some(ResolvedView::Reference { namespace: namespace_of(s), name: capitalized(local_of(s)) })
        }
    }
}

/// Whether two texts are the same.
pub fn same_text(a: &str, b: &str) -> (r: bool)
    ensures
        r == (a@ == b@),
{
    String::from_str(a) == String::from_str(b)
}

/// The primitive that a keyword of the schema names.
pub fn primitive_of(s: &str) -> (r: Option<Primitive>)
    ensures
        r == keyword(s@),
{
    if same_text(s, "int") {
        Some(Primitive::Int)
    } else if same_text(s, "long") {
        Some(Primitive::Long)
    } else if same_text(s, "double") {
        Some(Primitive::Double)
    } else if same_text(s, "bytes") {
        Some(Primitive::Bytes)
    } else if same_text(s, "string") {
        Some(Primitive::Text)
    } else {
        None
    }
}

/// The index of the `>` that matches a `<` just before `from`, and the length
/// of `s` in characters where there is none.
pub fn matching(s: &str, from: usize) -> (at: usize)
    ensures
        at == closing(s@, from as int, 1),
{
    let len: usize = s.unicode_len();
    if from >= len {
        return len;
    }
    let mut i: usize = from;
    let mut nested: usize = 0;
    while i < len
        invariant
            from <= i <= len,
            len == s@.len(),
            nested <= i - from,
            closing(s@, from as int, 1) == closing(s@, i as int, (nested + 1) as nat),
        decreases len - i,
    {
        let c = s.get_char(i);
        if c == '>' {
            if nested == 0 {
                return i;
            }
            nested -= 1;
        } else if c == '<' {
            nested += 1;
        }
        i += 1;
    }
    i
}

/// Resolves a type descriptor.
pub fn resolve(s: &str) -> (r: Option<ResolvedType>)
    ensures
        match r {
            Some(t) => resolved(s@) == Some(t@),
            None => resolved(s@) is None,
        },
    decreases s@.len(),
{
    if let Some(p) = primitive_of(s) {
        return Some(ResolvedType::Primitive(p));
    }
    let len: usize = s.unicode_len();
    let open: usize = find(s, '<', 0);
    if open < len {
        let close: usize = matching(s, open + 1);
        proof {
            lemma_closing_bounds(s@, open + 1, 1);
        }
        if close < len {
            match resolve(s.substring_char(open + 1, close)) {
                Some(inner) => Some(ResolvedType::Sequence(Box::new(inner))),
                None => None,
            }
        } else {
            None
        }
    } else {
        let (namespace, local) = split_type(s);
        Some(ResolvedType::Reference { namespace, name: to_uppercase(local.as_str()) })
    }
}

} // verus!
