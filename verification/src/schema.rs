//! The records that a schema is made of.

use vstd::prelude::*;
use vstd::string::*;

verus! {

/// A field of a constructor: its name and the descriptor of its type.
#[derive(Debug, Clone, PartialEq, Eq)]
pub struct Param {
    pub name: String,
    pub kind: String,
}

/// A constructor as the schema declares it.
#[derive(Debug, Clone, PartialEq, Eq)]
pub struct Constructor {
    /// The discriminator of the constructor on the wire.
    pub id: i32,
    /// The qualified name of the constructor.
    pub predicate: String,
    /// The fields, in the order of the wire.
    pub params: Vec<Param>,
    /// The qualified name of the type that the constructor belongs to.
    pub kind: String,
}

/// A method as the schema declares it. Methods take no part in the types.
#[derive(Debug, Clone, PartialEq, Eq)]
pub struct Method {
    pub id: i32,
    pub method: String,
    pub params: Vec<Param>,
    pub kind: String,
}

/// A schema: its constructors and its methods.
#[derive(Debug, Clone, PartialEq, Eq)]
pub struct Schema {
    pub constructors: Vec<Constructor>,
    pub methods: Vec<Method>,
}

/// A [`Param`] with its texts as sequences of characters.
pub struct ParamView {
    pub name: Seq<char>,
    pub kind: Seq<char>,
}

/// A [`Constructor`] with its texts as sequences of characters.
pub struct DeclView {
    pub id: i32,
    pub predicate: Seq<char>,
    pub params: Seq<ParamView>,
    pub kind: Seq<char>,
}

impl View for Param {
    type V = ParamView;

    open spec fn view(&self) -> ParamView {
        ParamView { name: self.name@, kind: self.kind@ }
    }
}

/// The fields of `v`, each by its view.
pub open spec fn param_views(v: Seq<Param>) -> Seq<ParamView> {
    Seq::new(v.len(), |i: int| v[i]@)
}

impl View for Constructor {
    type V = DeclView;

    open spec fn view(&self) -> DeclView {
        DeclView {
            id: self.id,
            predicate: self.predicate@,
            params: param_views(self.params@),
            kind: self.kind@,
        }
    }
}

/// The constructors of `v`, each by its view.
pub open spec fn views(v: Seq<Constructor>) -> Seq<DeclView> {
    Seq::new(v.len(), |i: int| v[i]@)
}

/// Whether a predicate is one of those that stand for no type of their own.
pub open spec fn reserved(predicate: Seq<char>) -> bool {
    predicate == "vector"@ || predicate == "peerSettings"@ || predicate == "true"@
}

/// Whether a predicate is one of those that stand for no type of their own.
pub fn is_reserved(predicate: &String) -> (r: bool)
    ensures
        r == reserved(predicate@),
{
    *predicate == String::from_str("vector") || *predicate == String::from_str("peerSettings")
        || *predicate == String::from_str("true")
}

} // verus!
