//! The schema grouped by namespace, type and constructor.

use crate::keyed::{
    index_of, labels, lemma_index_of, lemma_insert_sorted, lemma_slot, lemma_sorted_distinct, place,
    position, slot, sorted, Named,
};
use crate::names::{capitalized, field_ident, field_name, local_of, namespace_of, split_type, to_uppercase};
use crate::schema::{is_reserved, param_views, reserved, views, DeclView, Param, ParamView, Schema};
use crate::types::{resolve, resolved, ResolvedType, ResolvedView};
use vstd::prelude::*;
use vstd::string::*;

verus! {

/// A field of a constructor.
#[derive(Debug, PartialEq, Eq)]
pub struct FieldDef {
    /// The name of the field in the output.
    pub name: String,
    /// The type of the field.
    pub kind: ResolvedType,
}

/// A constructor of a type: one variant of the sum type.
#[derive(Debug, PartialEq, Eq)]
pub struct ConstructorDef {
    /// The name of the variant.
    pub name: String,
    /// The discriminator of the constructor on the wire.
    pub id: i32,
    /// The fields, in the order of the wire.
    pub fields: Vec<FieldDef>,
}

/// A type of the schema: one sum type. Its constructors are kept in the
/// order of their names.
#[derive(Debug, PartialEq, Eq)]
pub struct TypeDef {
    pub name: String,
    pub constructors: Vec<ConstructorDef>,
}

/// A namespace: its types, kept in the order of their names.
#[derive(Debug, PartialEq, Eq)]
pub struct Namespace {
    pub name: String,
    pub types: Vec<TypeDef>,
}

/// A schema as the types it declares: its namespaces, kept in the order of
/// their names.
#[derive(Debug, PartialEq, Eq)]
pub struct Ast {
    pub namespaces: Vec<Namespace>,
}

/// A [`FieldDef`] as a mathematical value.
pub struct FieldView {
    pub name: Seq<char>,
    pub kind: ResolvedView,
}

/// A [`ConstructorDef`] as a mathematical value.
pub struct ConstructorView {
    pub name: Seq<char>,
    pub id: i32,
    pub fields: Seq<FieldView>,
}

/// A [`TypeDef`] as a mathematical value.
pub struct TypeDefView {
    pub name: Seq<char>,
    pub constructors: Seq<ConstructorView>,
}

/// A [`Namespace`] as a mathematical value.
pub struct NamespaceView {
    pub name: Seq<char>,
    pub types: Seq<TypeDefView>,
}

/// An [`Ast`] as a mathematical value.
pub struct AstView {
    pub namespaces: Seq<NamespaceView>,
}

impl View for FieldDef {
    type V = FieldView;

    open spec fn view(&self) -> FieldView {
        FieldView { name: self.name@, kind: self.kind@ }
    }
}

impl View for ConstructorDef {
    type V = ConstructorView;

    open spec fn view(&self) -> ConstructorView {
        ConstructorView {
            name: self.name@,
            id: self.id,
            fields: Seq::new(self.fields@.len(), |i: int| self.fields@[i]@),
        }
    }
}

impl View for TypeDef {
    type V = TypeDefView;

    open spec fn view(&self) -> TypeDefView {
        TypeDefView {
            name: self.name@,
            constructors: Seq::new(self.constructors@.len(), |i: int| self.constructors@[i]@),
        }
    }
}

impl View for Namespace {
    type V = NamespaceView;

    open spec fn view(&self) -> NamespaceView {
        NamespaceView {
            name: self.name@,
            types: Seq::new(self.types@.len(), |i: int| self.types@[i]@),
        }
    }
}

impl View for Ast {
    type V = AstView;

    open spec fn view(&self) -> AstView {
        AstView { namespaces: Seq::new(self.namespaces@.len(), |i: int| self.namespaces@[i]@) }
    }
}

impl Named for ConstructorDef {
    open spec fn label(&self) -> Seq<char> {
        self.name@
    }

    fn name(&self) -> (n: &String) {
        &self.name
    }
}

impl Named for TypeDef {
    open spec fn label(&self) -> Seq<char> {
        self.name@
    }

    fn name(&self) -> (n: &String) {
        &self.name
    }
}

impl Named for Namespace {
    open spec fn label(&self) -> Seq<char> {
        self.name@
    }

    fn name(&self) -> (n: &String) {
        &self.name
    }
}

/// Why a constructor cannot join a type.
#[derive(Debug, Clone, Copy, PartialEq, Eq, Structural)]
pub enum Clash {
    /// The type has a constructor of that name.
    Name,
    /// The type has a constructor with that discriminator.
    Id,
}

/// The index of the first of `cs`, at or after `from`, whose discriminator is
/// `id`, and the length of `cs` where there is none.
pub open spec fn id_index(cs: Seq<ConstructorView>, id: i32, from: int) -> int
    decreases cs.len() - from,
{
    if from < 0 || from >= cs.len() {
        cs.len() as int
    } else if cs[from].id == id {
        from
    } else {
        id_index(cs, id, from + 1)
    }
}

/// `id_index` points at the first constructor with the discriminator from
/// `from` on, or behind the end.
pub proof fn lemma_id_index(cs: Seq<ConstructorView>, id: i32, from: int)
    requires
        0 <= from <= cs.len(),
    ensures
        from <= id_index(cs, id, from) <= cs.len(),
        id_index(cs, id, from) < cs.len() ==> cs[id_index(cs, id, from)].id == id,
        forall|i: int| from <= i < id_index(cs, id, from) ==> cs[i].id != id,
    decreases cs.len() - from,
{
    if from < cs.len() && cs[from].id != id {
        lemma_id_index(cs, id, from + 1);
    }
}

impl TypeDefView {
    /// The names of the constructors, in their order.
    pub open spec fn names(self) -> Seq<Seq<char>> {
        Seq::new(self.constructors.len(), |i: int| self.constructors[i].name)
    }

    /// Whether the constructors stand in the order of their names, none of
    /// which then occurs twice, and no two of them share a discriminator.
    pub open spec fn wf(self) -> bool {
        &&& sorted(self.names())
        &&& forall|i: int, j: int|
            0 <= i < j < self.constructors.len() ==> self.constructors[i].id
                != self.constructors[j].id
    }

    /// The type with one more constructor, or why it cannot join.
    pub open spec fn put(self, c: ConstructorView) -> Result<TypeDefView, Clash> {
        if index_of(self.names(), c.name, 0) < self.constructors.len() {
            Err(Clash::Name)
        } else if id_index(self.constructors, c.id, 0) < self.constructors.len() {
            Err(Clash::Id)
        } else {
            Ok(
                TypeDefView {
                    name: self.name,
                    constructors: self.constructors.insert(slot(self.names(), c.name, 0), c),
                },
            )
        }
    }

    /// A type with a single constructor.
    pub open spec fn single(name: Seq<char>, c: ConstructorView) -> TypeDefView {
        TypeDefView { name, constructors: seq![c] }
    }

    /// A constructor that joins a well-formed type leaves it well-formed.
    pub proof fn lemma_put_wf(self, c: ConstructorView)
        requires
            self.wf(),
            self.put(c) is Ok,
        ensures
            self.put(c)->Ok_0.wf(),
    {
        let next = self.put(c)->Ok_0;
        let p = slot(self.names(), c.name, 0);
        lemma_index_of(self.names(), c.name, 0);
        lemma_insert_sorted(self.names(), c.name);
        lemma_id_index(self.constructors, c.id, 0);
        assert(next.names() =~= self.names().insert(p, c.name));
        assert forall|i: int, j: int| 0 <= i < j < next.constructors.len() implies next.constructors[i].id
            != next.constructors[j].id by {
            let a = if i < p { i } else { i - 1 };
            let b = if j < p { j } else { j - 1 };
            if i != p && j != p {
                assert(next.constructors[i] == self.constructors[a]);
                assert(next.constructors[j] == self.constructors[b]);
            } else if i == p {
                assert(next.constructors[j] == self.constructors[b]);
            } else {
                assert(next.constructors[i] == self.constructors[a]);
            }
        }
    }

    /// A type with a single constructor is well-formed.
    pub proof fn lemma_single_wf(name: Seq<char>, c: ConstructorView)
        ensures
            Self::single(name, c).wf(),
    {
    }
}

impl NamespaceView {
    /// The names of the types, in their order.
    pub open spec fn names(self) -> Seq<Seq<char>> {
        Seq::new(self.types.len(), |i: int| self.types[i].name)
    }

    /// Whether the types stand in the order of their names, none of which
    /// then occurs twice, and each is well-formed.
    pub open spec fn wf(self) -> bool {
        &&& sorted(self.names())
        &&& forall|i: int| 0 <= i < self.types.len() ==> (#[trigger] self.types[i]).wf()
    }

    /// The namespace with the constructor `c` added to its type `ty`, which
    /// is made where the namespace has none of that name.
    pub open spec fn put(self, ty: Seq<char>, c: ConstructorView) -> Result<NamespaceView, Clash> {
        let at = index_of(self.names(), ty, 0);
        if at < self.types.len() {
            match self.types[at].put(c) {
                Ok(t) => Ok(NamespaceView { name: self.name, types: self.types.update(at, t) }),
                Err(e) => Err(e),
            }
        } else {
            Ok(
                NamespaceView {
                    name: self.name,
                    types: self.types.insert(slot(self.names(), ty, 0), TypeDefView::single(ty, c)),
                },
            )
        }
    }

    /// A namespace with a single type of a single constructor.
    pub open spec fn single(name: Seq<char>, ty: Seq<char>, c: ConstructorView) -> NamespaceView {
        NamespaceView { name, types: seq![TypeDefView::single(ty, c)] }
    }

    /// A constructor that joins a well-formed namespace leaves it well-formed.
    pub proof fn lemma_put_wf(self, ty: Seq<char>, c: ConstructorView)
        requires
            self.wf(),
            self.put(ty, c) is Ok,
        ensures
            self.put(ty, c)->Ok_0.wf(),
    {
        let next = self.put(ty, c)->Ok_0;
        let at = index_of(self.names(), ty, 0);
        lemma_index_of(self.names(), ty, 0);
        if at < self.types.len() {
            self.types[at].lemma_put_wf(c);
            assert(next.names() =~= self.names());
            assert forall|i: int| 0 <= i < next.types.len() implies (#[trigger] next.types[i]).wf() by {
                if i != at {
                    assert(next.types[i] == self.types[i]);
                }
            }
        } else {
            let p = slot(self.names(), ty, 0);
            lemma_insert_sorted(self.names(), ty);
            TypeDefView::lemma_single_wf(ty, c);
            assert(next.names() =~= self.names().insert(p, ty));
            assert forall|i: int| 0 <= i < next.types.len() implies (#[trigger] next.types[i]).wf() by {
                if i < p {
                    assert(next.types[i] == self.types[i]);
                } else if i > p {
                    assert(next.types[i] == self.types[i - 1]);
                }
            }
        }
    }

    /// A namespace with a single type of a single constructor is well-formed.
    pub proof fn lemma_single_wf(name: Seq<char>, ty: Seq<char>, c: ConstructorView)
        ensures
            Self::single(name, ty, c).wf(),
    {
        TypeDefView::lemma_single_wf(ty, c);
    }
}

impl AstView {
    /// The names of the namespaces, in their order.
    pub open spec fn names(self) -> Seq<Seq<char>> {
        Seq::new(self.namespaces.len(), |i: int| self.namespaces[i].name)
    }

    /// Whether the namespaces stand in the order of their names, none of
    /// which then occurs twice, and each is well-formed.
    pub open spec fn wf(self) -> bool {
        &&& sorted(self.names())
        &&& forall|i: int| 0 <= i < self.namespaces.len() ==> (#[trigger] self.namespaces[i]).wf()
    }

    /// The schema with the constructor `c` added to the type `ty` of the
    /// namespace `ns`; namespace and type are made where they are missing.
    pub open spec fn put(self, ns: Seq<char>, ty: Seq<char>, c: ConstructorView) -> Result<
        AstView,
        Clash,
    > {
        let at = index_of(self.names(), ns, 0);
        if at < self.namespaces.len() {
            match self.namespaces[at].put(ty, c) {
                Ok(n) => Ok(AstView { namespaces: self.namespaces.update(at, n) }),
                Err(e) => Err(e),
            }
        } else {
            Ok(
                AstView {
                    namespaces: self.namespaces.insert(
                        slot(self.names(), ns, 0),
                        NamespaceView::single(ns, ty, c),
                    ),
                },
            )
        }
    }

    /// A constructor that joins a well-formed schema leaves it well-formed.
    pub proof fn lemma_put_wf(self, ns: Seq<char>, ty: Seq<char>, c: ConstructorView)
        requires
            self.wf(),
            self.put(ns, ty, c) is Ok,
        ensures
            self.put(ns, ty, c)->Ok_0.wf(),
    {
        let next = self.put(ns, ty, c)->Ok_0;
        let at = index_of(self.names(), ns, 0);
        lemma_index_of(self.names(), ns, 0);
        if at < self.namespaces.len() {
            self.namespaces[at].lemma_put_wf(ty, c);
            assert(next.names() =~= self.names());
            assert forall|i: int| 0 <= i < next.namespaces.len() implies (#[trigger] next.namespaces[i]).wf() by {
                if i != at {
                    assert(next.namespaces[i] == self.namespaces[i]);
                }
            }
        } else {
            let p = slot(self.names(), ns, 0);
            lemma_insert_sorted(self.names(), ns);
            NamespaceView::lemma_single_wf(ns, ty, c);
            assert(next.names() =~= self.names().insert(p, ns));
            assert forall|i: int| 0 <= i < next.namespaces.len() implies (#[trigger] next.namespaces[i]).wf() by {
                if i < p {
                    assert(next.namespaces[i] == self.namespaces[i]);
                } else if i > p {
                    assert(next.namespaces[i] == self.namespaces[i - 1]);
                }
            }
        }
    }
}

impl TypeDef {
    /// The index of the first constructor with the discriminator `id`, and
    /// the number of constructors where there is none.
    pub fn id_position(&self, id: i32) -> (at: usize)
        ensures
            at == id_index(self@.constructors, id, 0),
            at <= self.constructors@.len(),
            at < self.constructors@.len() ==> self.constructors@[at as int].id == id,
    {
        let mut i: usize = 0;
        while i < self.constructors.len()
            invariant
                i <= self.constructors@.len(),
                id_index(self@.constructors, id, 0) == id_index(self@.constructors, id, i as int),
            decreases self.constructors.len() - i,
        {
            if self.constructors[i].id == id {
                return i;
            }
            i += 1;
        }
        i
    }

    /// Adds the constructor `c`. Where it cannot join, the type is unchanged.
    pub fn put(&mut self, c: ConstructorDef) -> (r: Result<(), Clash>)
        ensures
            match old(self)@.put(c@) {
                Ok(next) => r is Ok && final(self)@ == next,
                Err(e) => r == Err::<(), Clash>(e) && final(self)@ == old(self)@,
            },
    {
        proof {
            assert(labels(self.constructors@) =~= self@.names());
        }
        if position(&self.constructors, &c.name) < self.constructors.len() {
            return Err(Clash::Name);
        }
        if self.id_position(c.id) < self.constructors.len() {
            return Err(Clash::Id);
        }
        let at: usize = place(&self.constructors, &c.name);
        let ghost next = old(self)@.put(c@)->Ok_0;
        self.constructors.insert(at, c);
        proof {
            assert(self@.constructors =~= next.constructors);
        }
        Ok(())
    }
}

impl Namespace {
    /// Adds the constructor `c` to the type `ty`, which is made where the
    /// namespace has none of that name. Where the constructor cannot join,
    /// the namespace is unchanged.
    pub fn put(&mut self, ty: String, c: ConstructorDef) -> (r: Result<(), Clash>)
        ensures
            match old(self)@.put(ty@, c@) {
                Ok(next) => r is Ok && final(self)@ == next,
                Err(e) => r == Err::<(), Clash>(e) && final(self)@ == old(self)@,
            },
    {
        proof {
            assert(labels(self.types@) =~= self@.names());
        }
        let at: usize = position(&self.types, &ty);
        if at < self.types.len() {
            let mut t = self.types.remove(at);
            let r = t.put(c);
            self.types.insert(at, t);
            proof {
                match old(self)@.put(ty@, c@) {
                    Ok(next) => {
                        assert(self@.types =~= next.types);
                    },
                    Err(_) => {
                        assert(self@.types =~= old(self)@.types);
                    },
                }
            }
            r
        } else {
            let p: usize = place(&self.types, &ty);
            let ghost next = old(self)@.put(ty@, c@)->Ok_0;
            let mut constructors: Vec<ConstructorDef> = Vec::new();
            constructors.push(c);
            let t = TypeDef { name: ty, constructors };
            proof {
                assert(t@.constructors =~= seq![c@]);
            }
            self.types.insert(p, t);
            proof {
                assert(self@.types =~= next.types);
            }
            Ok(())
        }
    }
}

impl Ast {
    /// Adds the constructor `c` to the type `ty` of the namespace `ns`;
    /// namespace and type are made where they are missing. Where the
    /// constructor cannot join, the schema is unchanged.
    pub fn put(&mut self, ns: String, ty: String, c: ConstructorDef) -> (r: Result<(), Clash>)
        ensures
            match old(self)@.put(ns@, ty@, c@) {
                Ok(next) => r is Ok && final(self)@ == next,
                Err(e) => r == Err::<(), Clash>(e) && final(self)@ == old(self)@,
            },
    {
        proof {
            assert(labels(self.namespaces@) =~= self@.names());
        }
        let at: usize = position(&self.namespaces, &ns);
        if at < self.namespaces.len() {
            let mut n = self.namespaces.remove(at);
            let r = n.put(ty, c);
            self.namespaces.insert(at, n);
            proof {
                match old(self)@.put(ns@, ty@, c@) {
                    Ok(next) => {
                        assert(self@.namespaces =~= next.namespaces);
                    },
                    Err(_) => {
                        assert(self@.namespaces =~= old(self)@.namespaces);
                    },
                }
            }
            r
        } else {
            let p: usize = place(&self.namespaces, &ns);
            let ghost next = old(self)@.put(ns@, ty@, c@)->Ok_0;
            let mut constructors: Vec<ConstructorDef> = Vec::new();
            constructors.push(c);
            let mut types: Vec<TypeDef> = Vec::new();
            types.push(TypeDef { name: ty, constructors });
            let n = Namespace { name: ns, types };
            proof {
                assert(n@.types[0].constructors =~= seq![c@]);
                assert(n@.types =~= seq![TypeDefView::single(ty@, c@)]);
            }
            self.namespaces.insert(p, n);
            proof {
                assert(self@.namespaces =~= next.namespaces);
            }
            Ok(())
        }
    }
}

/// Why a schema declares no types.
#[derive(Debug, Clone, Copy, PartialEq, Eq, Structural)]
pub enum BuildError {
    /// The constructor at index `entry` has a namespace other than that of
    /// its type.
    NamespaceMismatch { entry: usize },
    /// The field at index `param` of the constructor at index `entry` has a
    /// descriptor without meaning.
    BadType { entry: usize, param: usize },
    /// The type of the constructor at index `entry` has a constructor of that
    /// name already.
    DuplicateConstructor { entry: usize },
    /// The type of the constructor at index `entry` has a constructor with
    /// that discriminator already.
    DuplicateId { entry: usize },
}

/// The index of the first of `params`, at or after `from`, whose descriptor
/// has no meaning, and the length of `params` where there is none.
pub open spec fn first_bad(params: Seq<ParamView>, from: int) -> int
    decreases params.len() - from,
{
    if from < 0 || from >= params.len() {
        params.len() as int
    } else if resolved(params[from].kind) is None {
        from
    } else {
        first_bad(params, from + 1)
    }
}

/// The field that a field of the schema becomes.
pub open spec fn field_of(p: ParamView) -> FieldView {
    FieldView { name: field_name(p.name), kind: resolved(p.kind)->Some_0 }
}

/// The fields that the fields of a constructor become, in their order.
pub open spec fn fields_of(params: Seq<ParamView>) -> Seq<FieldView> {
    Seq::new(params.len(), |i: int| field_of(params[i]))
}

/// The constructor that a declaration becomes.
pub open spec fn constructor_of(d: DeclView) -> ConstructorView {
    ConstructorView {
        name: capitalized(local_of(d.predicate)),
        id: d.id,
        fields: fields_of(d.params),
    }
}

impl AstView {
    /// The schema without a type: it has the namespace without a name, and
    /// that is empty.
    pub open spec fn empty() -> AstView {
        AstView { namespaces: seq![NamespaceView { name: Seq::empty(), types: Seq::empty() }] }
    }

    /// The schema after the declaration `d`, which stands at index `entry`.
    ///
    /// A reserved predicate changes nothing. The namespaces of predicate and
    /// type must agree and every field must have a type with a meaning; then
    /// the constructor joins its type under the capitalized names.
    pub open spec fn step(self, d: DeclView, entry: usize) -> Result<AstView, BuildError> {
        if reserved(d.predicate) {
            Ok(self)
        } else if namespace_of(d.predicate) != namespace_of(d.kind) {
            Err(BuildError::NamespaceMismatch { entry })
        } else if first_bad(d.params, 0) < d.params.len() {
            Err(BuildError::BadType { entry, param: first_bad(d.params, 0) as usize })
        } else {
            match self.put(namespace_of(d.kind), capitalized(local_of(d.kind)), constructor_of(d)) {
                Ok(next) => Ok(next),
                Err(Clash::Name) => Err(BuildError::DuplicateConstructor { entry }),
                Err(Clash::Id) => Err(BuildError::DuplicateId { entry }),
            }
        }
    }

    /// The schema after the first `n` of `decls`, or the first failure among
    /// them.
    pub open spec fn built(decls: Seq<DeclView>, n: nat) -> Result<AstView, BuildError>
        decreases n,
    {
        if n == 0 {
            Ok(Self::empty())
        } else {
            match Self::built(decls, (n - 1) as nat) {
                Ok(ast) => ast.step(decls[n - 1], (n - 1) as usize),
                Err(e) => Err(e),
            }
        }
    }

    /// After a failure, later declarations change nothing.
    pub proof fn lemma_built_failed(decls: Seq<DeclView>, m: nat, n: nat)
        requires
            m <= n,
            Self::built(decls, m) is Err,
        ensures
            Self::built(decls, n) == Self::built(decls, m),
        decreases n,
    {
        if m < n {
            Self::lemma_built_failed(decls, m, (n - 1) as nat);
        }
    }

    /// What is built is well-formed.
    pub proof fn lemma_built_wf(decls: Seq<DeclView>, n: nat)
        requires
            Self::built(decls, n) is Ok,
        ensures
            Self::built(decls, n)->Ok_0.wf(),
        decreases n,
    {
        if n == 0 {
            let first = Self::empty();
            assert(first.namespaces[0].wf());
        } else {
            let d = decls[n - 1];
            Self::lemma_built_wf(decls, (n - 1) as nat);
            let before = Self::built(decls, (n - 1) as nat)->Ok_0;
            if !reserved(d.predicate) {
                before.lemma_put_wf(
                    namespace_of(d.kind),
                    capitalized(local_of(d.kind)),
                    constructor_of(d),
                );
            }
        }
    }
}

/// The fields that the fields of a constructor become, or the index of the
/// first whose descriptor has no meaning.
pub fn fields(params: &Vec<Param>) -> (r: Result<Vec<FieldDef>, usize>)
    ensures
        match r {
            Ok(fs) => {
                &&& first_bad(param_views(params@), 0) == params@.len()
                &&& Seq::new(fs@.len(), |i: int| fs@[i]@) == fields_of(param_views(params@))
            },
            Err(at) => at < params@.len() && at == first_bad(param_views(params@), 0),
        },
{
    let ghost all = param_views(params@);
    let mut fs: Vec<FieldDef> = Vec::with_capacity(params.len());
    let mut i: usize = 0;
    while i < params.len()
        invariant
            i <= params@.len(),
            all == param_views(params@),
            first_bad(all, 0) == first_bad(all, i as int),
            fs@.len() == i,
            forall|j: int| 0 <= j < i ==> (#[trigger] fs@[j])@ == field_of(all[j]),
        decreases params.len() - i,
    {
        let p = &params[i];
        match resolve(p.kind.as_str()) {
            Some(kind) => {
                fs.push(FieldDef { name: field_ident(p.name.as_str()), kind });
            },
            None => {
                return Err(i);
            },
        }
        i += 1;
    }
    proof {
        assert(Seq::new(fs@.len(), |j: int| fs@[j]@) =~= fields_of(all));
    }
    Ok(fs)
}

impl Ast {
    /// Groups the constructors of a schema by namespace and type.
    ///
    /// The declarations are taken in their order, and the first one that
    /// cannot be taken ends the work with its failure.
    pub fn new(schema: &Schema) -> (r: Result<Ast, BuildError>)
        ensures
            match r {
                Ok(ast) => {
                    &&& AstView::built(
                        views(schema.constructors@),
                        schema.constructors@.len(),
                    ) == Ok::<AstView, BuildError>(ast@)
                    &&& ast@.wf()
                },
                Err(e) => AstView::built(views(schema.constructors@), schema.constructors@.len())
                    == Err::<AstView, BuildError>(e),
            },
    {
        let ghost decls = views(schema.constructors@);
        let mut namespaces: Vec<Namespace> = Vec::new();
        namespaces.push(Namespace { name: String::new(), types: Vec::new() });
        let mut ast = Ast { namespaces };
        proof {
            assert(ast@.namespaces[0].types =~= Seq::empty());
            assert(ast@.namespaces =~= AstView::empty().namespaces);
        }
        let n: usize = schema.constructors.len();
        let mut i: usize = 0;
        while i < n
            invariant
                i <= n,
                n == schema.constructors@.len(),
                decls == views(schema.constructors@),
                AstView::built(decls, i as nat) == Ok::<AstView, BuildError>(ast@),
            decreases n - i,
        {
            let d = &schema.constructors[i];
            let ghost before = ast@;
            assert(decls[i as int] == d@);
            if !is_reserved(&d.predicate) {
                let (predicate_ns, predicate) = split_type(d.predicate.as_str());
                let (kind_ns, kind) = split_type(d.kind.as_str());
                if predicate_ns != kind_ns {
                    proof {
                        AstView::lemma_built_failed(decls, (i + 1) as nat, n as nat);
                    }
                    return Err(BuildError::NamespaceMismatch { entry: i });
                }
                let fs = match fields(&d.params) {
                    Ok(fs) => fs,
                    Err(param) => {
                        proof {
                            AstView::lemma_built_failed(decls, (i + 1) as nat, n as nat);
                        }
                        return Err(BuildError::BadType { entry: i, param });
                    },
                };
                let c = ConstructorDef { name: to_uppercase(predicate.as_str()), id: d.id, fields: fs };
                assert(c@ == constructor_of(d@));
                match ast.put(kind_ns, to_uppercase(kind.as_str()), c) {
                    Ok(()) => {},
                    Err(Clash::Name) => {
                        proof {
                            AstView::lemma_built_failed(decls, (i + 1) as nat, n as nat);
                        }
                        return Err(BuildError::DuplicateConstructor { entry: i });
                    },
                    Err(Clash::Id) => {
                        proof {
                            AstView::lemma_built_failed(decls, (i + 1) as nat, n as nat);
                        }
                        return Err(BuildError::DuplicateId { entry: i });
                    },
                }
            }
            i += 1;
        }
        proof {
            AstView::lemma_built_wf(decls, n as nat);
        }
        Ok(ast)
    }
}

impl TypeDefView {
    /// Whether the type has a constructor of the name `name`.
    pub open spec fn has(self, name: Seq<char>) -> bool {
        exists|k: int|
            0 <= k < self.constructors.len() && (#[trigger] self.constructors[k]).name == name
    }

    /// A type keeps its constructors when one joins, and has the one that
    /// joined.
    pub proof fn lemma_put_has(self, c: ConstructorView, name: Seq<char>)
        requires
            self.put(c) is Ok,
        ensures
            self.put(c)->Ok_0.has(c.name),
            self.has(name) ==> self.put(c)->Ok_0.has(name),
            self.put(c)->Ok_0.name == self.name,
    {
        let next = self.put(c)->Ok_0;
        let p = slot(self.names(), c.name, 0);
        lemma_slot(self.names(), c.name, 0);
        assert(next.constructors[p] == c);
        if self.has(name) {
            let k = choose|k: int|
                0 <= k < self.constructors.len() && (#[trigger] self.constructors[k]).name == name;
            let moved = if k < p {
                k
            } else {
                k + 1
            };
            assert(next.constructors[moved] == self.constructors[k]);
        }
    }

    /// A constructor cannot join a type that has one of its name.
    pub proof fn lemma_has_clashes(self, c: ConstructorView)
        requires
            self.has(c.name),
        ensures
            self.put(c) == Err::<TypeDefView, Clash>(Clash::Name),
    {
        let k = choose|k: int|
            0 <= k < self.constructors.len() && (#[trigger] self.constructors[k]).name == c.name;
        lemma_index_of(self.names(), c.name, 0);
        assert(self.names()[k] == c.name);
    }
}

impl NamespaceView {
    /// Whether the namespace has a type `ty` with a constructor `name`.
    pub open spec fn has(self, ty: Seq<char>, name: Seq<char>) -> bool {
        exists|j: int|
            0 <= j < self.types.len() && (#[trigger] self.types[j]).name == ty
                && self.types[j].has(name)
    }

    /// A namespace keeps its constructors when one joins, and has the one
    /// that joined.
    pub proof fn lemma_put_has(
        self,
        ty: Seq<char>,
        c: ConstructorView,
        other: Seq<char>,
        name: Seq<char>,
    )
        requires
            self.put(ty, c) is Ok,
        ensures
            self.put(ty, c)->Ok_0.has(ty, c.name),
            self.has(other, name) ==> self.put(ty, c)->Ok_0.has(other, name),
            self.put(ty, c)->Ok_0.name == self.name,
    {
        let next = self.put(ty, c)->Ok_0;
        let at = index_of(self.names(), ty, 0);
        lemma_index_of(self.names(), ty, 0);
        if at < self.types.len() {
            let t = self.types[at].put(c)->Ok_0;
            assert(self.names()[at] == ty);
            self.types[at].lemma_put_has(c, name);
            assert(next.types[at] == t);
            if self.has(other, name) {
                let j = choose|j: int|
                    0 <= j < self.types.len() && (#[trigger] self.types[j]).name == other
                        && self.types[j].has(name);
                if j != at {
                    assert(next.types[j] == self.types[j]);
                }
            }
        } else {
            let p = slot(self.names(), ty, 0);
            lemma_slot(self.names(), ty, 0);
            let t = TypeDefView::single(ty, c);
            assert(t.constructors[0] == c);
            assert(next.types[p] == t);
            if self.has(other, name) {
                let j = choose|j: int|
                    0 <= j < self.types.len() && (#[trigger] self.types[j]).name == other
                        && self.types[j].has(name);
                let moved = if j < p {
                    j
                } else {
                    j + 1
                };
                assert(next.types[moved] == self.types[j]);
            }
        }
    }

    /// A constructor cannot join a well-formed namespace that has one of its
    /// name under its type.
    pub proof fn lemma_has_clashes(self, ty: Seq<char>, c: ConstructorView)
        requires
            self.wf(),
            self.has(ty, c.name),
        ensures
            self.put(ty, c) == Err::<NamespaceView, Clash>(Clash::Name),
    {
        let j = choose|j: int|
            0 <= j < self.types.len() && (#[trigger] self.types[j]).name == ty
                && self.types[j].has(c.name);
        let at = index_of(self.names(), ty, 0);
        lemma_index_of(self.names(), ty, 0);
        assert(self.names()[j] == ty);
        lemma_sorted_distinct(self.names(), at, j);
        self.types[j].lemma_has_clashes(c);
    }
}

impl AstView {
    /// Whether the schema has a constructor `name` under the type `ty` of
    /// the namespace `ns`.
    pub open spec fn has(self, ns: Seq<char>, ty: Seq<char>, name: Seq<char>) -> bool {
        exists|i: int|
            0 <= i < self.namespaces.len() && (#[trigger] self.namespaces[i]).name == ns
                && self.namespaces[i].has(ty, name)
    }

    /// A schema keeps its constructors when one joins, and has the one that
    /// joined.
    pub proof fn lemma_put_has(
        self,
        ns: Seq<char>,
        ty: Seq<char>,
        c: ConstructorView,
        space: Seq<char>,
        other: Seq<char>,
        name: Seq<char>,
    )
        requires
            self.put(ns, ty, c) is Ok,
        ensures
            self.put(ns, ty, c)->Ok_0.has(ns, ty, c.name),
            self.has(space, other, name) ==> self.put(ns, ty, c)->Ok_0.has(space, other, name),
    {
        let next = self.put(ns, ty, c)->Ok_0;
        let at = index_of(self.names(), ns, 0);
        lemma_index_of(self.names(), ns, 0);
        if at < self.namespaces.len() {
            let n = self.namespaces[at].put(ty, c)->Ok_0;
            assert(self.names()[at] == ns);
            self.namespaces[at].lemma_put_has(ty, c, other, name);
            assert(next.namespaces[at] == n);
            if self.has(space, other, name) {
                let i = choose|i: int|
                    0 <= i < self.namespaces.len() && (#[trigger] self.namespaces[i]).name
                        == space && self.namespaces[i].has(other, name);
                if i != at {
                    assert(next.namespaces[i] == self.namespaces[i]);
                }
            }
        } else {
            let p = slot(self.names(), ns, 0);
            lemma_slot(self.names(), ns, 0);
            let n = NamespaceView::single(ns, ty, c);
            assert(n.types[0] == TypeDefView::single(ty, c));
            assert(n.types[0].constructors[0] == c);
            assert(n.types[0].has(c.name));
            assert(next.namespaces[p] == n);
            if self.has(space, other, name) {
                let i = choose|i: int|
                    0 <= i < self.namespaces.len() && (#[trigger] self.namespaces[i]).name
                        == space && self.namespaces[i].has(other, name);
                let moved = if i < p {
                    i
                } else {
                    i + 1
                };
                assert(next.namespaces[moved] == self.namespaces[i]);
            }
        }
    }

    /// A constructor cannot join a well-formed schema that has one of its
    /// name under its type.
    pub proof fn lemma_has_clashes(self, ns: Seq<char>, ty: Seq<char>, c: ConstructorView)
        requires
            self.wf(),
            self.has(ns, ty, c.name),
        ensures
            self.put(ns, ty, c) == Err::<AstView, Clash>(Clash::Name),
    {
        let i = choose|i: int|
            0 <= i < self.namespaces.len() && (#[trigger] self.namespaces[i]).name == ns
                && self.namespaces[i].has(ty, c.name);
        let at = index_of(self.names(), ns, 0);
        lemma_index_of(self.names(), ns, 0);
        assert(self.names()[i] == ns);
        lemma_sorted_distinct(self.names(), at, i);
        self.namespaces[i].lemma_has_clashes(ty, c);
    }

    /// What was built from the first `m` declarations and had a constructor
    /// still has it after `n` of them, if these could all be taken.
    pub proof fn lemma_built_keeps(
        decls: Seq<DeclView>,
        m: nat,
        n: nat,
        ns: Seq<char>,
        ty: Seq<char>,
        name: Seq<char>,
    )
        requires
            m <= n,
            Self::built(decls, n) is Ok,
            Self::built(decls, m) is Ok ==> Self::built(decls, m)->Ok_0.has(ns, ty, name),
        ensures
            Self::built(decls, m) is Ok,
            Self::built(decls, n)->Ok_0.has(ns, ty, name),
        decreases n,
    {
        if m < n {
            let d = decls[n - 1];
            Self::lemma_built_keeps(decls, m, (n - 1) as nat, ns, ty, name);
            let before = Self::built(decls, (n - 1) as nat)->Ok_0;
            if !reserved(d.predicate) {
                before.lemma_put_has(
                    namespace_of(d.kind),
                    capitalized(local_of(d.kind)),
                    constructor_of(d),
                    ns,
                    ty,
                    name,
                );
            }
        }
    }
}

impl AstView {
    /// What could be built from `n` declarations could be built from fewer.
    pub proof fn lemma_built_before(decls: Seq<DeclView>, m: nat, n: nat)
        requires
            m <= n,
            Self::built(decls, n) is Ok,
        ensures
            Self::built(decls, m) is Ok,
    {
        if Self::built(decls, m) is Err {
            Self::lemma_built_failed(decls, m, n);
        }
    }
}

/// A field that the schema calls `type` is called `kind` in the constructor
/// that its declaration becomes, and every other field keeps its name. The
/// output takes the names of fields from there alone.
pub proof fn lemma_type_becomes_kind(d: DeclView, i: int)
    requires
        0 <= i < d.params.len(),
    ensures
        constructor_of(d).fields.len() == d.params.len(),
        d.params[i].name == "type"@ ==> constructor_of(d).fields[i].name == "kind"@,
        d.params[i].name != "type"@ ==> constructor_of(d).fields[i].name == d.params[i].name,
{
}

/// A schema with a constructor whose namespace is not that of its type
/// declares no types: building it fails.
pub proof fn lemma_mismatch_aborts(decls: Seq<DeclView>, i: int)
    requires
        0 <= i < decls.len(),
        !reserved(decls[i].predicate),
        namespace_of(decls[i].predicate) != namespace_of(decls[i].kind),
    ensures
        AstView::built(decls, decls.len()) is Err,
{
    if AstView::built(decls, i as nat) is Ok {
        assert(AstView::built(decls, (i + 1) as nat) is Err);
        AstView::lemma_built_failed(decls, (i + 1) as nat, decls.len());
    } else {
        AstView::lemma_built_failed(decls, i as nat, decls.len());
    }
}

/// A schema with two constructors of one name under one type declares no
/// types: building it fails.
pub proof fn lemma_duplicate_aborts(decls: Seq<DeclView>, i: int, j: int)
    requires
        0 <= i < j < decls.len(),
        !reserved(decls[i].predicate),
        !reserved(decls[j].predicate),
        namespace_of(decls[i].kind) == namespace_of(decls[j].kind),
        capitalized(local_of(decls[i].kind)) == capitalized(local_of(decls[j].kind)),
        capitalized(local_of(decls[i].predicate)) == capitalized(local_of(decls[j].predicate)),
    ensures
        AstView::built(decls, decls.len()) is Err,
{
    let ns = namespace_of(decls[i].kind);
    let ty = capitalized(local_of(decls[i].kind));
    let c = constructor_of(decls[i]);
    if AstView::built(decls, (j + 1) as nat) is Ok {
        let at_j = AstView::built(decls, j as nat)->Ok_0;
        AstView::lemma_built_before(decls, (i + 1) as nat, j as nat);
        let at_i = AstView::built(decls, i as nat)->Ok_0;
        at_i.lemma_put_has(ns, ty, c, ns, ty, c.name);
        AstView::lemma_built_keeps(decls, (i + 1) as nat, j as nat, ns, ty, c.name);
        AstView::lemma_built_wf(decls, j as nat);
        at_j.lemma_has_clashes(ns, ty, constructor_of(decls[j]));
        assert(false);
    }
    AstView::lemma_built_failed(decls, (j + 1) as nat, decls.len());
}

impl AstView {
    /// The type `name` of the namespace `ns`, where the schema has it.
    pub open spec fn type_of(self, ns: Seq<char>, name: Seq<char>) -> Option<TypeDefView> {
        let i = index_of(self.names(), ns, 0);
        if i < self.namespaces.len() {
            let j = index_of(self.namespaces[i].names(), name, 0);
            if j < self.namespaces[i].types.len() {
                Some(self.namespaces[i].types[j])
            } else {
                None
            }
        } else {
            None
        }
    }
}

impl Ast {
    /// The type `name` of the namespace `ns`, where the schema has it.
    pub fn find(&self, ns: &String, name: &String) -> (r: Option<&TypeDef>)
        ensures
            match r {
                Some(t) => self@.type_of(ns@, name@) == Some(t@),
                None => self@.type_of(ns@, name@) is None,
            },
    {
        proof {
            assert(labels(self.namespaces@) =~= self@.names());
        }
        let i: usize = position(&self.namespaces, ns);
        if i < self.namespaces.len() {
            let n = &self.namespaces[i];
            proof {
                assert(labels(n.types@) =~= n@.names());
            }
            let j: usize = position(&n.types, name);
            if j < n.types.len() {
                Some(&n.types[j])
            } else {
                None
            }
        } else {
            None
        }
    }
}

} // verus!
