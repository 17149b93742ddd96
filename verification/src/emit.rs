//! The Rust source that a schema stands for.
//!
//! Each type of the schema becomes an enum with one variant per constructor
//! and an implementation of the codec trait: the discriminator first, then
//! the fields in their order. The types of a named namespace stand in a
//! module of that name. Namespaces, types and constructors are written in the
//! order in which the schema keeps them, so one schema always gives one text.
//!
//! The text is made to stand in any module that has the names `TLType`,
//! `Writer`, `Reader`, `Error` and `Double` of this library in scope. It
//! names the types of the schema from where it stands, and a field of such a
//! type is boxed, so that a type may hold values of itself.

use crate::ast::{
    Ast, AstView, ConstructorDef, ConstructorView, FieldDef, FieldView, Namespace, NamespaceView,
    TypeDef, TypeDefView,
};
use crate::text::{number, push_number};
use crate::types::{Primitive, ResolvedType, ResolvedView};
use vstd::prelude::*;
use vstd::string::*;

verus! {

/// `acc`, and behind it the Rust type of a field of type `t`. A type of the
/// schema is named from where the text stands: inside the module of a
/// namespace if `nested`, and beside the modules otherwise.
pub open spec fn type_text(acc: Seq<char>, t: ResolvedView, nested: bool) -> Seq<char>
    decreases t,
{
    match t {
        ResolvedView::Primitive(Primitive::Int) => acc + "i32"@,
        ResolvedView::Primitive(Primitive::Long) => acc + "i64"@,
        ResolvedView::Primitive(Primitive::Double) => acc + "Double"@,
        ResolvedView::Primitive(Primitive::Bytes) => acc + "Vec<u8>"@,
        ResolvedView::Primitive(Primitive::Text) => acc + "String"@,
        ResolvedView::Sequence(inner) => type_text(acc + "Vec<"@, *inner, nested) + ">"@,
        ResolvedView::Reference { namespace, name } => {
            let head = if nested {
                acc + "Box<super::"@
            } else {
                acc + "Box<"@
            };
            if namespace.len() == 0 {
                head + name + ">"@
            } else {
                head + namespace + "::"@ + name + ">"@
            }
        },
    }
}

/// Appends the Rust type of a field of type `t`.
pub fn type_str(out: &mut String, t: &ResolvedType, nested: bool)
    ensures
        final(out)@ == type_text(old(out)@, t@, nested),
    decreases t,
{
    match t {
        ResolvedType::Primitive(Primitive::Int) => out.append("i32"),
        ResolvedType::Primitive(Primitive::Long) => out.append("i64"),
        ResolvedType::Primitive(Primitive::Double) => out.append("Double"),
        ResolvedType::Primitive(Primitive::Bytes) => out.append("Vec<u8>"),
        ResolvedType::Primitive(Primitive::Text) => out.append("String"),
        ResolvedType::Sequence(inner) => {
            out.append("Vec<");
            type_str(out, inner, nested);
            out.append(">");
        },
        ResolvedType::Reference { namespace, name } => {
            if nested {
                out.append("Box<super::");
            } else {
                out.append("Box<");
            }
            if !namespace.as_str().is_empty() {
                out.append(namespace.as_str());
                out.append("::");
            }
            out.append(name.as_str());
            out.append(">");
        },
    }
}

/// `acc`, and behind it a field as the variant declares it.
pub open spec fn declared(acc: Seq<char>, f: FieldView, nested: bool) -> Seq<char> {
    type_text(acc + " "@ + f.name + ": "@, f.kind, nested) + ","@
}

/// `acc`, and behind it a field as a pattern binds it.
pub open spec fn bound(acc: Seq<char>, f: FieldView) -> Seq<char> {
    acc + " "@ + f.name + ","@
}

/// `acc`, and behind it the statement that writes a field.
pub open spec fn written(acc: Seq<char>, f: FieldView) -> Seq<char> {
    acc + "                "@ + f.name + ".serialize(out)?;\n"@
}

/// `acc`, and behind it the line that reads a field.
pub open spec fn read(acc: Seq<char>, f: FieldView) -> Seq<char> {
    acc + "                "@ + f.name + ": TLType::deserialize(input)?,\n"@
}

/// The four places in which the fields of a constructor are written.
#[derive(Debug, Clone, Copy, PartialEq, Eq, Structural)]
pub enum Place {
    Declared { nested: bool },
    Bound,
    Written,
    Read,
}

/// `acc`, and behind it a field as it is written at `place`.
pub open spec fn field_text(acc: Seq<char>, f: FieldView, place: Place) -> Seq<char> {
    match place {
        Place::Declared { nested } => declared(acc, f, nested),
        Place::Bound => bound(acc, f),
        Place::Written => written(acc, f),
        Place::Read => read(acc, f),
    }
}

/// `acc`, and behind it the first `n` of `fields` as they are written at
/// `place`.
pub open spec fn fields_text(acc: Seq<char>, fields: Seq<FieldView>, n: nat, place: Place) -> Seq<
    char,
>
    decreases n,
{
    if n == 0 {
        acc
    } else {
        field_text(fields_text(acc, fields, (n - 1) as nat, place), fields[n - 1], place)
    }
}

/// Appends the fields as they are written at `place`.
pub fn emit_fields(out: &mut String, fields: &Vec<FieldDef>, place: Place)
    ensures
        final(out)@ == fields_text(
            old(out)@,
            Seq::new(fields@.len(), |i: int| fields@[i]@),
            fields@.len(),
            place,
        ),
{
    let ghost start = out@;
    let ghost all = Seq::new(fields@.len(), |i: int| fields@[i]@);
    let mut i: usize = 0;
    while i < fields.len()
        invariant
            i <= fields@.len(),
            all == Seq::new(fields@.len(), |i: int| fields@[i]@),
            out@ == fields_text(start, all, i as nat, place),
        decreases fields.len() - i,
    {
        let f = &fields[i];
        assert(all[i as int] == f@);
        match place {
            Place::Declared { nested } => {
                out.append(" ");
                out.append(f.name.as_str());
                out.append(": ");
                type_str(out, &f.kind, nested);
                out.append(",");
            },
            Place::Bound => {
                out.append(" ");
                out.append(f.name.as_str());
                out.append(",");
            },
            Place::Written => {
                out.append("                ");
                out.append(f.name.as_str());
                out.append(".serialize(out)?;\n");
            },
            Place::Read => {
                out.append("                ");
                out.append(f.name.as_str());
                out.append(": TLType::deserialize(input)?,\n");
            },
        }
        i += 1;
    }
}

/// `acc`, and behind it the variant of the constructor `c`.
pub open spec fn variant_text(acc: Seq<char>, c: ConstructorView, nested: bool) -> Seq<char> {
    fields_text(
        acc + "    "@ + c.name + " {"@,
        c.fields,
        c.fields.len(),
        Place::Declared { nested },
    )
        + " },\n"@
}

/// `acc`, and behind it the arm that writes a value of the constructor `c`
/// of the type `ty`: the discriminator, then the fields in their order.
pub open spec fn writer_text(acc: Seq<char>, ty: Seq<char>, c: ConstructorView) -> Seq<char> {
    let pattern = fields_text(
        acc + "            "@ + ty + "::"@ + c.name + " {"@,
        c.fields,
        c.fields.len(),
        Place::Bound,
    ) + " } => {\n"@;
    let id = number(pattern + "                ("@, c.id as int) + "i32).serialize(out)?;\n"@;
    fields_text(id, c.fields, c.fields.len(), Place::Written) + "            },\n"@
}

/// `acc`, and behind it the arm that reads a value of the constructor `c` of
/// the type `ty` once its discriminator was read.
pub open spec fn reader_text(acc: Seq<char>, ty: Seq<char>, c: ConstructorView) -> Seq<char> {
    let head = number(acc + "            "@, c.id as int) + "i32 => Ok("@ + ty + "::"@ + c.name
        + " {\n"@;
    fields_text(head, c.fields, c.fields.len(), Place::Read) + "            }),\n"@
}

/// The three places in which the constructors of a type are written.
#[derive(Debug, Clone, Copy, PartialEq, Eq, Structural)]
pub enum Part {
    Variant { nested: bool },
    Writer,
    Reader,
}

/// `acc`, and behind it the constructor `c` of the type `ty` as it is written
/// at `part`.
pub open spec fn constructor_text(acc: Seq<char>, ty: Seq<char>, c: ConstructorView, part: Part) -> Seq<
    char,
> {
    match part {
        Part::Variant { nested } => variant_text(acc, c, nested),
        Part::Writer => writer_text(acc, ty, c),
        Part::Reader => reader_text(acc, ty, c),
    }
}

/// `acc`, and behind it the first `n` of the constructors `cs` of the type
/// `ty` as they are written at `part`.
pub open spec fn constructors_text(
    acc: Seq<char>,
    ty: Seq<char>,
    cs: Seq<ConstructorView>,
    n: nat,
    part: Part,
) -> Seq<char>
    decreases n,
{
    if n == 0 {
        acc
    } else {
        constructor_text(constructors_text(acc, ty, cs, (n - 1) as nat, part), ty, cs[n - 1], part)
    }
}

/// Appends the constructor `c` of the type `ty` as it is written at `part`.
pub fn emit_constructor(out: &mut String, ty: &String, c: &ConstructorDef, part: Part)
    ensures
        final(out)@ == constructor_text(old(out)@, ty@, c@, part),
{
    match part {
        Part::Variant { nested } => {
            out.append("    ");
            out.append(c.name.as_str());
            out.append(" {");
            emit_fields(out, &c.fields, Place::Declared { nested });
            out.append(" },\n");
        },
        Part::Writer => {
            out.append("            ");
            out.append(ty.as_str());
            out.append("::");
            out.append(c.name.as_str());
            out.append(" {");
            emit_fields(out, &c.fields, Place::Bound);
            out.append(" } => {\n");
            out.append("                (");
            push_number(out, c.id);
            out.append("i32).serialize(out)?;\n");
            emit_fields(out, &c.fields, Place::Written);
            out.append("            },\n");
        },
        Part::Reader => {
            out.append("            ");
            push_number(out, c.id);
            out.append("i32 => Ok(");
            out.append(ty.as_str());
            out.append("::");
            out.append(c.name.as_str());
            out.append(" {\n");
            emit_fields(out, &c.fields, Place::Read);
            out.append("            }),\n");
        },
    }
}

/// Appends the constructors of the type `ty` as they are written at `part`.
pub fn emit_constructors(out: &mut String, ty: &TypeDef, part: Part)
    ensures
        final(out)@ == constructors_text(
            old(out)@,
            ty@.name,
            ty@.constructors,
            ty@.constructors.len(),
            part,
        ),
{
    let ghost start = out@;
    let mut i: usize = 0;
    while i < ty.constructors.len()
        invariant
            i <= ty.constructors@.len(),
            out@ == constructors_text(start, ty@.name, ty@.constructors, i as nat, part),
        decreases ty.constructors.len() - i,
    {
        emit_constructor(out, &ty.name, &ty.constructors[i], part);
        i += 1;
    }
}

/// `acc`, and behind it the enum of the type `t` and its codec.
pub open spec fn type_def_text(acc: Seq<char>, t: TypeDefView, nested: bool) -> Seq<char> {
    let n = t.constructors.len();
    let variants = constructors_text(
        acc + "#[allow(dead_code)]\n#[derive(Clone, Debug, PartialEq)]\npub enum "@ + t.name
            + " {\n"@,
        t.name,
        t.constructors,
        n,
        Part::Variant { nested },
    );
    let writers = constructors_text(
        variants + "}\nimpl TLType for "@ + t.name
            + " {\n    type V = Self;\n    fn serialize(&self, out: &mut Writer) -> Result<(), Error> {\n        match self {\n"@,
        t.name,
        t.constructors,
        n,
        Part::Writer,
    );
    let readers = constructors_text(
        writers
            + "        }\n        Ok(())\n    }\n    fn deserialize(input: &mut Reader) -> Result<Self, Error> {\n        let id = i32::deserialize(input)?;\n        match id {\n"@,
        t.name,
        t.constructors,
        n,
        Part::Reader,
    );
    readers + "            _ => Err(Error::Deserialize(String::from(\""@ + t.name
        + "\"))),\n        }\n    }\n}\n"@
}

/// Appends the enum of the type `t` and its codec.
pub fn emit_type(out: &mut String, t: &TypeDef, nested: bool)
    ensures
        final(out)@ == type_def_text(old(out)@, t@, nested),
{
    out.append("#[allow(dead_code)]\n#[derive(Clone, Debug, PartialEq)]\npub enum ");
    out.append(t.name.as_str());
    out.append(" {\n");
    emit_constructors(out, t, Part::Variant { nested });
    out.append("}\nimpl TLType for ");
    out.append(t.name.as_str());
    out.append(
        " {\n    type V = Self;\n    fn serialize(&self, out: &mut Writer) -> Result<(), Error> {\n        match self {\n",
    );
    emit_constructors(out, t, Part::Writer);
    out.append(
        "        }\n        Ok(())\n    }\n    fn deserialize(input: &mut Reader) -> Result<Self, Error> {\n        let id = i32::deserialize(input)?;\n        match id {\n",
    );
    emit_constructors(out, t, Part::Reader);
    out.append("            _ => Err(Error::Deserialize(String::from(\"");
    out.append(t.name.as_str());
    out.append("\"))),\n        }\n    }\n}\n");
}

/// `acc`, and behind it the first `n` of the types `ts`.
pub open spec fn types_text(acc: Seq<char>, ts: Seq<TypeDefView>, n: nat, nested: bool) -> Seq<
    char,
>
    decreases n,
{
    if n == 0 {
        acc
    } else {
        type_def_text(types_text(acc, ts, (n - 1) as nat, nested), ts[n - 1], nested)
    }
}

/// `acc`, and behind it the namespace `ns`: its types, inside a module of its
/// name where it has one.
pub open spec fn namespace_text(acc: Seq<char>, ns: NamespaceView) -> Seq<char> {
    if ns.name.len() == 0 {
        types_text(acc, ns.types, ns.types.len(), false)
    } else {
        types_text(
            acc + "pub mod "@ + ns.name + " {\nuse super::*;\n"@,
            ns.types,
            ns.types.len(),
            true,
        ) + "}\n"@
    }
}

/// Appends the namespace `ns`.
pub fn emit_namespace(out: &mut String, ns: &Namespace)
    ensures
        final(out)@ == namespace_text(old(out)@, ns@),
{
    let named: bool = !ns.name.as_str().is_empty();
    if named {
        out.append("pub mod ");
        out.append(ns.name.as_str());
        out.append(" {\nuse super::*;\n");
    }
    let ghost start = out@;
    let mut i: usize = 0;
    while i < ns.types.len()
        invariant
            i <= ns.types@.len(),
            out@ == types_text(start, ns@.types, i as nat, named),
        decreases ns.types.len() - i,
    {
        emit_type(out, &ns.types[i], named);
        i += 1;
    }
    if named {
        out.append("}\n");
    }
}

/// `acc`, and behind it the first `n` of the namespaces `nss`.
pub open spec fn namespaces_text(acc: Seq<char>, nss: Seq<NamespaceView>, n: nat) -> Seq<char>
    decreases n,
{
    if n == 0 {
        acc
    } else {
        namespace_text(namespaces_text(acc, nss, (n - 1) as nat), nss[n - 1])
    }
}

/// The Rust source of the schema `ast`.
pub open spec fn source(ast: AstView) -> Seq<char> {
    namespaces_text(Seq::empty(), ast.namespaces, ast.namespaces.len())
}

impl Ast {
    /// The Rust source of the schema: for each type an enum and its codec.
    pub fn compile(&self) -> (text: String)
        ensures
            text@ == source(self@),
    {
        let mut out = String::new();
        let mut i: usize = 0;
        while i < self.namespaces.len()
            invariant
                i <= self.namespaces@.len(),
                out@ == namespaces_text(Seq::empty(), self@.namespaces, i as nat),
            decreases self.namespaces.len() - i,
        {
            emit_namespace(&mut out, &self.namespaces[i]);
            i += 1;
        }
        out
    }
}

} // verus!
